//! What the result pages' HTML holds, extracted with the `scraper` crate.

use vstd::prelude::*;

verus! {

/// The first element inside a result block that matched the link selector.
pub struct HtmlLink {
    /// The element's text, all descendant text nodes joined.
    pub text: String,
    /// The value of the requested attribute, if the element has it.
    pub attr: Option<String>,
}

/// One result block of a page.
pub struct HtmlHit {
    pub link: Option<HtmlLink>,
    /// Text of the first element inside the block that matched the snippet selector.
    pub snippet: Option<String>,
}

/// A hit as text: the link's text and attribute, and the snippet text.
pub type HitText = (Option<(Seq<char>, Option<Seq<char>>)>, Option<Seq<char>>);

impl View for HtmlHit {
    type V = HitText;

    open spec fn view(&self) -> HitText {
        (
            match self.link {
                Some(l) => Some(
                    (
                        l.text@,
                        match l.attr {
                            Some(a) => Some(a@),
                            None => None,
                        },
                    ),
                ),
                None => None,
            },
            match self.snippet {
                Some(s) => Some(s@),
                None => None,
            },
        )
    }
}

/// What `html_hits` extracts from the document `body` with the CSS selectors
/// `item`, `link`, `snippet` and the attribute name `attr`.
pub uninterp spec fn extracted_hits(
    body: Seq<char>,
    item: Seq<char>,
    link: Seq<char>,
    snippet: Seq<char>,
    attr: Seq<char>,
) -> Seq<HitText>;

/// Parses `body` as an HTML document (`scraper::Html::parse_document`) and,
/// for every element matching the selector `item` in document order
/// (`Html::select`), reads the first descendant matching `link` (its text
/// and its attribute `attr`) and the text of the first descendant matching
/// `snippet`. Selectors that `scraper::Selector::parse` rejects give no hits.
/// Claims only that the result is a function of the arguments, named
/// `extracted_hits`; HTML parsing and selector matching are left unstated.
#[verifier::external_body]
pub(crate) fn html_hits(body: &str, item: &str, link: &str, snippet: &str, attr: &str) -> (r: Vec<HtmlHit>)
    ensures
        r@.map_values(|h: HtmlHit| h@) == extracted_hits(body@, item@, link@, snippet@, attr@),
{
    let (Ok(item), Ok(link), Ok(snippet)) = (
        scraper::Selector::parse(item),
        scraper::Selector::parse(link),
        scraper::Selector::parse(snippet),
    ) else {
        return Vec::new();
    };
    scraper::Html::parse_document(body).select(&item).map(|it| HtmlHit {
        link: it.select(&link).next().map(|l| HtmlLink { text: l.text().collect(), attr: l.attr(attr).map(String::from) }),
        snippet: it.select(&snippet).next().map(|s| s.text().collect()),
    }).collect()
}

} // verus!
