//! Bing provider backed by the public HTML results page: a best-effort
//! late fallback following Bing's long-stable `li.b_algo` result markup.

use vstd::prelude::*;
use crate::search::html::{extracted_hits, html_hits, HitText, HtmlHit};
use crate::search::{
    collect_results, favicon_of_url, first_results, results_view, snippet_string, snippet_text,
    trimmed_string, url_favicon, ResultText, SearchResult, MAX_RESULTS,
};
use crate::text::{chars_of, has_prefix, starts_with, trimmed};

verus! {

pub struct BingProvider;

impl BingProvider {
    /// Human-readable provider name, also used as the failure-cache key.
    pub fn name(&self) -> (r: &'static str)
        ensures
            r@ == "Bing"@,
    {
        "Bing"
    }
}

/// The result a Bing result block makes: it needs a title link with an
/// `href` that starts with `http` and trimmed text that is not empty.
pub open spec fn bing_result(hit: HitText) -> Option<ResultText> {
    match hit.0 {
        None => None,
        Some(link) => match link.1 {
            None => None,
            Some(url) => if trimmed(link.0).len() == 0 || !starts_with(url, "http"@) {
                None
            } else {
                Some((trimmed(link.0), snippet_text(hit.1), url, favicon_of_url(url), "Bing"@))
            },
        },
    }
}

/// The results of a Bing page whose result blocks are `hits`: the first
/// `MAX_RESULTS` blocks are looked at.
pub open spec fn bing_results(hits: Seq<HitText>) -> Seq<ResultText> {
    collect_results(first_results(hits), |h: HitText| bing_result(h))
}

/// Turn extracted Bing result blocks into results.
pub fn results_from_hits(hits: &Vec<HtmlHit>) -> (r: Vec<SearchResult>)
    ensures
        results_view(r@) == bing_results(hits@.map_values(|h: HtmlHit| h@)),
{
    let ghost hv = hits@.map_values(|h: HtmlHit| h@);
    let n: usize = if hits.len() <= MAX_RESULTS { hits.len() } else { MAX_RESULTS };
    let http = chars_of("http");
    let mut out: Vec<SearchResult> = Vec::new();
    let mut i: usize = 0;
    while i < n
        invariant
            i <= n <= hits@.len(),
            n == first_results(hv).len(),
            hv == hits@.map_values(|h: HtmlHit| h@),
            first_results(hv) == hv.take(n as int),
            http@ == "http"@,
            results_view(out@) == collect_results(hv.take(i as int), |h: HitText| bing_result(h)),
        decreases n - i,
    {
        let hit = &hits[i];
        assert(hv.take(i + 1).drop_last() =~= hv.take(i as int));
        assert(hv.take(i + 1).last() == hit@);
        let ghost prev = out@;
        match &hit.link {
            None => {},
            Some(link) => match &link.attr {
                None => {},
                Some(url) => {
                    let title = trimmed_string(link.text.as_str());
                    let u = chars_of(url.as_str());
                    if title.as_str().unicode_len() > 0 && has_prefix(u.as_slice(), http.as_slice()) {
                        let snippet = snippet_string(&hit.snippet);
                        let favicon = url_favicon(url.as_str());
                        out.push(
                            SearchResult {
                                title,
                                snippet,
                                url: url.clone(),
                                favicon,
                                source: String::from_str("Bing"),
                            },
                        );
                        assert(results_view(out@) =~= results_view(prev).push(out@.last()@));
                    }
                },
            },
        }
        i += 1;
    }
    out
}

/// Parse a Bing HTML results page.
pub fn parse(body: &str) -> (r: Vec<SearchResult>)
    ensures
        results_view(r@) == bing_results(
            extracted_hits(
                body@,
                "li.b_algo"@,
                "h2 a"@,
                ".b_caption p, p.b_lineclamp2, .b_caption .b_paractl"@,
                "href"@,
            ),
        ),
{
    let hits = html_hits(
        body,
        "li.b_algo",
        "h2 a",
        ".b_caption p, p.b_lineclamp2, .b_caption .b_paractl",
        "href",
    );
    results_from_hits(&hits)
}

} // verus!
