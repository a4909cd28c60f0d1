//! DuckDuckGo provider backed by the keyless `html.duckduckgo.com` endpoint:
//! the result page's links and how they are turned into results.

use vstd::prelude::*;
use crate::search::html::{extracted_hits, html_hits, HitText, HtmlHit};
use crate::search::urlcode::{percent_decode, percent_decoded};
use crate::search::{
    collect_results, favicon_of_url, first_results, results_view, snippet_string, snippet_text,
    trimmed_string, url_favicon, ResultText, SearchResult, MAX_RESULTS,
};
use crate::text::{
    before_char, chars_of, copy_range, find, find_at_or_after, has_prefix,
    lemma_find_from_is_first, occurs_at, prefix_before, starts_with, string_of, trimmed,
};

verus! {

/// Where a result link of the DuckDuckGo page leads. Result links point at
/// DuckDuckGo's redirect (`//duckduckgo.com/l/?uddg=<real-url>&...`): the
/// real URL is the percent-decoded text after the first `uddg=` up to the
/// next `&`. Other links are kept when they start with `http`, and
/// protocol-relative ones (`//...`) get `https:` in front.
pub open spec fn redirect_target(href: Seq<char>) -> Option<Seq<char>> {
    match find(href, "uddg="@) {
        Some(idx) => percent_decoded(before_char(href.skip(idx + 5), '&')),
        None => if starts_with(href, "http"@) {
            Some(href)
        } else if starts_with(href, "//"@) {
            Some("https:"@ + href)
        } else {
            None
        },
    }
}

/// A redirect link is always unwrapped, however it begins: when `href`
/// holds `uddg=` and `i` is its first occurrence, the target is the
/// percent-decoding of the text from `i + 5` up to the next `&` (or to the
/// end), even for a link that starts with `http`.
pub proof fn lemma_redirect_always_unwrapped(href: Seq<char>, i: int)
    requires
        occurs_at(href, "uddg="@, i),
        forall|j: int| 0 <= j < i ==> !occurs_at(href, "uddg="@, j),
    ensures
        redirect_target(href) == percent_decoded(before_char(href.skip(i + 5), '&')),
{
    lemma_find_from_is_first(href, "uddg="@, 0);
    match find(href, "uddg="@) {
        Some(idx) => {
            if idx < i {
                assert(!occurs_at(href, "uddg="@, idx));
            }
            if i < idx {
                assert(!occurs_at(href, "uddg="@, i));
            }
            assert(idx == i);
        },
        None => {
            assert(!occurs_at(href, "uddg="@, i));
        },
    }
}

/// Unwrap DuckDuckGo's redirect links so the destination is stored and
/// opened directly.
pub fn decode_redirect(href: &str) -> (r: Option<String>)
    ensures
        match r {
            Some(u) => redirect_target(href@) == Some(u@),
            None => redirect_target(href@) is None,
        },
{
    let h = chars_of(href);
    let key = chars_of("uddg=");
    proof {
        reveal_strlit("uddg=");
    }
    let found = find_at_or_after(h.as_slice(), key.as_slice(), 0);
    proof {
        lemma_find_from_is_first(h@, key@, 0);
    }
    match found {
        Some(idx) => {
            assert(occurs_at(h@, key@, idx as int));
            assert(idx + 5 <= h.len());
            let rest = copy_range(h.as_slice(), idx + 5, h.len());
            assert(rest@ =~= h@.skip(idx + 5));
            let encoded = prefix_before(rest.as_slice(), '&');
            let es = string_of(encoded.as_slice());
            return percent_decode(es.as_str());
        },
        None => {},
    }
    let http = chars_of("http");
    if has_prefix(h.as_slice(), http.as_slice()) {
        return Some(String::from_str(href));
    }
    let slashes = chars_of("//");
    if has_prefix(h.as_slice(), slashes.as_slice()) {
        let mut u = String::from_str("https:");
        u.append(href);
        return Some(u);
    }
    None
}

pub struct DuckDuckGoProvider;

impl DuckDuckGoProvider {
    /// Human-readable provider name, also used as the failure-cache key.
    pub fn name(&self) -> (r: &'static str)
        ensures
            r@ == "DuckDuckGo"@,
    {
        "DuckDuckGo"
    }
}

/// The result a DuckDuckGo result block makes: it needs a title link whose
/// `href` leads somewhere (see `redirect_target`) and whose trimmed text is
/// not empty.
pub open spec fn ddg_result(hit: HitText) -> Option<ResultText> {
    match hit.0 {
        None => None,
        Some(link) => {
            let target = match link.1 {
                Some(href) => redirect_target(href),
                None => None,
            };
            match target {
                None => None,
                Some(url) => if trimmed(link.0).len() == 0 {
                    None
                } else {
                    Some((trimmed(link.0), snippet_text(hit.1), url, favicon_of_url(url), "DuckDuckGo"@))
                },
            }
        },
    }
}

/// The results of a DuckDuckGo page whose result blocks are `hits`: the
/// first `MAX_RESULTS` blocks are looked at.
pub open spec fn ddg_results(hits: Seq<HitText>) -> Seq<ResultText> {
    collect_results(first_results(hits), |h: HitText| ddg_result(h))
}

/// Turn extracted DuckDuckGo result blocks into results.
pub fn results_from_hits(hits: &Vec<HtmlHit>) -> (r: Vec<SearchResult>)
    ensures
        results_view(r@) == ddg_results(hits@.map_values(|h: HtmlHit| h@)),
{
    let ghost hv = hits@.map_values(|h: HtmlHit| h@);
    let n: usize = if hits.len() <= MAX_RESULTS { hits.len() } else { MAX_RESULTS };
    let mut out: Vec<SearchResult> = Vec::new();
    let mut i: usize = 0;
    while i < n
        invariant
            i <= n <= hits@.len(),
            n == first_results(hv).len(),
            hv == hits@.map_values(|h: HtmlHit| h@),
            first_results(hv) == hv.take(n as int),
            results_view(out@) == collect_results(hv.take(i as int), |h: HitText| ddg_result(h)),
        decreases n - i,
    {
        let hit = &hits[i];
        assert(hv.take(i + 1).drop_last() =~= hv.take(i as int));
        assert(hv.take(i + 1).last() == hit@);
        let ghost prev = out@;
        match &hit.link {
            None => {},
            Some(link) => {
                let target = match &link.attr {
                    Some(href) => decode_redirect(href.as_str()),
                    None => None,
                };
                match target {
                    None => {},
                    Some(url) => {
                        let title = trimmed_string(link.text.as_str());
                        if title.as_str().unicode_len() > 0 {
                            let snippet = snippet_string(&hit.snippet);
                            let favicon = url_favicon(url.as_str());
                            out.push(
                                SearchResult {
                                    title,
                                    snippet,
                                    url,
                                    favicon,
                                    source: String::from_str("DuckDuckGo"),
                                },
                            );
                            assert(results_view(out@) =~= results_view(prev).push(out@.last()@));
                        }
                    },
                }
            },
        }
        i += 1;
    }
    out
}

/// Parse a DuckDuckGo HTML results page.
pub fn parse(body: &str) -> (r: Vec<SearchResult>)
    ensures
        results_view(r@) == ddg_results(
            extracted_hits(
                body@,
                "div.result__body"@,
                "h2.result__title a.result__a"@,
                "a.result__snippet, div.result__snippet"@,
                "href"@,
            ),
        ),
{
    let hits = html_hits(
        body,
        "div.result__body",
        "h2.result__title a.result__a",
        "a.result__snippet, div.result__snippet",
        "href",
    );
    results_from_hits(&hits)
}

} // verus!
