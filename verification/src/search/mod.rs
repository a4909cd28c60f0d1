//! Web-search helpers: hosts, favicons, and result records.

pub mod bing;
pub mod brave;
pub mod browser_fallback;
pub mod chain;
pub mod duckduckgo;
pub mod google;
pub mod html;
pub mod urlcode;

use vstd::prelude::*;
use crate::text::{trim, trimmed, find_from, occurs_at, chars_of, copy_range, find, find_at_or_after, lemma_find_from_is_first, string_of};

verus! {

/// The text `://` that ends a URL scheme.
pub open spec fn scheme_sep() -> Seq<char> {
    seq![':', '/', '/']
}

/// A character that ends the host part of a URL.
pub open spec fn is_host_end(c: char) -> bool {
    c == '/' || c == '?' || c == '#'
}

/// The part of `url` after its first `://`, or all of it when there is none.
pub open spec fn after_scheme(url: Seq<char>) -> Seq<char> {
    match find(url, scheme_sep()) {
        Some(i) => url.skip(i + 3),
        None => url,
    }
}

/// Length of the leading run of `s` that holds no `/`, `?` or `#`.
pub open spec fn host_len(s: Seq<char>) -> nat
    decreases s.len(),
{
    if s.len() == 0 || is_host_end(s[0]) {
        0
    } else {
        1 + host_len(s.drop_first())
    }
}

/// The host of `url`: the text after the scheme up to the first `/`, `?` or
/// `#`; `None` when that is empty.
pub open spec fn host_spec(url: Seq<char>) -> Option<Seq<char>> {
    let rest = after_scheme(url);
    let h = rest.take(host_len(rest) as int);
    if h.len() == 0 {
        None
    } else {
        Some(h)
    }
}

proof fn lemma_host_len_bound(s: Seq<char>)
    ensures
        host_len(s) <= s.len(),
    decreases s.len(),
{
    if s.len() > 0 && !is_host_end(s[0]) {
        lemma_host_len_bound(s.drop_first());
    }
}

proof fn lemma_host_len_run(s: Seq<char>, i: int)
    requires
        0 <= i < host_len(s),
    ensures
        !is_host_end(s[i]),
    decreases s.len(),
{
    lemma_host_len_bound(s);
    if i > 0 {
        lemma_host_len_run(s.drop_first(), i - 1);
    }
}

/// A host is never empty and holds none of `/`, `?` and `#`.
pub proof fn lemma_host_is_one_segment(url: Seq<char>)
    ensures
        host_spec(url) matches Some(h) ==> h.len() > 0 && forall|i: int| 0 <= i < h.len() ==> !is_host_end(#[trigger] h[i]),
{
    let rest = after_scheme(url);
    lemma_host_len_bound(rest);
    assert forall|i: int| 0 <= i < host_len(rest) implies !is_host_end(#[trigger] rest.take(host_len(rest) as int)[i]) by {
        lemma_host_len_run(rest, i);
    }
}

/// Extract the host from a URL string.
pub fn host_of(url: &str) -> (r: Option<String>)
    ensures
        match r {
            Some(h) => host_spec(url@) == Some(h@),
            None => host_spec(url@) is None,
        },
{
    let u = chars_of(url);
    let sep: [char; 3] = [':', '/', '/'];
    assert(sep@ =~= scheme_sep());
    let sep_s = sep.as_slice();
    assert(sep_s@ == scheme_sep());
    let found = find_at_or_after(u.as_slice(), sep_s, 0);
    proof {
        lemma_find_from_is_first(u@, scheme_sep(), 0);
    }
    let start: usize = match found {
        Some(i) => {
            assert(occurs_at(u@, scheme_sep(), i as int));
            assert(i + 3 <= u.len());
            i + 3
        },
        None => 0,
    };
    let ghost rest = after_scheme(u@);
    assert(rest =~= u@.skip(start as int));
    let mut end: usize = start;
    while end < u.len() && !(u[end] == '/' || u[end] == '?' || u[end] == '#')
        invariant
            start <= end <= u@.len(),
            rest == u@.skip(start as int),
            host_len(rest) == (end - start) + host_len(u@.skip(end as int)),
        decreases u@.len() - end,
    {
        assert(u@.skip(end as int).drop_first() =~= u@.skip(end + 1));
        end += 1;
    }
    proof {
        if end < u@.len() {
            assert(u@.skip(end as int)[0] == u@[end as int]);
        }
        assert(host_len(u@.skip(end as int)) == 0);
        assert(rest.take(host_len(rest) as int) =~= u@.subrange(start as int, end as int));
    }
    if end == start {
        None
    } else {
        let h = copy_range(u.as_slice(), start, end);
        Some(string_of(h.as_slice()))
    }
}

/// The favicon URL the DuckDuckGo icon proxy serves for `domain`.
pub open spec fn favicon_spec(domain: Seq<char>) -> Seq<char> {
    "https://external-content.duckduckgo.com/ip3/"@ + domain + ".ico"@
}

/// Favicon URL for a domain, served by DuckDuckGo's icon proxy.
pub fn favicon_for(domain: &str) -> (r: String)
    ensures
        r@ == favicon_spec(domain@),
{
    let mut r = String::from_str("https://external-content.duckduckgo.com/ip3/");
    r.append(domain);
    r.append(".ico");
    r
}

/// One web result as shown in the command bar.
#[derive(Clone, Debug)]
pub struct SearchResult {
    pub title: String,
    pub snippet: String,
    pub url: String,
    pub favicon: Option<String>,
    /// Which provider produced this result (e.g. "DuckDuckGo").
    pub source: String,
}

/// A result as text: title, snippet, url, favicon, source.
pub type ResultText = (Seq<char>, Seq<char>, Seq<char>, Option<Seq<char>>, Seq<char>);

impl View for SearchResult {
    type V = ResultText;

    open spec fn view(&self) -> ResultText {
        (
            self.title@,
            self.snippet@,
            self.url@,
            match self.favicon {
                Some(f) => Some(f@),
                None => None,
            },
            self.source@,
        )
    }
}

/// The favicon a result with this URL gets: the icon of its host, if any.
pub open spec fn favicon_of_url(url: Seq<char>) -> Option<Seq<char>> {
    match host_spec(url) {
        Some(h) => Some(favicon_spec(h)),
        None => None,
    }
}

/// `favicon_for` of the host of `url`, when it has one.
pub fn url_favicon(url: &str) -> (r: Option<String>)
    ensures
        match r {
            Some(f) => favicon_of_url(url@) == Some(f@),
            None => favicon_of_url(url@) is None,
        },
{
    match host_of(url) {
        Some(h) => Some(favicon_for(h.as_str())),
        None => None,
    }
}

/// The result views of a sequence of results.
pub open spec fn results_view(rs: Seq<SearchResult>) -> Seq<ResultText> {
    rs.map_values(|r: SearchResult| r@)
}

/// Most results a provider hands back.
pub const MAX_RESULTS: usize = 8;

/// The results that `f` makes of `hits`, in order, skipping hits it rejects.
pub open spec fn collect_results<H>(hits: Seq<H>, f: spec_fn(H) -> Option<ResultText>) -> Seq<ResultText>
    decreases hits.len(),
{
    if hits.len() == 0 {
        seq![]
    } else {
        let prev = collect_results(hits.drop_last(), f);
        match f(hits.last()) {
            Some(r) => prev.push(r),
            None => prev,
        }
    }
}

/// The first `MAX_RESULTS` items of `s`.
pub open spec fn first_results<H>(s: Seq<H>) -> Seq<H> {
    if s.len() <= MAX_RESULTS {
        s
    } else {
        s.take(MAX_RESULTS as int)
    }
}

proof fn lemma_collect_results_len<H>(hits: Seq<H>, f: spec_fn(H) -> Option<ResultText>)
    ensures
        collect_results(hits, f).len() <= hits.len(),
    decreases hits.len(),
{
    if hits.len() > 0 {
        lemma_collect_results_len(hits.drop_last(), f);
    }
}

/// A provider never hands back more than `MAX_RESULTS` results: only the
/// first `MAX_RESULTS` result blocks or items are looked at.
pub proof fn lemma_results_capped<H>(hits: Seq<H>, f: spec_fn(H) -> Option<ResultText>)
    ensures
        collect_results(first_results(hits), f).len() <= MAX_RESULTS,
        first_results(hits).len() <= MAX_RESULTS,
{
    lemma_collect_results_len(first_results(hits), f);
}

/// Text of an optional snippet, trimmed; empty when there is none.
pub open spec fn snippet_text(s: Option<Seq<char>>) -> Seq<char> {
    match s {
        Some(t) => trimmed(t),
        None => seq![],
    }
}

/// The trimmed text of `s`, as a `String`.
pub fn trimmed_string(s: &str) -> (r: String)
    ensures
        r@ == trimmed(s@),
{
    let t = trim(chars_of(s).as_slice());
    string_of(t.as_slice())
}

/// The trimmed snippet text, or an empty string when there is none.
pub fn snippet_string(s: &Option<String>) -> (r: String)
    ensures
        r@ == snippet_text(match s {
            Some(t) => Some(t@),
            None => None,
        }),
{
    match s {
        Some(t) => trimmed_string(t.as_str()),
        None => String::new(),
    }
}

/// One web result as a search API returns it.
pub struct ApiItem {
    pub title: String,
    pub url: String,
    pub snippet: String,
}

impl View for ApiItem {
    type V = (Seq<char>, Seq<char>, Seq<char>);

    open spec fn view(&self) -> (Seq<char>, Seq<char>, Seq<char>) {
        (self.title@, self.url@, self.snippet@)
    }
}

/// The result one API item makes for the provider `source`.
pub open spec fn api_result_text(item: (Seq<char>, Seq<char>, Seq<char>), source: Seq<char>) -> ResultText {
    (item.0, item.2, item.1, favicon_of_url(item.1), source)
}

/// The results for API items: the first `MAX_RESULTS`, in order.
pub open spec fn api_result_texts(items: Seq<(Seq<char>, Seq<char>, Seq<char>)>, source: Seq<char>) -> Seq<ResultText> {
    first_results(items).map_values(|i: (Seq<char>, Seq<char>, Seq<char>)| api_result_text(i, source))
}

/// Results for API items from the provider named `source`.
pub fn api_results(items: &Vec<ApiItem>, source: &str) -> (r: Vec<SearchResult>)
    ensures
        results_view(r@) == api_result_texts(items@.map_values(|i: ApiItem| i@), source@),
{
    let ghost iv = items@.map_values(|i: ApiItem| i@);
    let n: usize = if items.len() <= MAX_RESULTS { items.len() } else { MAX_RESULTS };
    let mut out: Vec<SearchResult> = Vec::new();
    let mut i: usize = 0;
    while i < n
        invariant
            i <= n <= items@.len(),
            n == first_results(iv).len(),
            iv == items@.map_values(|i: ApiItem| i@),
            first_results(iv) == iv.take(n as int),
            results_view(out@) =~= iv.take(i as int).map_values(
                |x: (Seq<char>, Seq<char>, Seq<char>)| api_result_text(x, source@),
            ),
        decreases n - i,
    {
        let item = &items[i];
        let favicon = url_favicon(item.url.as_str());
        let ghost prev = out@;
        assert(iv.take(i + 1) =~= iv.take(i as int).push(iv[i as int]));
        assert(iv[i as int] == item@);
        out.push(
            SearchResult {
                title: item.title.clone(),
                snippet: item.snippet.clone(),
                url: item.url.clone(),
                favicon,
                source: String::from_str(source),
            },
        );
        assert(results_view(out@) =~= results_view(prev).push(out@.last()@));
        i += 1;
    }
    out
}

} // verus!
