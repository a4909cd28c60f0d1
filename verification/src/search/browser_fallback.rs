//! The active web-search backend: the query goes to the user's default
//! browser as a search-engine URL. The browser launch itself is done by the
//! application shell; this module computes the URL.

use vstd::prelude::*;
use crate::search::urlcode::{percent_encode, percent_encoded};
use crate::text::{chars_of, replace_all, replaced, string_of, trim, trimmed};

verus! {

/// Search engine URL template; `{query}` is replaced with the
/// percent-encoded query.
pub open spec fn engine_template() -> Seq<char> {
    "https://www.google.com/search?q={query}"@
}

/// The placeholder that the query replaces in the template.
pub open spec fn query_placeholder() -> Seq<char> {
    "{query}"@
}

/// The search URL for `query`: the template with the placeholder replaced by
/// the percent-encoded, trimmed query.
pub open spec fn search_url(query: Seq<char>) -> Seq<char> {
    replaced(engine_template(), query_placeholder(), percent_encoded(trimmed(query)))
}

pub struct DefaultBrowserFallback;

impl DefaultBrowserFallback {
    /// Build the search URL for `query` using the configured template.
    pub fn build_url(query: &str) -> (r: String)
        ensures
            r@ == search_url(query@),
    {
        let q = trim(chars_of(query).as_slice());
        let qs = string_of(q.as_slice());
        let encoded = percent_encode(qs.as_str());
        let enc = chars_of(encoded.as_str());
        let template = chars_of("https://www.google.com/search?q={query}");
        let placeholder = chars_of("{query}");
        proof {
            reveal_strlit("{query}");
        }
        let url = replace_all(template.as_slice(), placeholder.as_slice(), enc.as_slice());
        string_of(url.as_slice())
    }

    /// The URL the browser is sent to for `query`: `Err` with "empty query"
    /// when the trimmed query is empty, else the search URL.
    pub fn open_target(query: &str) -> (r: Result<String, String>)
        ensures
            match r {
                Ok(u) => trimmed(query@).len() > 0 && u@ == search_url(trimmed(query@)),
                Err(e) => trimmed(query@).len() == 0 && e@ == "empty query"@,
            },
    {
        let q = trim(chars_of(query).as_slice());
        if q.len() == 0 {
            return Err(String::from_str("empty query"));
        }
        let qs = string_of(q.as_slice());
        Ok(Self::build_url(qs.as_str()))
    }
}

} // verus!
