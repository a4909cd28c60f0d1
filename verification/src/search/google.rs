//! Google provider via the official Custom Search JSON API. Needs both an
//! API key and a search-engine id ("cx"); without them it reports itself
//! unavailable.

use vstd::prelude::*;
use crate::search::brave::{keep_nonempty, usable_key};
use crate::search::{api_result_texts, api_results, ApiItem, SearchResult};

verus! {

pub struct GoogleProvider {
    api_key: Option<String>,
    cx: Option<String>,
}

impl GoogleProvider {
    pub closed spec fn key(&self) -> Option<Seq<char>> {
        match self.api_key {
            Some(k) => Some(k@),
            None => None,
        }
    }

    pub closed spec fn engine(&self) -> Option<Seq<char>> {
        match self.cx {
            Some(k) => Some(k@),
            None => None,
        }
    }

    /// A provider with the key and engine id read from the environment
    /// (`GOOGLE_SEARCH_API_KEY`, `GOOGLE_SEARCH_CX`); empty values count as none.
    pub fn from_keys(api_key: Option<String>, cx: Option<String>) -> (r: Self)
        ensures
            r.key() == usable_key(match api_key {
                Some(t) => Some(t@),
                None => None,
            }),
            r.engine() == usable_key(match cx {
                Some(t) => Some(t@),
                None => None,
            }),
    {
        GoogleProvider { api_key: keep_nonempty(api_key), cx: keep_nonempty(cx) }
    }

    pub fn name(&self) -> (r: &'static str)
        ensures
            r@ == "Google"@,
    {
        "Google"
    }

    /// Whether the provider is usable: it has both an API key and an engine id.
    pub fn available(&self) -> (r: bool)
        ensures
            r == (self.key() is Some && self.engine() is Some),
    {
        self.api_key.is_some() && self.cx.is_some()
    }

    /// The key and engine id to send, or the error the search reports
    /// without them.
    pub fn credentials(&self) -> (r: Result<(&String, &String), String>)
        ensures
            match r {
                Ok((k, c)) => self.key() == Some(k@) && self.engine() == Some(c@),
                Err(e) => (self.key() is None || self.engine() is None) && e@ == "no API key configured"@,
            },
    {
        match (&self.api_key, &self.cx) {
            (Some(k), Some(c)) => Ok((k, c)),
            _ => Err(String::from_str("no API key configured")),
        }
    }

    /// The results for the API's items, in order: the first `MAX_RESULTS`
    /// of them, each with the favicon of its URL's host.
    pub fn results(items: &Vec<ApiItem>) -> (r: Vec<SearchResult>)
        ensures
            crate::search::results_view(r@) == api_result_texts(
                items@.map_values(|i: ApiItem| i@),
                "Google"@,
            ),
    {
        api_results(items, "Google")
    }
}

} // verus!
