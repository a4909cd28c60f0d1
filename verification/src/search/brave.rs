//! Brave Search provider (official Web Search API). Requires an API key;
//! without one the provider reports itself unavailable.

use vstd::prelude::*;
use crate::search::{api_result_texts, api_results, ApiItem, ResultText, SearchResult};

verus! {

pub struct BraveProvider {
    api_key: Option<String>,
}

/// A configured key: present and not empty.
pub open spec fn usable_key(k: Option<Seq<char>>) -> Option<Seq<char>> {
    match k {
        Some(s) => if s.len() > 0 {
            Some(s)
        } else {
            None
        },
        None => None,
    }
}

/// Keep `k` only when it is present and not empty.
pub fn keep_nonempty(k: Option<String>) -> (r: Option<String>)
    ensures
        match r {
            Some(s) => usable_key(match k {
                Some(t) => Some(t@),
                None => None,
            }) == Some(s@),
            None => usable_key(match k {
                Some(t) => Some(t@),
                None => None,
            }) is None,
        },
{
    match k {
        Some(s) => if s.as_str().unicode_len() > 0 {
            Some(s)
        } else {
            None
        },
        None => None,
    }
}

impl BraveProvider {
    /// The configured API key, if usable.
    pub closed spec fn key(&self) -> Option<Seq<char>> {
        match self.api_key {
            Some(k) => Some(k@),
            None => None,
        }
    }

    /// A provider with the API key read from the environment (`BRAVE_SEARCH_API_KEY`);
    /// an empty key counts as none.
    pub fn from_key(api_key: Option<String>) -> (r: Self)
        ensures
            r.key() == usable_key(match api_key {
                Some(t) => Some(t@),
                None => None,
            }),
    {
        BraveProvider { api_key: keep_nonempty(api_key) }
    }

    pub fn name(&self) -> (r: &'static str)
        ensures
            r@ == "Brave"@,
    {
        "Brave"
    }

    /// Whether the provider is usable: it has an API key.
    pub fn available(&self) -> (r: bool)
        ensures
            r == self.key() is Some,
    {
        self.api_key.is_some()
    }

    /// The key to send, or the error the search reports without one.
    pub fn api_key(&self) -> (r: Result<&String, String>)
        ensures
            match r {
                Ok(k) => self.key() == Some(k@),
                Err(e) => self.key() is None && e@ == "no API key configured"@,
            },
    {
        match &self.api_key {
            Some(k) => Ok(k),
            None => Err(String::from_str("no API key configured")),
        }
    }

    /// The results for the API's web results, in order: the first
    /// `MAX_RESULTS` of them, each with the favicon of its URL's host.
    pub fn results(items: &Vec<ApiItem>) -> (r: Vec<SearchResult>)
        ensures
            crate::search::results_view(r@) == api_result_texts(
                items@.map_values(|i: ApiItem| i@),
                "Brave"@,
            ),
    {
        api_results(items, "Brave")
    }
}

} // verus!
