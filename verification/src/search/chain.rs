//! The provider fallback chain's bookkeeping: providers are tried in
//! priority order; the first non-empty answer is the search's answer, and
//! when none comes the search fails with every provider's complaint.

use vstd::prelude::*;
use crate::search::SearchResult;
use crate::text::{lowercase, to_lowercase, trimmed};

verus! {

/// How long successful search results are served from cache, in seconds.
pub const RESULT_TTL_SECS: u64 = 300;
/// How long a failed provider is skipped before being retried, in seconds.
pub const FAILURE_TTL_SECS: u64 = 120;
/// Per-request network timeout, in seconds.
pub const REQUEST_TIMEOUT_SECS: u64 = 6;

/// The result-cache key for a query: trimmed and lower-cased.
pub open spec fn cache_key_spec(query: Seq<char>) -> Seq<char> {
    lowercase(trimmed(query))
}

/// The result-cache key for a query.
pub fn cache_key(query: &str) -> (r: String)
    ensures
        r@ == cache_key_spec(query@),
{
    let t = crate::search::trimmed_string(query);
    to_lowercase(t.as_str())
}

/// `parts` joined with `sep` between consecutive parts.
pub open spec fn joined(parts: Seq<Seq<char>>, sep: Seq<char>) -> Seq<char>
    decreases parts.len(),
{
    if parts.len() == 0 {
        seq![]
    } else if parts.len() == 1 {
        parts[0]
    } else {
        joined(parts.drop_last(), sep) + sep + parts.last()
    }
}

/// What the search does after one provider's answer.
pub enum ChainStep {
    /// The search's answer: these results are cached and returned.
    Answer(Vec<SearchResult>),
    /// Try the next provider; with `mark_failed`, skip this one for
    /// `FAILURE_TTL_SECS` seconds first.
    Next { mark_failed: bool },
}

/// The complaints gathered from the providers tried so far.
pub struct ProviderChain {
    errors: Vec<String>,
}

impl ProviderChain {
    /// Each complaint, in the order the providers were tried.
    pub closed spec fn errors(&self) -> Seq<Seq<char>> {
        self.errors@.map_values(|e: String| e@)
    }

    pub fn new() -> (r: Self)
        ensures
            r.errors() == Seq::<Seq<char>>::empty(),
    {
        let r = ProviderChain { errors: Vec::new() };
        assert(r.errors() =~= Seq::<Seq<char>>::empty());
        r
    }

    /// Whether a provider is tried: it is usable and has not failed within
    /// the last `FAILURE_TTL_SECS` seconds.
    pub fn eligible(available: bool, recently_failed: bool) -> (r: bool)
        ensures
            r == (available && !recently_failed),
    {
        available && !recently_failed
    }

    /// Account for the answer of the provider named `provider`. A non-empty
    /// list of results is the search's answer and is handed back, to be
    /// cached; an empty list is noted as "`<provider>`: no results" and the
    /// next provider is tried; an error `e` is noted as "`<provider>`: `e`",
    /// and the provider is to be skipped for a while before the next is tried.
    pub fn record(&mut self, provider: &str, outcome: Result<Vec<SearchResult>, String>) -> (r: ChainStep)
        ensures
            match outcome {
                Ok(rs) => if rs@.len() > 0 {
                    r == ChainStep::Answer(rs) && final(self).errors() == old(self).errors()
                } else {
                    r == (ChainStep::Next { mark_failed: false }) && final(self).errors()
                        == old(self).errors().push(provider@ + ": no results"@)
                },
                Err(e) => r == (ChainStep::Next { mark_failed: true }) && final(self).errors()
                    == old(self).errors().push(provider@ + ": "@ + e@),
            },
    {
        let ghost before = self.errors@;
        let mark_failed = match outcome {
            Ok(results) => {
                if results.len() > 0 {
                    return ChainStep::Answer(results);
                }
                let mut msg = String::from_str(provider);
                msg.append(": no results");
                self.errors.push(msg);
                false
            },
            Err(e) => {
                let mut msg = String::from_str(provider);
                msg.append(": ");
                msg.append(e.as_str());
                self.errors.push(msg);
                true
            },
        };
        assert(self.errors@.map_values(|e: String| e@) =~= before.map_values(|e: String| e@).push(
            self.errors@.last()@,
        ));
        ChainStep::Next { mark_failed }
    }

    /// The error the search fails with when no provider answered: every
    /// complaint joined with "; ", or "no search providers available" when
    /// no provider was tried.
    pub fn failure(&self) -> (r: String)
        ensures
            self.errors().len() == 0 ==> r@ == "no search providers available"@,
            self.errors().len() > 0 ==> r@ == joined(self.errors(), "; "@),
    {
        if self.errors.len() == 0 {
            return String::from_str("no search providers available");
        }
        let ghost ev = self.errors();
        let mut out = self.errors[0].clone();
        assert(ev.take(1) =~= seq![ev[0]]);
        let mut i: usize = 1;
        while i < self.errors.len()
            invariant
                1 <= i <= self.errors@.len(),
                ev == self.errors(),
                out@ == joined(ev.take(i as int), "; "@),
            decreases self.errors@.len() - i,
        {
            out.append("; ");
            out.append(self.errors[i].as_str());
            assert(ev.take(i + 1).drop_last() =~= ev.take(i as int));
            i += 1;
        }
        assert(ev.take(self.errors@.len() as int) =~= ev);
        out
    }
}

} // verus!
