//! The URL index's query handling and the ranking rules of both indexes.
//! The index itself is an SQLite database kept by the application shell.

pub mod history;
pub mod local;
pub mod local_ranking;
pub mod ranking;

use vstd::prelude::*;
use crate::text::{
    parse_i64, parsed_i64, decimal_text, i64_text, lemma_decimal_text_parses, chars_of, has_prefix, lowercase, starts_with, string_of, strip_prefix_keep,
    strip_prefix_or_keep, to_lowercase, trim, trim_end_char, trim_end_matching, trimmed,
};

verus! {

/// `s` without a leading `https://`, or else without a leading `http://`.
pub open spec fn strip_scheme(s: Seq<char>) -> Seq<char> {
    if starts_with(s, "https://"@) {
        s.skip(8)
    } else {
        strip_prefix_or_keep(s, "http://"@)
    }
}

/// The normal form of typed text: trimmed, lower-cased, without
/// `https://`/`http://`, without `www.`, and without trailing `/`.
pub open spec fn normalized_query(q: Seq<char>) -> Seq<char> {
    trim_end_char(strip_prefix_or_keep(strip_scheme(lowercase(trimmed(q))), "www."@), '/')
}

/// Lowercase, trim, and strip scheme/`www.` so "HTTPS://www.GitHub" and
/// "github" match the same rows.
pub fn normalize_query(query: &str) -> (r: String)
    ensures
        r@ == normalized_query(query@),
{
    let t = trim(chars_of(query).as_slice());
    let ts = string_of(t.as_slice());
    let lower = to_lowercase(ts.as_str());
    let l = chars_of(lower.as_str());
    let https = chars_of("https://");
    proof {
        reveal_strlit("https://");
    }
    let no_scheme = if has_prefix(l.as_slice(), https.as_slice()) {
        crate::text::copy_range(l.as_slice(), 8, l.len())
    } else {
        let http = chars_of("http://");
        strip_prefix_keep(l.as_slice(), http.as_slice())
    };
    let www = chars_of("www.");
    let no_www = strip_prefix_keep(no_scheme.as_slice(), www.as_slice());
    let out = trim_end_matching(no_www.as_slice(), '/');
    string_of(out.as_slice())
}

/// Maximum suggestion rows fetched from SQLite before ranking in memory.
pub const CANDIDATE_LIMIT: usize = 64;

/// `s` without any `%` or `_`.
pub open spec fn without_wildcards(s: Seq<char>) -> Seq<char>
    decreases s.len(),
{
    if s.len() == 0 {
        seq![]
    } else if s.last() == '%' || s.last() == '_' {
        without_wildcards(s.drop_last())
    } else {
        without_wildcards(s.drop_last()).push(s.last())
    }
}

/// `LIKE` pattern for domains that hold the normalised query, with the
/// query's own `%` and `_` dropped.
pub fn domain_like_pattern(q: &str) -> (r: String)
    ensures
        r@ == seq!['%'] + without_wildcards(q@) + seq!['%'],
{
    let v = chars_of(q);
    let mut out: Vec<char> = Vec::new();
    out.push('%');
    let mut i: usize = 0;
    while i < v.len()
        invariant
            i <= v@.len(),
            v@ == q@,
            out@ == seq!['%'] + without_wildcards(v@.take(i as int)),
        decreases v@.len() - i,
    {
        let c = v[i];
        assert(v@.take(i + 1).drop_last() =~= v@.take(i as int));
        if c != '%' && c != '_' {
            out.push(c);
        }
        i += 1;
        assert(out@ =~= seq!['%'] + without_wildcards(v@.take(i as int)));
    }
    out.push('%');
    assert(v@.take(v@.len() as int) =~= v@);
    string_of(out.as_slice())
}

/// Whether more than `min_interval_secs` seconds have passed since the time
/// stored as `last` (decimal Unix seconds); true when nothing usable is stored.
pub open spec fn interval_passed(last: Option<Seq<char>>, now: i64, min_interval_secs: i64) -> bool {
    match last {
        Some(text) => match parsed_i64(text) {
            Some(t) => now - t > min_interval_secs,
            None => true,
        },
        None => true,
    }
}

/// The timestamp gate behind history import and periodic re-indexing:
/// `last` is the stored time of the previous run, `now` the current Unix time.
pub fn interval_elapsed(last: Option<&str>, now: i64, min_interval_secs: i64) -> (r: bool)
    ensures
        r == interval_passed(
            match last {
                Some(s) => Some(s@),
                None => None,
            },
            now,
            min_interval_secs,
        ),
{
    match last {
        Some(text) => match parse_i64(text) {
            Some(t) => (now as i128) - (t as i128) > min_interval_secs as i128,
            None => true,
        },
        None => true,
    }
}

/// The text a run's time is stored as for `interval_elapsed` to read back:
/// the decimal Unix seconds.
pub fn stamp_text(now: i64) -> (r: String)
    ensures
        r@ == decimal_text(now as int),
{
    i64_text(now)
}

/// Once a job has recorded its time `t` as `stamp_text(t)`, the check at
/// `now` lets it run again exactly when more than `min_interval_secs`
/// seconds have passed: a gated job runs at most once per interval.
pub proof fn lemma_gate_reads_stamp(t: i64, now: i64, min_interval_secs: i64)
    ensures
        interval_passed(Some(decimal_text(t as int)), now, min_interval_secs) == (now - t
            > min_interval_secs),
{
    lemma_decimal_text_parses(t);
}

/// How many URL suggestions a request gets: 6 unless asked, never more than 20.
pub fn suggestion_limit(limit: Option<usize>) -> (r: usize)
    ensures
        r == match limit {
            Some(l) => if l < 20 {
                l
            } else {
                20
            },
            None => 6,
        },
{
    let l = match limit {
        Some(l) => l,
        None => 6,
    };
    if l < 20 {
        l
    } else {
        20
    }
}

/// The URL a catalog site is stored under: `https://` and the catalog entry.
pub fn catalog_url(entry: &str) -> (r: String)
    ensures
        r@ == "https://"@ + entry@,
{
    let mut u = String::from_str("https://");
    u.append(entry);
    u
}

/// The host of a catalog entry (`domain` or `domain/path`): the text before
/// its first `/`.
pub fn catalog_host(entry: &str) -> (r: String)
    ensures
        r@ == crate::text::before_char(entry@, '/'),
{
    let v = crate::text::prefix_before(chars_of(entry).as_slice(), '/');
    string_of(v.as_slice())
}

} // verus!
