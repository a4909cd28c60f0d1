//! How typed text matches a candidate domain in URL suggestions.

use vstd::prelude::*;
use crate::text::{
    chars_of, contains, has_prefix, has_substring, matches_at, occurs_at, same_chars,
    starts_with, strip_prefix_or_keep,
};

verus! {

/// How strongly the typed text matches a candidate domain/url.
#[derive(Debug, Clone, Copy, PartialEq, Eq, Structural)]
pub enum MatchKind {
    AliasExact,
    ExactDomain,
    DomainPrefix,
    /// Prefix of a later label, e.g. "wiki" matching "en.wikipedia.org".
    WordPrefix,
    Contains,
}

/// `domain` without a leading `www.`.
pub open spec fn bare_domain(domain: Seq<char>) -> Seq<char> {
    strip_prefix_or_keep(domain, "www."@)
}

/// Position `i` of `s` begins a dot-separated label.
pub open spec fn label_start(s: Seq<char>, i: int) -> bool {
    i == 0 || (0 < i <= s.len() && s[i - 1] == '.')
}

/// Some dot-separated label of `s` starts with `q`.
pub open spec fn label_prefix(s: Seq<char>, q: Seq<char>) -> bool {
    &&& !contains(q, seq!['.'])
    &&& exists|i: int| label_start(s, i) && occurs_at(s, q, i)
}

/// How `query` (already normalised) matches `domain`, strongest kind first.
pub open spec fn classify_spec(query: Seq<char>, domain: Seq<char>) -> Option<MatchKind> {
    let bare = bare_domain(domain);
    if bare == query || domain == query {
        Some(MatchKind::ExactDomain)
    } else if starts_with(bare, query) || starts_with(domain, query) {
        Some(MatchKind::DomainPrefix)
    } else if label_prefix(bare, query) {
        Some(MatchKind::WordPrefix)
    } else if contains(bare, query) {
        Some(MatchKind::Contains)
    } else {
        None
    }
}

/// Whether some dot-separated label of `s` starts with `q`.
fn has_label_prefix(s: &[char], q: &[char]) -> (r: bool)
    ensures
        r == label_prefix(s@, q@),
{
    let dot: [char; 1] = ['.'];
    assert(dot@ =~= seq!['.']);
    if has_substring(q, dot.as_slice()) {
        return false;
    }
    let mut i: usize = 0;
    while i < s.len()
        invariant
            i <= s@.len(),
            s@.len() == s.len(),
            !contains(q@, seq!['.']),
            forall|j: int| 0 <= j < i ==> !(label_start(s@, j) && occurs_at(s@, q@, j)),
        decreases s@.len() - i,
    {
        if (i == 0 || s[i - 1] == '.') && matches_at(s, q, i) {
            assert(label_start(s@, i as int) && occurs_at(s@, q@, i as int));
            return true;
        }
        i += 1;
    }
    if (i == 0 || s[i - 1] == '.') && matches_at(s, q, i) {
        assert(label_start(s@, i as int) && occurs_at(s@, q@, i as int));
        return true;
    }
    proof {
        assert forall|j: int| label_start(s@, j) implies !occurs_at(s@, q@, j) by {
            if j > s@.len() {
            }
        }
    }
    false
}

/// Classify how `query` (already normalized) matches `domain`.
/// Returns None when it does not match at all.
pub fn classify(query: &str, domain: &str) -> (r: Option<MatchKind>)
    ensures
        r == classify_spec(query@, domain@),
{
    let q = chars_of(query);
    let d = chars_of(domain);
    let www = chars_of("www.");
    let bare: Vec<char> = if has_prefix(d.as_slice(), www.as_slice()) {
        crate::text::copy_range(d.as_slice(), www.len(), d.len())
    } else {
        d.clone()
    };
    assert(bare@ == bare_domain(d@));
    if same_chars(bare.as_slice(), q.as_slice()) || same_chars(d.as_slice(), q.as_slice()) {
        return Some(MatchKind::ExactDomain);
    }
    if has_prefix(bare.as_slice(), q.as_slice()) || has_prefix(d.as_slice(), q.as_slice()) {
        return Some(MatchKind::DomainPrefix);
    }
    if has_label_prefix(bare.as_slice(), q.as_slice()) {
        return Some(MatchKind::WordPrefix);
    }
    if has_substring(bare.as_slice(), q.as_slice()) {
        return Some(MatchKind::Contains);
    }
    None
}

/// The candidate rows (in order) that a suggestion query keeps, each with
/// how its domain matched: the rows among the first `n` whose domain the
/// query matches.
pub open spec fn matched_domains(q: Seq<char>, domains: Seq<Seq<char>>, n: int) -> Seq<(usize, MatchKind)>
    decreases n,
{
    if n <= 0 {
        seq![]
    } else {
        let prev = matched_domains(q, domains, n - 1);
        match classify_spec(q, domains[n - 1]) {
            Some(k) => prev.push(((n - 1) as usize, k)),
            None => prev,
        }
    }
}

/// Candidate rows of a URL suggestion, fetched in order from the index:
/// rows whose domain `query` does not match are dropped; the rest come back
/// as (row, match kind).
pub fn matching_domains(query: &str, domains: &Vec<String>) -> (r: Vec<(usize, MatchKind)>)
    ensures
        r@ == matched_domains(query@, domains@.map_values(|d: String| d@), domains@.len() as int),
{
    let ghost dv = domains@.map_values(|d: String| d@);
    let mut out: Vec<(usize, MatchKind)> = Vec::new();
    let mut i: usize = 0;
    while i < domains.len()
        invariant
            i <= domains@.len(),
            dv == domains@.map_values(|d: String| d@),
            out@ == matched_domains(query@, dv, i as int),
        decreases domains@.len() - i,
    {
        assert(dv[i as int] == domains@[i as int]@);
        match classify(query, domains[i].as_str()) {
            Some(kind) => {
                out.push((i, kind));
            },
            None => {},
        }
        i += 1;
    }
    out
}

/// The label-prefix tier matches within one label: a `WordPrefix` answer
/// means the query sits at the start of a dot-separated label of the domain
/// (without `www.`) and no character of it is a dot, so it never runs into
/// the next label. A query that holds a dot is never a label-prefix match.
pub proof fn lemma_word_prefix_within_one_label(query: Seq<char>, domain: Seq<char>)
    ensures
        classify_spec(query, domain) == Some(MatchKind::WordPrefix) ==> exists|i: int|
            #![trigger label_start(bare_domain(domain), i)]
            {
                &&& label_start(bare_domain(domain), i)
                &&& 0 <= i
                &&& i + query.len() <= bare_domain(domain).len()
                &&& (i == 0 || bare_domain(domain)[i - 1] == '.')
                &&& forall|k: int|
                    0 <= k < query.len() ==> #[trigger] bare_domain(domain)[i + k] == query[k] && query[k]
                        != '.'
            },
        (exists|k: int| 0 <= k < query.len() && query[k] == '.') ==> classify_spec(query, domain)
            != Some(MatchKind::WordPrefix),
{
    let bare = bare_domain(domain);
    if exists|k: int| 0 <= k < query.len() && query[k] == '.' {
        let k = choose|k: int| 0 <= k < query.len() && query[k] == '.';
        assert(query.subrange(k, k + 1) =~= seq!['.']);
        assert(occurs_at(query, seq!['.'], k));
        assert(contains(query, seq!['.']));
    }
    if classify_spec(query, domain) == Some(MatchKind::WordPrefix) {
        assert(label_prefix(bare, query));
        let i = choose|i: int| label_start(bare, i) && occurs_at(bare, query, i);
        assert forall|k: int| 0 <= k < query.len() implies #[trigger] bare[i + k] == query[k] && query[k] != '.' by {
            assert(bare.subrange(i, i + query.len())[k] == query[k]);
            if query[k] == '.' {
                assert(query.subrange(k, k + 1) =~= seq!['.']);
                assert(occurs_at(query, seq!['.'], k));
            }
        }
    }
}

/// Every suggestion candidate taken from the index is a row whose domain
/// the query matches, with the kind it carries, in fetch order; and every
/// matching row among the first `n` is a candidate. (The alias match, which
/// goes before them, is looked up by the alias itself.)
pub proof fn lemma_matched_domains_match(q: Seq<char>, domains: Seq<Seq<char>>, n: int)
    requires
        0 <= n <= usize::MAX,
    ensures
        forall|x: int| 0 <= x < matched_domains(q, domains, n).len() ==> {
            let row = #[trigger] matched_domains(q, domains, n)[x];
            &&& row.0 < n
            &&& classify_spec(q, domains[row.0 as int]) == Some(row.1)
        },
        forall|x: int, y: int|
            0 <= x < y < matched_domains(q, domains, n).len() ==> (#[trigger] matched_domains(q, domains, n)[x]).0
                < (#[trigger] matched_domains(q, domains, n)[y]).0,
        forall|i: int|
            0 <= i < n && (#[trigger] classify_spec(q, domains[i])) is Some ==> exists|x: int|
                0 <= x < matched_domains(q, domains, n).len() && matched_domains(q, domains, n)[x].0 == i,
    decreases n,
{
    if n > 0 {
        lemma_matched_domains_match(q, domains, n - 1);
        let prev = matched_domains(q, domains, n - 1);
        let cur = matched_domains(q, domains, n);
        match classify_spec(q, domains[n - 1]) {
            Some(k) => {
                assert(cur == prev.push(((n - 1) as usize, k)));
                assert forall|x: int| 0 <= x < cur.len() implies {
                    let row = #[trigger] cur[x];
                    &&& row.0 < n
                    &&& classify_spec(q, domains[row.0 as int]) == Some(row.1)
                } by {
                    if x < prev.len() {
                        assert(cur[x] == prev[x]);
                    }
                }
                assert forall|x: int, y: int| 0 <= x < y < cur.len() implies (#[trigger] cur[x]).0 < (#[trigger] cur[y]).0 by {
                    assert(cur[x] == prev[x]);
                    if y < prev.len() {
                        assert(cur[y] == prev[y]);
                    }
                }
                assert forall|i: int| 0 <= i < n && (#[trigger] classify_spec(q, domains[i])) is Some implies exists|x: int|
                    0 <= x < cur.len() && cur[x].0 == i by {
                    if i == n - 1 {
                        assert(cur[prev.len() as int].0 == i);
                    } else {
                        let x = choose|x: int| 0 <= x < prev.len() && prev[x].0 == i;
                        assert(cur[x] == prev[x]);
                    }
                }
            },
            None => {
                assert(cur == prev);
            },
        }
    }
}

/// A domain is suggested for typed text exactly when the text occurs in the
/// domain without its `www.`, or starts the full domain: the exact, prefix
/// and label-prefix tiers only rank such matches.
pub proof fn lemma_suggested_iff_occurs(query: Seq<char>, domain: Seq<char>)
    ensures
        (classify_spec(query, domain) is Some) <==> (contains(bare_domain(domain), query)
            || starts_with(domain, query)),
{
    let bare = bare_domain(domain);
    if bare == query {
        assert(bare.subrange(0, query.len() as int) =~= query);
        assert(occurs_at(bare, query, 0));
    } else if domain == query {
        assert(domain.subrange(0, query.len() as int) =~= query);
    } else if starts_with(bare, query) {
        assert(occurs_at(bare, query, 0));
    } else if label_prefix(bare, query) {
        let i = choose|i: int| label_start(bare, i) && occurs_at(bare, query, i);
        assert(occurs_at(bare, query, i));
    }
}

} // verus!
