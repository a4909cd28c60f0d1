//! Match classification for local file and app search.
//!
//! Matching is layered so exact and prefix hits come before word-prefix,
//! substring and fuzzy (in-order subsequence) hits.

use vstd::prelude::*;
use crate::text::{
    alphanumeric, chars_of, contains, has_prefix, has_substring, is_alphanumeric, is_lowercase,
    is_uppercase, lower_case, matches_at, occurs_at, same_chars, starts_with, upper_case,
};

verus! {

#[derive(Debug, Clone, Copy, PartialEq, Eq, Structural)]
pub enum MatchKind {
    Exact,
    Prefix,
    /// Prefix of a later word: a word starts after any character that is not
    /// alphanumeric ("proj" matches "my project.docx").
    WordPrefix,
    Contains,
    /// Every query character appears in order in the name, with `gaps`
    /// total non-matching characters between consecutive matches.
    Fuzzy { gaps: u32 },
}

/// Position `i` of `s` starts a word: the start of the name, or an
/// alphanumeric character right after one that is not, or an upper-case
/// character right after a lower-case one (a camelCase or PascalCase step,
/// as in "PhotoShop").
pub open spec fn word_start(s: Seq<char>, i: int) -> bool {
    ||| i == 0
    ||| (1 <= i < s.len() && alphanumeric(s[i]) && (!alphanumeric(s[i - 1]) || (lower_case(s[i - 1])
        && upper_case(s[i]))))
}

/// The characters whose case marks the word starts of a lower-cased name:
/// the name as stored, when it has as many characters as its lower-cased
/// form, so that positions agree; else the lower-cased name itself.
pub open spec fn case_source(name_lower: Seq<char>, name: Seq<char>) -> Seq<char> {
    if name.len() == name_lower.len() {
        name
    } else {
        name_lower
    }
}

/// Some word of `s` starts with `q`, the word starts read off `marks`.
pub open spec fn word_prefix(s: Seq<char>, marks: Seq<char>, q: Seq<char>) -> bool {
    exists|i: int| 0 <= i <= s.len() && word_start(marks, i) && starts_with(s.skip(i), q)
}

/// First position at or after `from` where `n` holds `c`.
pub open spec fn find_char_from(n: Seq<char>, c: char, from: int) -> Option<int>
    decreases n.len() - from,
{
    if from < 0 || from >= n.len() {
        None
    } else if n[from] == c {
        Some(from)
    } else {
        find_char_from(n, c, from + 1)
    }
}

/// Greedy in-order match of `q` in `n` from position `from`: each query
/// character is matched at its first occurrence after the previous match.
/// The matched positions, or `None` when the query cannot be matched.
pub open spec fn greedy_match(q: Seq<char>, n: Seq<char>, from: int) -> Option<Seq<int>>
    decreases q.len(),
{
    if q.len() == 0 {
        Some(seq![])
    } else {
        match find_char_from(n, q[0], from) {
            None => None,
            Some(p) => match greedy_match(q.drop_first(), n, p + 1) {
                Some(rest) => Some(seq![p] + rest),
                None => None,
            },
        }
    }
}

/// Characters skipped between the first and the last matched position.
pub open spec fn span_gaps(ps: Seq<int>) -> int {
    if ps.len() == 0 {
        0
    } else {
        ps.last() - ps[0] + 1 - ps.len()
    }
}

/// What `subsequence_gaps` returns.
pub open spec fn subsequence_gaps_spec(q: Seq<char>, n: Seq<char>) -> Option<int> {
    match greedy_match(q, n, 0) {
        Some(ps) => Some(span_gaps(ps)),
        None => None,
    }
}

/// How (already-lowercased) `query` matches the lower-cased name `name`,
/// whose stored form `stored` marks the word starts.
pub open spec fn classify_spec(query: Seq<char>, name: Seq<char>, stored: Seq<char>) -> Option<MatchKind> {
    if query.len() == 0 {
        None
    } else if name == query {
        Some(MatchKind::Exact)
    } else if starts_with(name, query) {
        Some(MatchKind::Prefix)
    } else if word_prefix(name, case_source(name, stored), query) {
        Some(MatchKind::WordPrefix)
    } else if contains(name, query) {
        Some(MatchKind::Contains)
    } else {
        match subsequence_gaps_spec(query, name) {
            Some(g) => Some(MatchKind::Fuzzy { gaps: g as u32 }),
            None => None,
        }
    }
}

/// Positions where words of `name` start: position 0, every alphanumeric
/// character that follows one that is not, and every upper-case character
/// that follows a lower-case one. In increasing order.
pub fn word_starts(name: &[char]) -> (r: Vec<usize>)
    ensures
        r@.len() > 0,
        r@[0] == 0,
        forall|i: int, j: int| 0 <= i < j < r@.len() ==> r@[i] < r@[j],
        forall|i: int| 0 <= i < r@.len() ==> word_start(name@, r@[i] as int),
        forall|j: int|
            0 <= j < name@.len() && word_start(name@, j) ==> r@.contains(j as usize),
{
    let n: usize = name.len();
    let mut starts: Vec<usize> = Vec::new();
    starts.push(0);
    assert(starts@[0] == 0usize);
    assert(starts@.contains(0usize));
    let mut i: usize = 1;
    while i < n
        invariant
            1 <= i,
            n == name@.len(),
            starts@.len() > 0,
            starts@[0] == 0,
            forall|a: int, b: int| 0 <= a < b < starts@.len() ==> starts@[a] < starts@[b],
            forall|a: int| 0 <= a < starts@.len() ==> starts@[a] < i,
            forall|a: int| 0 <= a < starts@.len() ==> word_start(name@, starts@[a] as int),
            forall|j: int| 0 <= j < i && j < n && word_start(name@, j) ==> starts@.contains(j as usize),
        decreases n - i,
    {
        let prev = name[i - 1];
        let cur = name[i];
        let prev_alnum = is_alphanumeric(prev);
        let cur_alnum = is_alphanumeric(cur);
        let prev_lower = is_lowercase(prev);
        let cur_upper = is_uppercase(cur);
        if cur_alnum && (!prev_alnum || (prev_lower && cur_upper)) {
            let ghost old_starts = starts@;
            starts.push(i);
            assert forall|j: int| 0 <= j < i + 1 && j < n && word_start(name@, j) implies starts@.contains(j as usize) by {
                if j < i {
                    assert(old_starts.contains(j as usize));
                    let k = choose|k: int| 0 <= k < old_starts.len() && old_starts[k] == j as usize;
                    assert(starts@[k] == j as usize);
                } else {
                    assert(starts@[old_starts.len() as int] == i);
                }
            }
        } else {
            assert forall|j: int| 0 <= j < i + 1 && j < n && word_start(name@, j) implies starts@.contains(j as usize) by {
                if j == i {
                    assert(!word_start(name@, j));
                }
            }
        }
        i += 1;
    }
    proof {
        assert forall|j: int| 0 <= j < n && word_start(name@, j) implies starts@.contains(j as usize) by {
            if j == 0 {
                assert(starts@[0] == 0);
            }
        }
    }
    starts
}

/// Greedy in-order subsequence match: every character of `query` must
/// appear in `name` in the same order (not necessarily contiguous). Returns
/// the total number of skipped characters between matches, or `None` if the
/// full query cannot be matched.
pub fn subsequence_gaps(query: &[char], name: &[char]) -> (r: Option<u32>)
    requires
        name@.len() <= u32::MAX,
    ensures
        match r {
            Some(g) => subsequence_gaps_spec(query@, name@) == Some(g as int),
            None => subsequence_gaps_spec(query@, name@) is None,
        },
{
    let ghost q = query@;
    let ghost n = name@;
    let ghost mut ps: Seq<int> = seq![];
    let mut k: usize = 0;
    let mut pos: usize = 0;
    let mut gaps: u32 = 0;
    let mut last: usize = 0;
    assert(q.skip(0) =~= q);
    while k < query.len()
        invariant
            k <= q.len(),
            q == query@,
            n == name@,
            n.len() <= u32::MAX,
            pos <= n.len(),
            ps.len() == k,
            k > 0 ==> ps.last() == last as int && last < pos,
            forall|a: int| 0 <= a < ps.len() ==> 0 <= #[trigger] ps[a] < pos,
            k > 0 ==> 0 <= ps[0] <= last,
            gaps as int == span_gaps(ps),
            greedy_match(q, n, 0) == match greedy_match(q.skip(k as int), n, pos as int) {
                Some(r) => Some(ps + r),
                None => None::<Seq<int>>,
            },
        decreases q.len() - k,
    {
        let c = query[k];
        let mut j: usize = pos;
        while j < name.len() && name[j] != c
            invariant
                pos <= j <= n.len(),
                n == name@,
                find_char_from(n, c, pos as int) == find_char_from(n, c, j as int),
            decreases n.len() - j,
        {
            j += 1;
        }
        assert(q.skip(k as int)[0] == c);
        assert(q.skip(k as int).drop_first() =~= q.skip(k + 1));
        if j == name.len() {
            assert(find_char_from(n, c, j as int) is None);
            return None;
        }
        assert(find_char_from(n, c, pos as int) == Some(j as int));
        let ghost old_ps = ps;
        proof {
            ps = ps.push(j as int);
            assert(old_ps + seq![j as int] =~= ps);
            assert forall|r: Seq<int>| #![auto] old_ps + (seq![j as int] + r) =~= ps + r by {}
        }
        if k > 0 {
            gaps = gaps + (j - last - 1) as u32;
        }
        last = j;
        pos = j + 1;
        k += 1;
    }
    assert(q.skip(k as int) =~= seq![]);
    assert(ps + seq![] =~= ps);
    Some(gaps)
}

/// Whether some word of `name` starts with `q`, the word starts read off
/// `marks` (as long as `name`).
fn has_word_prefix(name: &[char], marks: &[char], q: &[char]) -> (r: bool)
    requires
        marks@.len() == name@.len(),
    ensures
        r == word_prefix(name@, marks@, q@),
{
    let starts = word_starts(marks);
    let len: usize = name.len();
    assert(name@.len() == len);
    let mut i: usize = 0;
    while i < starts.len()
        invariant
            i <= starts@.len(),
            name@.len() == len,
            marks@.len() == len,
            starts@.len() > 0,
            starts@[0] == 0,
            forall|a: int| 0 <= a < starts@.len() ==> word_start(marks@, starts@[a] as int),
            forall|j: int|
                0 <= j < name@.len() && word_start(marks@, j) ==> starts@.contains(j as usize),
            forall|a: int|
                0 <= a < i ==> !(#[trigger] starts_with(name@.skip(starts@[a] as int), q@)),
        decreases starts@.len() - i,
    {
        let st = starts[i];
        proof {
            if st > 0 {
                assert(word_start(marks@, st as int));
            }
        }
        let hit = matches_at(name, q, st);
        proof {
            crate::text::lemma_starts_with_skip(name@, q@, st as int);
        }
        if hit {
            assert(word_start(marks@, st as int) && starts_with(name@.skip(st as int), q@));
            return true;
        }
        i += 1;
    }
    proof {
        assert forall|j: int| 0 <= j <= name@.len() && word_start(marks@, j) implies !starts_with(
            name@.skip(j),
            q@,
        ) by {
            if j == 0 {
                assert(!starts_with(name@.skip(starts@[0] as int), q@));
            } else {
                assert(starts@.contains(j as usize));
                let a = choose|a: int| 0 <= a < starts@.len() && starts@[a] == j as usize;
                assert(starts@[a] as int == j);
                assert(!starts_with(name@.skip(starts@[a] as int), q@));
            }
        }
    }
    false
}

/// Classify how (already-lowercased) `query` matches the (already-lowercased)
/// name `name_lower`, whose stored form `name` marks where words start
/// (camelCase steps included). Returns `None` when there is no match at all.
pub fn classify(query: &str, name_lower: &str, name: &str) -> (r: Option<MatchKind>)
    requires
        name_lower@.len() <= u32::MAX,
    ensures
        r == classify_spec(query@, name_lower@, name@),
{
    let q = chars_of(query);
    let n = chars_of(name_lower);
    if q.len() == 0 {
        return None;
    }
    if same_chars(n.as_slice(), q.as_slice()) {
        return Some(MatchKind::Exact);
    }
    if has_prefix(n.as_slice(), q.as_slice()) {
        return Some(MatchKind::Prefix);
    }
    let stored = chars_of(name);
    let marks = if stored.len() == n.len() {
        stored
    } else {
        n.clone()
    };
    if has_word_prefix(n.as_slice(), marks.as_slice(), q.as_slice()) {
        return Some(MatchKind::WordPrefix);
    }
    if has_substring(n.as_slice(), q.as_slice()) {
        return Some(MatchKind::Contains);
    }
    match subsequence_gaps(q.as_slice(), n.as_slice()) {
        Some(gaps) => Some(MatchKind::Fuzzy { gaps }),
        None => None,
    }
}

/// `ps` places the characters of `q`, in order, at strictly increasing
/// positions of `n` that are at least `from`.
pub open spec fn embedding(q: Seq<char>, n: Seq<char>, from: int, ps: Seq<int>) -> bool {
    &&& ps.len() == q.len()
    &&& forall|a: int| 0 <= a < ps.len() ==> from <= #[trigger] ps[a] < n.len() && n[ps[a]] == q[a]
    &&& forall|a: int, b: int| 0 <= a < b < ps.len() ==> ps[a] < ps[b]
}

/// Every character of `q` appears in `n`, in the same order (not
/// necessarily contiguous).
pub open spec fn is_subsequence(q: Seq<char>, n: Seq<char>) -> bool {
    exists|ps: Seq<int>| embedding(q, n, 0, ps)
}

proof fn lemma_find_char_from(n: Seq<char>, c: char, from: int, j: int)
    requires
        0 <= from,
    ensures
        find_char_from(n, c, from) matches Some(p) ==> from <= p < n.len() && n[p] == c,
        from <= j < n.len() && n[j] == c ==> (find_char_from(n, c, from) matches Some(p) && p <= j),
    decreases n.len() - from,
{
    if from < n.len() && n[from] != c {
        lemma_find_char_from(n, c, from + 1, j);
    }
}

proof fn lemma_greedy_sound(q: Seq<char>, n: Seq<char>, from: int)
    requires
        0 <= from,
    ensures
        greedy_match(q, n, from) matches Some(ps) ==> embedding(q, n, from, ps),
    decreases q.len(),
{
    if q.len() > 0 {
        lemma_find_char_from(n, q[0], from, from);
        if let Some(p) = find_char_from(n, q[0], from) {
            lemma_greedy_sound(q.drop_first(), n, p + 1);
            if let Some(rest) = greedy_match(q.drop_first(), n, p + 1) {
                let ps = seq![p] + rest;
                assert forall|a: int| 0 <= a < ps.len() implies from <= #[trigger] ps[a] < n.len()
                    && n[ps[a]] == q[a] by {
                    if a > 0 {
                        assert(ps[a] == rest[a - 1]);
                    }
                }
                assert forall|a: int, b: int| 0 <= a < b < ps.len() implies ps[a] < ps[b] by {
                    assert(ps[b] == rest[b - 1]);
                    if a > 0 {
                        assert(ps[a] == rest[a - 1]);
                    }
                }
            }
        }
    }
}

proof fn lemma_greedy_complete(q: Seq<char>, n: Seq<char>, from: int, ps: Seq<int>)
    requires
        0 <= from,
        embedding(q, n, from, ps),
    ensures
        greedy_match(q, n, from) is Some,
    decreases q.len(),
{
    if q.len() > 0 {
        lemma_find_char_from(n, q[0], from, ps[0]);
        let p = find_char_from(n, q[0], from).unwrap();
        let tail = ps.drop_first();
        assert forall|a: int| 0 <= a < tail.len() implies p + 1 <= #[trigger] tail[a] < n.len()
            && n[tail[a]] == q.drop_first()[a] by {
            assert(tail[a] == ps[a + 1]);
            assert(ps[0] < ps[a + 1]);
        }
        assert forall|a: int, b: int| 0 <= a < b < tail.len() implies tail[a] < tail[b] by {
            assert(tail[a] == ps[a + 1] && tail[b] == ps[b + 1]);
        }
        lemma_greedy_complete(q.drop_first(), n, p + 1, tail);
    }
}

/// A fuzzy match exists exactly when the query is a subsequence of the name:
/// the greedy scan behind `subsequence_gaps` finds every in-order match there is.
pub proof fn lemma_fuzzy_iff_subsequence(q: Seq<char>, n: Seq<char>)
    ensures
        (subsequence_gaps_spec(q, n) is Some) <==> is_subsequence(q, n),
{
    lemma_greedy_sound(q, n, 0);
    if let Some(ps) = greedy_match(q, n, 0) {
        assert(embedding(q, n, 0, ps));
    }
    if is_subsequence(q, n) {
        let ps = choose|ps: Seq<int>| embedding(q, n, 0, ps);
        lemma_greedy_complete(q, n, 0, ps);
    }
}

/// `ps` with every position moved `d` further.
pub open spec fn shifted(ps: Seq<int>, d: int) -> Seq<int> {
    ps.map_values(|x: int| x + d)
}

proof fn lemma_find_shift(p: Seq<char>, n: Seq<char>, c: char, from: int)
    requires
        0 <= from,
    ensures
        find_char_from(p + n, c, from + p.len()) == match find_char_from(n, c, from) {
            Some(x) => Some(x + p.len()),
            None => None::<int>,
        },
    decreases n.len() - from,
{
    if from < n.len() {
        assert((p + n)[from + p.len()] == n[from]);
        if n[from] != c {
            lemma_find_shift(p, n, c, from + 1);
        }
    }
}

proof fn lemma_find_skips_prefix(p: Seq<char>, n: Seq<char>, c: char, from: int)
    requires
        0 <= from <= p.len(),
        forall|i: int| 0 <= i < p.len() ==> p[i] != c,
    ensures
        find_char_from(p + n, c, from) == find_char_from(p + n, c, p.len() as int),
    decreases p.len() - from,
{
    if from < p.len() {
        assert((p + n)[from] == p[from]);
        lemma_find_skips_prefix(p, n, c, from + 1);
    }
}

proof fn lemma_greedy_shift(q: Seq<char>, p: Seq<char>, n: Seq<char>, from: int)
    requires
        0 <= from,
    ensures
        greedy_match(q, p + n, from + p.len()) == match greedy_match(q, n, from) {
            Some(ps) => Some(shifted(ps, p.len() as int)),
            None => None::<Seq<int>>,
        },
    decreases q.len(),
{
    if q.len() == 0 {
        assert(shifted(seq![], p.len() as int) =~= seq![]);
    } else {
        lemma_find_shift(p, n, q[0], from);
        lemma_find_char_from(n, q[0], from, from);
        match find_char_from(n, q[0], from) {
            None => {},
            Some(x) => {
                lemma_greedy_shift(q.drop_first(), p, n, x + 1);
                assert(x + p.len() + 1 == (x + 1) + p.len());
                match greedy_match(q.drop_first(), n, x + 1) {
                    None => {},
                    Some(rest) => {
                        assert(seq![x + p.len()] + shifted(rest, p.len() as int) =~= shifted(
                            seq![x] + rest,
                            p.len() as int,
                        ));
                    },
                }
            },
        }
    }
}

/// Only the characters skipped between consecutive matched characters
/// count as gaps: putting in front of a name any text that does not hold the
/// query's first character changes neither whether the name matches fuzzily
/// nor its gap count.
pub proof fn lemma_gaps_ignore_unmatched_prefix(q: Seq<char>, p: Seq<char>, n: Seq<char>)
    requires
        q.len() > 0,
        forall|i: int| 0 <= i < p.len() ==> p[i] != q[0],
    ensures
        subsequence_gaps_spec(q, p + n) == subsequence_gaps_spec(q, n),
{
    lemma_find_skips_prefix(p, n, q[0], 0);
    lemma_find_shift(p, n, q[0], 0);
    assert(greedy_match(q, p + n, 0) == greedy_match(q, p + n, 0 + p.len() as int));
    lemma_greedy_shift(q, p, n, 0);
    match greedy_match(q, n, 0) {
        None => {},
        Some(ps) => {
            let sp = shifted(ps, p.len() as int);
            if ps.len() > 0 {
                assert(sp.last() == ps.last() + p.len());
                assert(sp[0] == ps[0] + p.len());
            }
        },
    }
}

/// An occurrence of `q` at `i` is an in-order match.
proof fn lemma_occurrence_embeds(q: Seq<char>, n: Seq<char>, i: int)
    requires
        occurs_at(n, q, i),
    ensures
        is_subsequence(q, n),
{
    let ps = Seq::new(q.len(), |a: int| i + a);
    assert forall|a: int| 0 <= a < ps.len() implies 0 <= #[trigger] ps[a] < n.len() && n[ps[a]] == q[a] by {
        assert(n.subrange(i, i + q.len())[a] == q[a]);
    }
    assert(embedding(q, n, 0, ps));
}

/// A name matches a non-empty query in some way exactly when the query's
/// characters appear in the name in order: the exact, prefix, word-prefix
/// and substring tiers only sort matches, and the fuzzy tier catches every
/// other in-order match.
pub proof fn lemma_match_iff_subsequence(q: Seq<char>, n: Seq<char>, stored: Seq<char>)
    requires
        q.len() > 0,
    ensures
        (classify_spec(q, n, stored) is Some) <==> is_subsequence(q, n),
{
    lemma_fuzzy_iff_subsequence(q, n);
    if n == q {
        assert(n.subrange(0, q.len() as int) =~= q);
        lemma_occurrence_embeds(q, n, 0);
    } else if starts_with(n, q) {
        lemma_occurrence_embeds(q, n, 0);
    } else if word_prefix(n, case_source(n, stored), q) {
        let i = choose|i: int| 0 <= i <= n.len() && word_start(case_source(n, stored), i) && starts_with(n.skip(i), q);
        crate::text::lemma_starts_with_skip(n, q, i);
        lemma_occurrence_embeds(q, n, i);
    } else if contains(n, q) {
        let i = choose|i: int| occurs_at(n, q, i);
        lemma_occurrence_embeds(q, n, i);
    }
}

} // verus!
