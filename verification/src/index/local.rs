//! Local file & application index: the records the scanners produce and the
//! SQL `LIKE` patterns the index queries with. The SQLite store itself is
//! kept by the application shell.

use vstd::prelude::*;
use crate::index::local_ranking::{classify, classify_spec, MatchKind};
use crate::text::{chars_of, lowercase, starts_with, string_of, to_lowercase, trimmed};

verus! {

/// Rows pulled from SQLite before in-memory ranking.
pub const SQL_CANDIDATE_LIMIT: usize = 200;
/// Cap on the bounded fallback full-table fuzzy scan.
pub const FUZZY_SCAN_LIMIT: usize = 4000;
/// If the fast substring query returns fewer rows than this, fall back to
/// the (bounded) fuzzy scan so typo-tolerant queries still find something.
pub const FUZZY_FALLBACK_THRESHOLD: usize = 6;

/// Metadata the indexer has just read from disk for one file.
pub struct NewFile {
    pub name: String,
    pub full_path: String,
    pub extension: Option<String>,
    pub size: i64,
    pub created_date: i64,
    pub modified_date: i64,
}

/// Metadata the app-discovery scanner has just read for one shortcut.
pub struct NewApp {
    pub name: String,
    pub path: String,
    pub icon: Option<String>,
}

impl NewFile {
    /// The lower-cased name the index matches file searches against.
    pub fn name_lower(&self) -> (r: String)
        ensures
            r@ == lowercase(self.name@),
    {
        to_lowercase(self.name.as_str())
    }
}

impl NewApp {
    /// The lower-cased name the index matches app searches against.
    pub fn name_lower(&self) -> (r: String)
        ensures
            r@ == lowercase(self.name@),
    {
        to_lowercase(self.name.as_str())
    }
}

/// The escaped text for one character of a `LIKE ... ESCAPE '\'` pattern.
pub open spec fn escape_char(c: char) -> Seq<char> {
    if c == '\\' || c == '%' || c == '_' {
        seq!['\\', c]
    } else {
        seq![c]
    }
}

/// `s` with `%`, `_` and `\` escaped by a `\`.
pub open spec fn escaped(s: Seq<char>) -> Seq<char>
    decreases s.len(),
{
    if s.len() == 0 {
        seq![]
    } else {
        escaped(s.drop_last()) + escape_char(s.last())
    }
}

/// Escape `%`, `_`, and `\` for a `LIKE ... ESCAPE '\'` pattern.
pub fn escape_like(s: &str) -> (r: String)
    ensures
        r@ == escaped(s@),
{
    let v = chars_of(s);
    let mut out: Vec<char> = Vec::new();
    let mut i: usize = 0;
    while i < v.len()
        invariant
            i <= v@.len(),
            v@ == s@,
            out@ == escaped(v@.take(i as int)),
        decreases v@.len() - i,
    {
        let c = v[i];
        if c == '\\' || c == '%' || c == '_' {
            out.push('\\');
        }
        out.push(c);
        assert(v@.take(i + 1).drop_last() =~= v@.take(i as int));
        assert(out@ =~= escaped(v@.take(i + 1)));
        i += 1;
    }
    assert(v@.take(v@.len() as int) =~= v@);
    string_of(out.as_slice())
}

/// The text a `LIKE ... ESCAPE '\'` pattern `p` stands for when it holds no
/// wildcard: `\` followed by a character stands for that character, any
/// other character for itself; `None` when `p` holds an unescaped `%` or
/// `_`, or ends in a lone `\`.
pub open spec fn like_literal(p: Seq<char>) -> Option<Seq<char>>
    decreases p.len(),
{
    if p.len() == 0 {
        Some(seq![])
    } else if p[0] == '\\' {
        if p.len() >= 2 {
            match like_literal(p.skip(2)) {
                Some(rest) => Some(seq![p[1]] + rest),
                None => None,
            }
        } else {
            None
        }
    } else if p[0] == '%' || p[0] == '_' {
        None
    } else {
        match like_literal(p.skip(1)) {
            Some(rest) => Some(seq![p[0]] + rest),
            None => None,
        }
    }
}

proof fn lemma_like_literal_concat(a: Seq<char>, b: Seq<char>)
    requires
        like_literal(a) is Some,
        like_literal(b) is Some,
    ensures
        like_literal(a + b) == Some(like_literal(a).unwrap() + like_literal(b).unwrap()),
    decreases a.len(),
{
    if a.len() == 0 {
        assert(a + b =~= b);
        assert(like_literal(a).unwrap() + like_literal(b).unwrap() =~= like_literal(b).unwrap());
    } else if a[0] == '\\' {
        lemma_like_literal_concat(a.skip(2), b);
        assert((a + b).skip(2) =~= a.skip(2) + b);
        assert(seq![a[1]] + like_literal(a.skip(2)).unwrap() + like_literal(b).unwrap() =~= seq![a[1]] + (
        like_literal(a.skip(2)).unwrap() + like_literal(b).unwrap()));
    } else {
        lemma_like_literal_concat(a.skip(1), b);
        assert((a + b).skip(1) =~= a.skip(1) + b);
        assert(seq![a[0]] + like_literal(a.skip(1)).unwrap() + like_literal(b).unwrap() =~= seq![a[0]] + (
        like_literal(a.skip(1)).unwrap() + like_literal(b).unwrap()));
    }
}

/// The escaped text is a wildcard-free `LIKE` pattern that stands for
/// exactly the text it was made from: a search for `%` or `_` in a name
/// looks for those characters literally.
pub proof fn lemma_escaped_is_literal(s: Seq<char>)
    ensures
        like_literal(escaped(s)) == Some(s),
    decreases s.len(),
{
    if s.len() > 0 {
        let c = s.last();
        lemma_escaped_is_literal(s.drop_last());
        let e = escape_char(c);
        if c == '\\' || c == '%' || c == '_' {
            assert(e.skip(2) =~= Seq::<char>::empty());
            assert(like_literal(e.skip(2)) == Some(Seq::<char>::empty()));
            assert(seq![e[1]] + Seq::<char>::empty() =~= seq![c]);
        } else {
            assert(e.skip(1) =~= Seq::<char>::empty());
            assert(like_literal(e.skip(1)) == Some(Seq::<char>::empty()));
            assert(seq![e[0]] + Seq::<char>::empty() =~= seq![c]);
        }
        assert(like_literal(e) == Some(seq![c]));
        lemma_like_literal_concat(escaped(s.drop_last()), e);
        assert(s.drop_last() + seq![c] =~= s);
    }
}

/// `path` with the separator `c` at its end: unchanged when it already ends
/// with `\` or `/`, else with `c` appended.
pub open spec fn with_sep_char(path: Seq<char>, c: char) -> Seq<char> {
    if path.len() > 0 && (path.last() == '\\' || path.last() == '/') {
        path
    } else {
        path.push(c)
    }
}

/// `path` with a directory separator at its end: unchanged when it already
/// ends with `\` or `/`, else with `\` appended.
pub open spec fn with_sep(path: Seq<char>) -> Seq<char> {
    with_sep_char(path, '\\')
}

pub fn with_trailing_sep(path: &str) -> (r: String)
    ensures
        r@ == with_sep(path@),
{
    let v = chars_of(path);
    if v.len() > 0 && (v[v.len() - 1] == '\\' || v[v.len() - 1] == '/') {
        String::from_str(path)
    } else {
        let mut w = v;
        w.push('\\');
        string_of(w.as_slice())
    }
}

/// The file path `file` lies in the folder `folder`: it is the folder
/// itself, or it starts with the folder followed by a `\` or a `/`.
pub open spec fn under_folder(file: Seq<char>, folder: Seq<char>) -> bool {
    ||| file == folder
    ||| starts_with(file, with_sep_char(folder, '\\'))
    ||| starts_with(file, with_sep_char(folder, '/'))
}

/// The `LIKE ... ESCAPE '\'` pattern for paths that begin with `path` and
/// then the separator `c` (or with `path` alone when it already ends in a
/// separator): the escaped prefix and a `%`.
fn prefix_pattern(path: &str, c: char) -> (r: String)
    ensures
        r@ == escaped(with_sep_char(path@, c)) + seq!['%'],
{
    let mut w = chars_of(path);
    if !(w.len() > 0 && (w[w.len() - 1] == '\\' || w[w.len() - 1] == '/')) {
        w.push(c);
    }
    let prefix = string_of(w.as_slice());
    let mut e = chars_of(escape_like(prefix.as_str()).as_str());
    e.push('%');
    string_of(e.as_slice())
}

/// The two `LIKE ... ESCAPE '\'` patterns for every path strictly inside
/// the folder `path`: one for paths that continue with `\`, one for paths
/// that continue with `/`. The folder's own `%`, `_` and `\` are escaped,
/// so they match only themselves.
pub fn subtree_patterns(path: &str) -> (r: (String, String))
    ensures
        r.0@ == escaped(with_sep_char(path@, '\\')) + seq!['%'],
        r.1@ == escaped(with_sep_char(path@, '/')) + seq!['%'],
{
    (prefix_pattern(path, '\\'), prefix_pattern(path, '/'))
}

/// The subtree patterns are a wildcard-free prefix followed by `%`: read as
/// `LIKE ... ESCAPE '\'` patterns, the first matches exactly the paths that
/// start with the folder and a `\`, the second those that start with the
/// folder and a `/`. With the folder's own path, these are the paths
/// `under_folder` describes.
pub proof fn lemma_subtree_patterns_literal(path: Seq<char>)
    ensures
        like_literal(escaped(with_sep_char(path, '\\'))) == Some(with_sep_char(path, '\\')),
        like_literal(escaped(with_sep_char(path, '/'))) == Some(with_sep_char(path, '/')),
{
    lemma_escaped_is_literal(with_sep_char(path, '\\'));
    lemma_escaped_is_literal(with_sep_char(path, '/'));
}

/// `LIKE` pattern for names that hold `query` literally.
pub fn name_contains_pattern(query: &str) -> (r: String)
    ensures
        r@ == seq!['%'] + escaped(query@) + seq!['%'],
{
    let mut v: Vec<char> = Vec::new();
    v.push('%');
    let e = chars_of(escape_like(query).as_str());
    let mut i: usize = 0;
    while i < e.len()
        invariant
            i <= e@.len(),
            v@ == seq!['%'] + e@.take(i as int),
        decreases e@.len() - i,
    {
        v.push(e[i]);
        i += 1;
        assert(v@ =~= seq!['%'] + e@.take(i as int));
    }
    v.push('%');
    assert(e@.take(e@.len() as int) =~= e@);
    string_of(v.as_slice())
}

/// The text file and app searches match names with: the query trimmed and
/// lower-cased; `None` when nothing is left, and such a search finds nothing.
pub fn local_query(query: &str) -> (r: Option<String>)
    ensures
        match r {
            Some(q) => q@ == lowercase(trimmed(query@)) && q@.len() > 0,
            None => lowercase(trimmed(query@)).len() == 0,
        },
{
    let t = crate::search::trimmed_string(query);
    let l = to_lowercase(t.as_str());
    if l.as_str().unicode_len() == 0 {
        None
    } else {
        Some(l)
    }
}

/// Whether a file search that kept `matched` rows from the name query
/// goes on to the bounded fuzzy scan: it does when fewer than
/// `FUZZY_FALLBACK_THRESHOLD` rows were kept.
pub fn wants_fuzzy_scan(matched: usize) -> (r: bool)
    ensures
        r == (matched < FUZZY_FALLBACK_THRESHOLD),
{
    matched < FUZZY_FALLBACK_THRESHOLD
}

/// Row `i` is the first row with its id.
pub open spec fn first_with_id(ids: Seq<i64>, i: int) -> bool {
    forall|j: int| 0 <= j < i ==> ids[j] != ids[i]
}

/// The rows (in order) that a file search keeps, each with how its name
/// matched: a row is kept when no earlier row had its id and its
/// lower-cased name (`names`, with the stored names `stored` marking word
/// starts) matches the query.
pub open spec fn kept_rows(q: Seq<char>, ids: Seq<i64>, names: Seq<Seq<char>>, stored: Seq<Seq<char>>, n: int) -> Seq<(usize, MatchKind)>
    decreases n,
{
    if n <= 0 {
        seq![]
    } else {
        let prev = kept_rows(q, ids, names, stored, n - 1);
        if first_with_id(ids, n - 1) && classify_spec(q, names[n - 1], stored[n - 1]) is Some {
            prev.push(((n - 1) as usize, classify_spec(q, names[n - 1], stored[n - 1]).unwrap()))
        } else {
            prev
        }
    }
}

proof fn lemma_kept_rows_bounds(q: Seq<char>, ids: Seq<i64>, names: Seq<Seq<char>>, stored: Seq<Seq<char>>, n: int)
    requires
        n <= usize::MAX,
    ensures
        forall|x: int| 0 <= x < kept_rows(q, ids, names, stored, n).len() ==> (#[trigger] kept_rows(q, ids, names, stored, n)[x]).0 < n,
        forall|x: int, y: int| 0 <= x < y < kept_rows(q, ids, names, stored, n).len() ==>
            (#[trigger] kept_rows(q, ids, names, stored, n)[x]).0 < (#[trigger] kept_rows(q, ids, names, stored, n)[y]).0,
    decreases n,
{
    if n > 0 {
        lemma_kept_rows_bounds(q, ids, names, stored, n - 1);
        let prev = kept_rows(q, ids, names, stored, n - 1);
        let cur = kept_rows(q, ids, names, stored, n);
        if cur.len() > prev.len() {
            assert(cur == prev.push(((n - 1) as usize, classify_spec(q, names[n - 1], stored[n - 1]).unwrap())));
            assert forall|x: int| 0 <= x < cur.len() implies (#[trigger] cur[x]).0 < n by {
                if x < prev.len() {
                    assert(cur[x] == prev[x]);
                }
            }
            assert forall|x: int, y: int| 0 <= x < y < cur.len() implies (#[trigger] cur[x]).0 < (#[trigger] cur[y]).0 by {
                assert(cur[x] == prev[x]);
                if y < prev.len() {
                    assert(cur[y] == prev[y]);
                }
            }
        }
    }
}

/// A file turns up at most once in a search, though both the name query
/// and the fuzzy scan may return it: the kept rows come in fetch order and
/// no two of them share an id.
pub proof fn lemma_kept_rows_distinct_ids(q: Seq<char>, ids: Seq<i64>, names: Seq<Seq<char>>, stored: Seq<Seq<char>>, n: int)
    requires
        n <= ids.len() <= usize::MAX,
    ensures
        forall|x: int, y: int| 0 <= x < y < kept_rows(q, ids, names, stored, n).len() ==> {
            &&& (#[trigger] kept_rows(q, ids, names, stored, n)[x]).0 < (#[trigger] kept_rows(q, ids, names, stored, n)[y]).0
            &&& ids[kept_rows(q, ids, names, stored, n)[x].0 as int] != ids[kept_rows(q, ids, names, stored, n)[y].0 as int]
        },
    decreases n,
{
    lemma_kept_rows_bounds(q, ids, names, stored, n);
    if n > 0 {
        lemma_kept_rows_distinct_ids(q, ids, names, stored, n - 1);
        lemma_kept_rows_bounds(q, ids, names, stored, n - 1);
        let prev = kept_rows(q, ids, names, stored, n - 1);
        let cur = kept_rows(q, ids, names, stored, n);
        if cur.len() > prev.len() {
            assert forall|x: int, y: int| 0 <= x < y < cur.len() implies ids[cur[x].0 as int] != ids[cur[y].0 as int] by {
                assert(cur[x] == prev[x]);
                if y < prev.len() {
                    assert(cur[y] == prev[y]);
                } else {
                    assert(cur == prev.push(((n - 1) as usize, classify_spec(q, names[n - 1], stored[n - 1]).unwrap())));
                    assert(cur[y].0 == n - 1);
                    assert(prev[x].0 < n - 1);
                }
            }
        }
    }
}

/// Every kept row is the first with its id and matches the query with the
/// kind it is kept with; and every row among the first `n` that is the
/// first with its id and matches is kept.
pub proof fn lemma_kept_rows_match(q: Seq<char>, ids: Seq<i64>, names: Seq<Seq<char>>, stored: Seq<Seq<char>>, n: int)
    requires
        0 <= n <= usize::MAX,
    ensures
        forall|x: int| 0 <= x < kept_rows(q, ids, names, stored, n).len() ==> {
            let row = #[trigger] kept_rows(q, ids, names, stored, n)[x];
            &&& row.0 < n
            &&& first_with_id(ids, row.0 as int)
            &&& classify_spec(q, names[row.0 as int], stored[row.0 as int]) == Some(row.1)
        },
        forall|i: int|
            0 <= i < n && first_with_id(ids, i) && (#[trigger] classify_spec(q, names[i], stored[i])) is Some
                ==> exists|x: int| 0 <= x < kept_rows(q, ids, names, stored, n).len() && kept_rows(q, ids, names, stored, n)[x].0 == i,
    decreases n,
{
    if n > 0 {
        lemma_kept_rows_match(q, ids, names, stored, n - 1);
        let prev = kept_rows(q, ids, names, stored, n - 1);
        let cur = kept_rows(q, ids, names, stored, n);
        if first_with_id(ids, n - 1) && classify_spec(q, names[n - 1], stored[n - 1]) is Some {
            assert(cur == prev.push(((n - 1) as usize, classify_spec(q, names[n - 1], stored[n - 1]).unwrap())));
            assert forall|x: int| 0 <= x < cur.len() implies {
                let row = #[trigger] cur[x];
                &&& row.0 < n
                &&& first_with_id(ids, row.0 as int)
                &&& classify_spec(q, names[row.0 as int], stored[row.0 as int]) == Some(row.1)
            } by {
                if x < prev.len() {
                    assert(cur[x] == prev[x]);
                }
            }
            assert forall|i: int|
                0 <= i < n && first_with_id(ids, i) && (#[trigger] classify_spec(q, names[i], stored[i])) is Some
                    implies exists|x: int| 0 <= x < cur.len() && cur[x].0 == i by {
                if i == n - 1 {
                    assert(cur[prev.len() as int].0 == i);
                } else {
                    let x = choose|x: int| 0 <= x < prev.len() && prev[x].0 == i;
                    assert(cur[x] == prev[x]);
                }
            }
        } else {
            assert(cur == prev);
        }
    }
}

/// What a file or app search lists: its candidates are the kept rows (in
/// fetch order) scored by `keys`, and it lists the best `limit` of them.
/// The listing holds `min(limit, candidates)` rows, each a stored row whose
/// name matches the query with the kind it carries, no two with the same
/// id, with scores that never increase; and every row that matches (the
/// first row of its id) is a candidate.
pub proof fn lemma_local_search_listing(
    q: Seq<char>,
    ids: Seq<i64>,
    names: Seq<Seq<char>>,
    stored: Seq<Seq<char>>,
    keys: Seq<u64>,
    order: Seq<usize>,
    limit: int,
)
    requires
        ids.len() <= usize::MAX,
        keys.len() == kept_rows(q, ids, names, stored, ids.len() as int).len(),
        crate::rank::is_permutation(order, keys.len() as int),
        crate::rank::is_ranked(keys, order),
        0 <= limit,
    ensures
        ({
            let kept = kept_rows(q, ids, names, stored, ids.len() as int);
            let t = crate::rank::truncated(order, limit);
            &&& t.len() == if limit < kept.len() {
                limit
            } else {
                kept.len() as int
            }
            &&& forall|x: int|
                0 <= x < t.len() ==> classify_spec(
                    q,
                    names[kept[#[trigger] t[x] as int].0 as int],
                    stored[kept[t[x] as int].0 as int],
                ) == Some(kept[t[x] as int].1)
            &&& forall|x: int, y: int|
                0 <= x < t.len() && 0 <= y < t.len() && x != y ==> ids[kept[#[trigger] t[x] as int].0 as int]
                    != ids[kept[#[trigger] t[y] as int].0 as int]
            &&& forall|x: int, y: int| 0 <= x < y < t.len() ==> keys[#[trigger] t[x] as int] >= keys[#[trigger] t[y] as int]
            &&& forall|i: int|
                0 <= i < ids.len() && first_with_id(ids, i) && (#[trigger] classify_spec(q, names[i], stored[i])) is Some
                    ==> exists|x: int| 0 <= x < kept.len() && kept[x].0 == i
        }),
{
    let n = ids.len() as int;
    let kept = kept_rows(q, ids, names, stored, n);
    let t = crate::rank::truncated(order, limit);
    crate::rank::lemma_top_listing(keys, order, limit);
    lemma_kept_rows_match(q, ids, names, stored, n);
    lemma_kept_rows_distinct_ids(q, ids, names, stored, n);
    assert forall|x: int| 0 <= x < t.len() implies classify_spec(
        q,
        names[kept[#[trigger] t[x] as int].0 as int],
        stored[kept[t[x] as int].0 as int],
    ) == Some(kept[t[x] as int].1) by {
        let row = kept[t[x] as int];
        assert(row == kept[t[x] as int]);
    }
    assert forall|x: int, y: int| 0 <= x < t.len() && 0 <= y < t.len() && x != y implies ids[kept[#[trigger] t[x] as int].0 as int]
        != ids[kept[#[trigger] t[y] as int].0 as int] by {
        let a = t[x] as int;
        let b = t[y] as int;
        assert(a != b);
        if a < b {
            assert(ids[kept[a].0 as int] != ids[kept[b].0 as int]);
        } else {
            assert(ids[kept[b].0 as int] != ids[kept[a].0 as int]);
        }
    }
}

/// Candidate rows of a file search, fetched in order from the index: drop
/// rows whose id was already met and rows whose lower-cased name does not
/// match `query` (the stored names `names` mark where words start); the
/// rest come back as (row, match kind).
pub fn matching_rows(query: &str, ids: &Vec<i64>, names_lower: &Vec<String>, names: &Vec<String>) -> (r: Vec<(usize, MatchKind)>)
    requires
        ids@.len() == names_lower@.len(),
        names@.len() == names_lower@.len(),
        forall|i: int| 0 <= i < names_lower@.len() ==> (#[trigger] names_lower@[i])@.len() <= u32::MAX,
    ensures
        r@ == kept_rows(
            query@,
            ids@,
            names_lower@.map_values(|s: String| s@),
            names@.map_values(|s: String| s@),
            ids@.len() as int,
        ),
{
    let ghost nv = names_lower@.map_values(|s: String| s@);
    let ghost sv = names@.map_values(|s: String| s@);
    let mut out: Vec<(usize, MatchKind)> = Vec::new();
    let mut i: usize = 0;
    while i < ids.len()
        invariant
            i <= ids@.len() == names_lower@.len(),
            names@.len() == names_lower@.len(),
            nv == names_lower@.map_values(|s: String| s@),
            sv == names@.map_values(|s: String| s@),
            forall|k: int| 0 <= k < names_lower@.len() ==> (#[trigger] names_lower@[k])@.len() <= u32::MAX,
            out@ == kept_rows(query@, ids@, nv, sv, i as int),
        decreases ids@.len() - i,
    {
        let id = ids[i];
        let mut j: usize = 0;
        let mut seen = false;
        while j < i
            invariant
                j <= i < ids@.len(),
                id == ids@[i as int],
                !seen ==> forall|k: int| 0 <= k < j ==> ids@[k] != ids@[i as int],
                seen ==> !first_with_id(ids@, i as int),
            decreases i - j,
        {
            if ids[j] == id {
                seen = true;
            }
            j += 1;
        }
        if !seen {
            assert(nv[i as int] == names_lower@[i as int]@);
            assert(sv[i as int] == names@[i as int]@);
            match classify(query, names_lower[i].as_str(), names[i].as_str()) {
                Some(kind) => {
                    out.push((i, kind));
                },
                None => {},
            }
        }
        i += 1;
    }
    out
}

} // verus!
