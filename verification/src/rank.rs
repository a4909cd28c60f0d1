//! Ordering of ranked candidates. Scores are compared through `u64` keys
//! that order the same way the scores do; a candidate with a larger key
//! comes first, and candidates with equal keys keep their input order (a
//! stable sort by decreasing score).

use vstd::prelude::*;

verus! {

/// Candidate `a` is listed before candidate `b`.
pub open spec fn before(keys: Seq<u64>, a: int, b: int) -> bool {
    keys[a] > keys[b] || (keys[a] == keys[b] && a < b)
}

/// `order` lists each of the first `n` candidates exactly once.
pub open spec fn is_permutation(order: Seq<usize>, n: int) -> bool {
    &&& order.len() == n
    &&& order.no_duplicates()
    &&& forall|x: int| 0 <= x < order.len() ==> #[trigger] order[x] < n
}

/// `order` lists candidates by decreasing key, ties in input order.
pub open spec fn is_ranked(keys: Seq<u64>, order: Seq<usize>) -> bool {
    forall|x: int, y: int| 0 <= x < y < order.len() ==> before(keys, #[trigger] order[x] as int, #[trigger] order[y] as int)
}

/// The listing order of candidates with score keys `keys`.
pub fn ranked_order(keys: &Vec<u64>) -> (r: Vec<usize>)
    ensures
        is_permutation(r@, keys@.len() as int),
        is_ranked(keys@, r@),
{
    let n: usize = keys.len();
    let mut order: Vec<usize> = Vec::new();
    let mut i: usize = 0;
    while i < n
        invariant
            i <= n == keys@.len(),
            is_permutation(order@, i as int),
            is_ranked(keys@, order@),
        decreases n - i,
    {
        let k = keys[i];
        let mut p: usize = 0;
        while p < order.len() && keys[order[p]] >= k
            invariant
                p <= order@.len(),
                i < n == keys@.len(),
                is_permutation(order@, i as int),
                forall|x: int| 0 <= x < p ==> keys@[#[trigger] order@[x] as int] >= k,
            decreases order@.len() - p,
        {
            p += 1;
        }
        let ghost old_order = order@;
        proof {
            if p < old_order.len() {
                assert forall|y: int| p <= y < old_order.len() implies keys@[#[trigger] old_order[y] as int] < k by {
                    if y > p {
                        assert(before(keys@, old_order[p as int] as int, old_order[y] as int));
                    }
                }
            }
        }
        order.insert(p, i);
        proof {
            let s = order@;
            assert forall|x: int| 0 <= x < s.len() implies #[trigger] s[x] < i + 1 by {
                if x < p {
                    assert(s[x] == old_order[x]);
                } else if x > p {
                    assert(s[x] == old_order[x - 1]);
                }
            }
            assert forall|x: int, y: int| 0 <= x < s.len() && 0 <= y < s.len() && x != y implies s[x] != s[y] by {
                if x != p && y != p {
                    let ox = if x < p { x } else { x - 1 };
                    let oy = if y < p { y } else { y - 1 };
                    assert(s[x] == old_order[ox] && s[y] == old_order[oy]);
                } else if x == p {
                    let oy = if y < p { y } else { y - 1 };
                    assert(s[y] == old_order[oy]);
                } else {
                    let ox = if x < p { x } else { x - 1 };
                    assert(s[x] == old_order[ox]);
                }
            }
            assert forall|x: int, y: int| 0 <= x < y < s.len() implies before(keys@, #[trigger] s[x] as int, #[trigger] s[y] as int) by {
                if x < p && y < p {
                    assert(s[x] == old_order[x] && s[y] == old_order[y]);
                } else if x < p && y == p {
                    assert(s[x] == old_order[x]);
                } else if x < p {
                    assert(s[x] == old_order[x] && s[y] == old_order[y - 1]);
                } else if x == p {
                    assert(s[y] == old_order[y - 1]);
                } else {
                    assert(s[x] == old_order[x - 1] && s[y] == old_order[y - 1]);
                }
            }
        }
        i += 1;
    }
    order
}

/// The first `limit` items of `s` (all of them when there are fewer).
pub open spec fn truncated<T>(s: Seq<T>, limit: int) -> Seq<T> {
    if s.len() <= limit {
        s
    } else {
        s.take(limit)
    }
}

/// `order` with every candidate dropped whose group equals the group of the
/// last candidate kept before it (`Vec::dedup_by` on the group).
pub open spec fn kept_distinct(order: Seq<usize>, groups: Seq<Seq<char>>) -> Seq<usize>
    decreases order.len(),
{
    if order.len() == 0 {
        seq![]
    } else {
        let prev = kept_distinct(order.drop_last(), groups);
        if prev.len() > 0 && groups[prev.last() as int] == groups[order.last() as int] {
            prev
        } else {
            prev.push(order.last())
        }
    }
}

proof fn lemma_kept_distinct_bounds(order: Seq<usize>, groups: Seq<Seq<char>>, n: int)
    requires
        forall|x: int| 0 <= x < order.len() ==> #[trigger] order[x] < n,
    ensures
        forall|x: int| 0 <= x < kept_distinct(order, groups).len() ==> #[trigger] kept_distinct(order, groups)[x] < n,
        kept_distinct(order, groups).len() <= order.len(),
    decreases order.len(),
{
    if order.len() > 0 {
        lemma_kept_distinct_bounds(order.drop_last(), groups, n);
    }
}

/// The first `limit` candidates by rank, dropping each candidate whose
/// group (domain) equals that of the candidate kept just before it.
pub fn rank_distinct(keys: &Vec<u64>, groups: &Vec<String>, limit: usize) -> (r: Vec<usize>)
    requires
        groups@.len() == keys@.len(),
    ensures
        exists|order: Seq<usize>|
            #![trigger is_ranked(keys@, order)]
            is_permutation(order, keys@.len() as int) && is_ranked(keys@, order) && r@
                == truncated(kept_distinct(order, groups@.map_values(|g: String| g@)), limit as int),
{
    let order = ranked_order(keys);
    let ghost gv = groups@.map_values(|g: String| g@);
    let mut kept: Vec<usize> = Vec::new();
    let mut i: usize = 0;
    while i < order.len()
        invariant
            i <= order@.len() == keys@.len() == groups@.len(),
            is_permutation(order@, keys@.len() as int),
            gv == groups@.map_values(|g: String| g@),
            kept@ == kept_distinct(order@.take(i as int), gv),
        decreases order@.len() - i,
    {
        proof {
            assert(order@.take(i + 1).drop_last() =~= order@.take(i as int));
            lemma_kept_distinct_bounds(order@.take(i as int), gv, keys@.len() as int);
        }
        let cur = order[i];
        let dup = if kept.len() > 0 {
            let last: usize = kept[kept.len() - 1];
            let a = crate::text::chars_of(groups[last].as_str());
            let b = crate::text::chars_of(groups[cur].as_str());
            crate::text::same_chars(a.as_slice(), b.as_slice())
        } else {
            false
        };
        if !dup {
            kept.push(cur);
        }
        i += 1;
    }
    assert(order@.take(order@.len() as int) =~= order@);
    if kept.len() > limit {
        kept.truncate(limit);
    }
    proof {
        assert(is_ranked(keys@, order@));
    }
    kept
}

/// The first `limit` candidates by rank.
pub fn rank_top(keys: &Vec<u64>, limit: usize) -> (r: Vec<usize>)
    ensures
        exists|order: Seq<usize>|
            #![trigger is_ranked(keys@, order)]
            is_permutation(order, keys@.len() as int) && is_ranked(keys@, order) && r@
                == truncated(order, limit as int),
{
    let mut order = ranked_order(keys);
    let ghost full = order@;
    if order.len() > limit {
        order.truncate(limit);
    }
    proof {
        assert(is_ranked(keys@, full));
    }
    order
}

proof fn lemma_ranked_lists_agree(keys: Seq<u64>, o1: Seq<usize>, o2: Seq<usize>)
    requires
        o1.no_duplicates(),
        o2.no_duplicates(),
        forall|e: usize| o1.contains(e) <==> o2.contains(e),
        forall|x: int| 0 <= x < o1.len() ==> #[trigger] o1[x] < keys.len(),
        forall|x: int| 0 <= x < o2.len() ==> #[trigger] o2[x] < keys.len(),
        is_ranked(keys, o1),
        is_ranked(keys, o2),
    ensures
        o1 == o2,
    decreases o1.len(),
{
    if o1.len() == 0 {
        if o2.len() > 0 {
            assert(o2.contains(o2[0]));
        }
        assert(o1 =~= o2);
    } else {
        assert(o1.contains(o1[0]));
        assert(o2.len() > 0);
        let e1 = o1[0];
        let e2 = o2[0];
        if e1 != e2 {
            assert(o2.contains(e1));
            let y = choose|y: int| 0 <= y < o2.len() && o2[y] == e1;
            assert(y > 0);
            assert(before(keys, o2[0] as int, o2[y] as int));
            assert(o1.contains(e2)) by {
                assert(o2.contains(e2));
            }
            let x = choose|x: int| 0 <= x < o1.len() && o1[x] == e2;
            assert(x > 0);
            assert(before(keys, o1[0] as int, o1[x] as int));
            assert(false);
        }
        let t1 = o1.drop_first();
        let t2 = o2.drop_first();
        assert forall|e: usize| t1.contains(e) <==> t2.contains(e) by {
            if t1.contains(e) {
                let x = choose|x: int| 0 <= x < t1.len() && t1[x] == e;
                assert(o1[x + 1] == e);
                assert(e != e1);
                assert(o1.contains(e));
                assert(o2.contains(e));
                let y = choose|y: int| 0 <= y < o2.len() && o2[y] == e;
                assert(y != 0);
                assert(t2[y - 1] == e);
            }
            if t2.contains(e) {
                let y = choose|y: int| 0 <= y < t2.len() && t2[y] == e;
                assert(o2[y + 1] == e);
                assert(e != e2);
                assert(o2.contains(e));
                assert(o1.contains(e));
                let x = choose|x: int| 0 <= x < o1.len() && o1[x] == e;
                assert(x != 0);
                assert(t1[x - 1] == e);
            }
        }
        assert forall|x: int, y: int| 0 <= x < y < t1.len() implies before(keys, #[trigger] t1[x] as int, #[trigger] t1[y] as int) by {
            assert(t1[x] == o1[x + 1] && t1[y] == o1[y + 1]);
        }
        assert forall|x: int, y: int| 0 <= x < y < t2.len() implies before(keys, #[trigger] t2[x] as int, #[trigger] t2[y] as int) by {
            assert(t2[x] == o2[x + 1] && t2[y] == o2[y + 1]);
        }
        assert forall|x: int, y: int| 0 <= x < t1.len() && 0 <= y < t1.len() && x != y implies t1[x] != t1[y] by {
            assert(t1[x] == o1[x + 1] && t1[y] == o1[y + 1]);
        }
        assert forall|x: int, y: int| 0 <= x < t2.len() && 0 <= y < t2.len() && x != y implies t2[x] != t2[y] by {
            assert(t2[x] == o2[x + 1] && t2[y] == o2[y + 1]);
        }
        assert forall|x: int| 0 <= x < t1.len() implies #[trigger] t1[x] < keys.len() by {
            assert(t1[x] == o1[x + 1]);
        }
        assert forall|x: int| 0 <= x < t2.len() implies #[trigger] t2[x] < keys.len() by {
            assert(t2[x] == o2[x + 1]);
        }
        lemma_ranked_lists_agree(keys, t1, t2);
        assert(o1 =~= seq![e1] + t1);
        assert(o2 =~= seq![e2] + t2);
    }
}

/// The ranking is determined by the keys alone: any two listings of the
/// same candidates by decreasing key, ties in input order, are the same
/// listing. So the orders the functions above promise exist are unique.
pub proof fn lemma_ranking_unique(keys: Seq<u64>, o1: Seq<usize>, o2: Seq<usize>)
    requires
        keys.len() <= usize::MAX,
        is_permutation(o1, keys.len() as int),
        is_permutation(o2, keys.len() as int),
        is_ranked(keys, o1),
        is_ranked(keys, o2),
    ensures
        o1 == o2,
{
    lemma_permutation_covers(o1, keys.len() as int);
    lemma_permutation_covers(o2, keys.len() as int);
    lemma_ranked_lists_agree(keys, o1, o2);
}

/// A permutation of the first `n` candidates holds every one of them.
proof fn lemma_permutation_covers(o: Seq<usize>, n: int)
    requires
        is_permutation(o, n),
        n <= usize::MAX,
    ensures
        forall|e: usize| (e as int) < n ==> o.contains(e),
{
    assert forall|e: usize| (e as int) < n implies o.contains(e) by {
        lemma_pigeonhole(o, n, e);
    }
}

/// A duplicate-free sequence of `n` values below `n` holds each of them.
proof fn lemma_pigeonhole(o: Seq<usize>, n: int, missing: usize)
    requires
        is_permutation(o, n),
        n <= usize::MAX,
        (missing as int) < n,
    ensures
        o.contains(missing),
{
    if o.contains(missing) {
        return;
    }
    let s = o.to_set();
    o.unique_seq_to_set();
    assert(s.len() == n);
    let full = Set::new(|e: usize| (e as int) < n);
    assert(s.subset_of(full.remove(missing))) by {
        assert forall|e: usize| s.contains(e) implies full.remove(missing).contains(e) by {
            assert(o.contains(e));
        }
    }
    lemma_range_set_len(n);
    vstd::set_lib::lemma_len_subset(s, full.remove(missing));
}

/// The set of `usize` values below `n` has `n` elements.
proof fn lemma_range_set_len(n: int)
    requires
        0 <= n <= usize::MAX,
    ensures
        Set::new(|e: usize| (e as int) < n).finite(),
        Set::new(|e: usize| (e as int) < n).len() == n,
    decreases n,
{
    if n == 0 {
        assert(Set::new(|e: usize| (e as int) < n) =~= Set::empty());
    } else {
        lemma_range_set_len(n - 1);
        assert(Set::new(|e: usize| (e as int) < n) =~= Set::new(|e: usize| (e as int) < n - 1).insert(
            (n - 1) as usize,
        ));
    }
}

/// No two consecutive candidates kept by `kept_distinct` share a group: the
/// suggestion list never shows the same domain twice in a row.
pub proof fn lemma_kept_distinct_adjacent(order: Seq<usize>, groups: Seq<Seq<char>>)
    requires
        forall|x: int| 0 <= x < order.len() ==> #[trigger] order[x] < groups.len(),
    ensures
        forall|x: int|
            0 <= x < kept_distinct(order, groups).len() - 1 ==> groups[kept_distinct(order, groups)[x] as int]
                != groups[#[trigger] kept_distinct(order, groups)[x + 1] as int],
    decreases order.len(),
{
    if order.len() > 0 {
        lemma_kept_distinct_adjacent(order.drop_last(), groups);
        let prev = kept_distinct(order.drop_last(), groups);
        let cur = kept_distinct(order, groups);
        assert forall|x: int| 0 <= x < cur.len() - 1 implies groups[cur[x] as int] != groups[#[trigger] cur[x + 1] as int] by {
            if cur.len() == prev.len() + 1 {
                assert(cur[x] == prev[x]);
                if x + 1 < prev.len() {
                    assert(cur[x + 1] == prev[x + 1]);
                }
            } else {
                assert(cur == prev);
            }
        }
    }
}

proof fn lemma_kept_distinct_subsequence(keys: Seq<u64>, order: Seq<usize>, groups: Seq<Seq<char>>)
    requires
        order.no_duplicates(),
        is_ranked(keys, order),
    ensures
        forall|x: int| 0 <= x < kept_distinct(order, groups).len() ==> order.contains(#[trigger] kept_distinct(order, groups)[x]),
        kept_distinct(order, groups).no_duplicates(),
        is_ranked(keys, kept_distinct(order, groups)),
    decreases order.len(),
{
    if order.len() > 0 {
        let init = order.drop_last();
        let last = order.last();
        assert forall|x: int, y: int| 0 <= x < y < init.len() implies before(keys, #[trigger] init[x] as int, #[trigger] init[y] as int) by {
            assert(init[x] == order[x] && init[y] == order[y]);
        }
        assert(init.no_duplicates()) by {
            assert forall|x: int, y: int| 0 <= x < init.len() && 0 <= y < init.len() && x != y implies init[x] != init[y] by {
                assert(init[x] == order[x] && init[y] == order[y]);
            }
        }
        lemma_kept_distinct_subsequence(keys, init, groups);
        let prev = kept_distinct(init, groups);
        let cur = kept_distinct(order, groups);
        assert forall|x: int| 0 <= x < prev.len() implies order.contains(#[trigger] prev[x]) by {
            let p = choose|p: int| 0 <= p < init.len() && init[p] == prev[x];
            assert(order[p] == prev[x]);
        }
        if cur.len() == prev.len() + 1 {
            assert(cur == prev.push(last));
            assert(order[order.len() - 1] == last);
            assert forall|x: int| 0 <= x < prev.len() implies #[trigger] prev[x] != last && before(keys, prev[x] as int, last as int) by {
                let p = choose|p: int| 0 <= p < init.len() && init[p] == prev[x];
                assert(order[p] == prev[x]);
                assert(before(keys, order[p] as int, order[order.len() - 1] as int));
            }
            assert forall|x: int| 0 <= x < cur.len() implies order.contains(#[trigger] cur[x]) by {
                if x < prev.len() {
                    assert(cur[x] == prev[x]);
                }
            }
            assert forall|x: int, y: int| 0 <= x < cur.len() && 0 <= y < cur.len() && x != y implies cur[x] != cur[y] by {
                if x < prev.len() && y < prev.len() {
                    assert(cur[x] == prev[x] && cur[y] == prev[y]);
                } else if x < prev.len() {
                    assert(cur[x] == prev[x]);
                } else if y < prev.len() {
                    assert(cur[y] == prev[y]);
                }
            }
            assert forall|x: int, y: int| 0 <= x < y < cur.len() implies before(keys, #[trigger] cur[x] as int, #[trigger] cur[y] as int) by {
                assert(cur[x] == prev[x]);
                if y < prev.len() {
                    assert(cur[y] == prev[y]);
                }
            }
        }
    }
}

/// The suggestion listing names each candidate at most once, in rank
/// order, and holds at most `limit` of them.
pub proof fn lemma_distinct_listing(keys: Seq<u64>, order: Seq<usize>, groups: Seq<Seq<char>>, limit: int)
    requires
        is_permutation(order, keys.len() as int),
        is_ranked(keys, order),
        0 <= limit,
    ensures
        truncated(kept_distinct(order, groups), limit).len() <= limit,
        truncated(kept_distinct(order, groups), limit).no_duplicates(),
        is_ranked(keys, truncated(kept_distinct(order, groups), limit)),
{
    lemma_kept_distinct_subsequence(keys, order, groups);
    let kd = kept_distinct(order, groups);
    let t = truncated(kd, limit);
    assert forall|x: int, y: int| 0 <= x < t.len() && 0 <= y < t.len() && x != y implies t[x] != t[y] by {
        assert(t[x] == kd[x] && t[y] == kd[y]);
    }
    assert forall|x: int, y: int| 0 <= x < y < t.len() implies before(keys, #[trigger] t[x] as int, #[trigger] t[y] as int) by {
        assert(t[x] == kd[x] && t[y] == kd[y]);
    }
}

/// A top-`limit` listing holds `min(limit, n)` distinct candidates of the
/// `n`, with keys that never increase along the listing.
pub proof fn lemma_top_listing(keys: Seq<u64>, order: Seq<usize>, limit: int)
    requires
        is_permutation(order, keys.len() as int),
        is_ranked(keys, order),
        0 <= limit,
    ensures
        truncated(order, limit).len() == if limit < keys.len() {
            limit
        } else {
            keys.len() as int
        },
        truncated(order, limit).no_duplicates(),
        forall|x: int| 0 <= x < truncated(order, limit).len() ==> #[trigger] truncated(order, limit)[x] < keys.len(),
        forall|x: int, y: int|
            0 <= x < y < truncated(order, limit).len() ==> keys[#[trigger] truncated(order, limit)[x] as int]
                >= keys[#[trigger] truncated(order, limit)[y] as int],
{
    let t = truncated(order, limit);
    assert forall|x: int| 0 <= x < t.len() implies #[trigger] t[x] < keys.len() by {
        assert(t[x] == order[x]);
    }
    assert forall|x: int, y: int| 0 <= x < t.len() && 0 <= y < t.len() && x != y implies t[x] != t[y] by {
        assert(t[x] == order[x] && t[y] == order[y]);
    }
    assert forall|x: int, y: int| 0 <= x < y < t.len() implies keys[#[trigger] t[x] as int] >= keys[#[trigger] t[y] as int] by {
        assert(t[x] == order[x] && t[y] == order[y]);
        assert(before(keys, order[x] as int, order[y] as int));
    }
}

/// The candidates cut off by a limit rank no higher than any that are
/// kept: every listed candidate has a key at least as large as every
/// candidate left out.
pub proof fn lemma_top_is_best(keys: Seq<u64>, order: Seq<usize>, limit: int, kept: int, dropped: int)
    requires
        keys.len() <= usize::MAX,
        is_permutation(order, keys.len() as int),
        is_ranked(keys, order),
        0 <= limit,
        0 <= kept < truncated(order, limit).len(),
        0 <= dropped < keys.len(),
        !truncated(order, limit).contains(dropped as usize),
    ensures
        keys[truncated(order, limit)[kept] as int] >= keys[dropped],
{
    lemma_permutation_covers(order, keys.len() as int);
    assert(order.contains(dropped as usize));
    let y = choose|y: int| 0 <= y < order.len() && order[y] == dropped as usize;
    if y < truncated(order, limit).len() {
        assert(truncated(order, limit)[y] == order[y]);
        assert(truncated(order, limit).contains(dropped as usize));
    }
    assert(truncated(order, limit)[kept] == order[kept]);
    assert(before(keys, order[kept] as int, order[y] as int));
}

} // verus!
