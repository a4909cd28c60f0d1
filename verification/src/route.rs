//! The layout of a "search files and web" answer: the local apps and files
//! ranked together, then the URL "go to" suggestions in their own order,
//! then one trailing "search the web" row.

use vstd::prelude::*;
use crate::rank::{is_permutation, is_ranked, ranked_order};

verus! {

/// One row of the answer, by where its item comes from.
#[derive(Debug, Clone, Copy, PartialEq, Eq, Structural)]
pub enum RouteSlot {
    /// The local app or file with this index among the local matches.
    Local(usize),
    /// The URL suggestion with this index.
    GoTo(usize),
    /// The trailing "search the web" row.
    WebSearch,
}

/// The rows for local matches listed in `order`, then `n_suggestions`
/// suggestions in their order, then the web-search row.
pub open spec fn route_rows(order: Seq<usize>, n_suggestions: nat) -> Seq<RouteSlot> {
    order.map_values(|i: usize| RouteSlot::Local(i)) + Seq::new(
        n_suggestions,
        |j: int| RouteSlot::GoTo(j as usize),
    ) + seq![RouteSlot::WebSearch]
}

/// The rows of the answer for local matches with score keys `local_keys`
/// and `n_suggestions` suggestions.
pub fn route_plan(local_keys: &Vec<u64>, n_suggestions: usize) -> (r: Vec<RouteSlot>)
    ensures
        exists|order: Seq<usize>|
            #![trigger is_ranked(local_keys@, order)]
            is_permutation(order, local_keys@.len() as int) && is_ranked(local_keys@, order) && r@
                == route_rows(order, n_suggestions as nat),
{
    let order = ranked_order(local_keys);
    let mut rows: Vec<RouteSlot> = Vec::new();
    let mut i: usize = 0;
    while i < order.len()
        invariant
            i <= order@.len(),
            rows@ == order@.take(i as int).map_values(|x: usize| RouteSlot::Local(x)),
        decreases order@.len() - i,
    {
        rows.push(RouteSlot::Local(order[i]));
        i += 1;
        assert(rows@ =~= order@.take(i as int).map_values(|x: usize| RouteSlot::Local(x)));
    }
    let ghost locals = rows@;
    assert(order@.take(order@.len() as int) =~= order@);
    let mut j: usize = 0;
    while j < n_suggestions
        invariant
            j <= n_suggestions,
            rows@ == locals + Seq::new(j as nat, |k: int| RouteSlot::GoTo(k as usize)),
        decreases n_suggestions - j,
    {
        rows.push(RouteSlot::GoTo(j));
        j += 1;
        assert(rows@ =~= locals + Seq::new(j as nat, |k: int| RouteSlot::GoTo(k as usize)));
    }
    rows.push(RouteSlot::WebSearch);
    proof {
        assert(rows@ =~= route_rows(order@, n_suggestions as nat));
        assert(is_ranked(local_keys@, order@));
    }
    rows
}

} // verus!
