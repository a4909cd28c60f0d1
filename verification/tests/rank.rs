use newtron::rank::{rank_distinct, rank_top, ranked_order};
use newtron::route::{route_plan, RouteSlot};

fn groups(names: &[&str]) -> Vec<String> {
    names.iter().map(|s| s.to_string()).collect()
}

#[test]
fn ranked_order_sorts_by_decreasing_key() {
    assert_eq!(ranked_order(&vec![1, 9, 4]), vec![1, 2, 0]);
}

#[test]
fn ranked_order_keeps_ties_in_input_order() {
    assert_eq!(ranked_order(&vec![5, 9, 5, 1, 9]), vec![1, 4, 0, 2, 3]);
}

#[test]
fn ranked_order_of_nothing() {
    assert!(ranked_order(&vec![]).is_empty());
}

#[test]
fn rank_top_truncates() {
    assert_eq!(rank_top(&vec![1, 2, 3], 2), vec![2, 1]);
    assert_eq!(rank_top(&vec![1, 2, 3], 10), vec![2, 1, 0]);
    assert!(rank_top(&vec![1, 2, 3], 0).is_empty());
}

#[test]
fn rank_distinct_drops_consecutive_same_group() {
    let keys = vec![10, 9, 8, 7];
    let g = groups(&["a.com", "a.com", "b.com", "a.com"]);
    assert_eq!(rank_distinct(&keys, &g, 10), vec![0, 2, 3]);
    assert_eq!(rank_distinct(&keys, &g, 2), vec![0, 2]);
}

#[test]
fn rank_distinct_compares_in_rank_order() {
    // By rank the order is 2, 0, 1: "x", "y", "y".
    let keys = vec![5, 4, 6];
    let g = groups(&["y", "y", "x"]);
    assert_eq!(rank_distinct(&keys, &g, 6), vec![2, 0]);
}


#[test]
fn route_plan_ranks_locals_then_suggestions_then_web() {
    assert_eq!(
        route_plan(&vec![3, 9, 3], 2),
        vec![
            RouteSlot::Local(1),
            RouteSlot::Local(0),
            RouteSlot::Local(2),
            RouteSlot::GoTo(0),
            RouteSlot::GoTo(1),
            RouteSlot::WebSearch
        ]
    );
    assert_eq!(route_plan(&vec![], 0), vec![RouteSlot::WebSearch]);
}
