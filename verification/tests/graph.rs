use neurographrag::graph::traverse_from_memories;

// Memories 1..=4; entities 10..=14.
// memory 1 -> entity 10; memory 2 -> entity 11; memory 3 -> entity 12;
// memory 4 -> entity 13 and 14.
fn links() -> Vec<(i64, i64)> {
    vec![(1, 10), (2, 11), (3, 12), (4, 13), (4, 14)]
}

// 10 -> 11 -> 12 -> 13
fn edges() -> Vec<(i64, i64)> {
    vec![(10, 11), (11, 12), (12, 13)]
}

#[test]
fn walk_follows_edges_up_to_the_hop_limit() {
    let l = links();
    let e = edges();
    assert_eq!(traverse_from_memories(&[1], &l, &e, &l, 1), vec![2]);
    assert_eq!(traverse_from_memories(&[1], &l, &e, &l, 2), vec![2, 3]);
    assert_eq!(traverse_from_memories(&[1], &l, &e, &l, 3), vec![2, 3, 4]);
    assert_eq!(traverse_from_memories(&[1], &l, &e, &l, 9), vec![2, 3, 4]);
}

#[test]
fn no_hops_or_no_seeds_reach_nothing() {
    let l = links();
    let e = edges();
    assert!(traverse_from_memories(&[1], &l, &e, &l, 0).is_empty());
    assert!(traverse_from_memories(&[], &l, &e, &l, 2).is_empty());
}

#[test]
fn seed_without_entities_reaches_nothing() {
    let l = links();
    let e = edges();
    assert!(traverse_from_memories(&[7], &l, &e, &l, 2).is_empty());
}

#[test]
fn seeds_are_never_returned() {
    let l = links();
    let e = edges();
    assert_eq!(traverse_from_memories(&[1, 2], &l, &e, &l, 2), vec![3, 4]);
}

#[test]
fn deleted_memories_are_left_out() {
    let l = links();
    let e = edges();
    let live: Vec<(i64, i64)> = vec![(1, 10), (2, 11), (4, 13), (4, 14)];
    assert_eq!(traverse_from_memories(&[1], &l, &e, &live, 3), vec![2, 4]);
}

#[test]
fn cycles_and_repeated_edges_are_harmless() {
    let l = links();
    let e: Vec<(i64, i64)> = vec![(10, 11), (11, 10), (10, 11), (11, 12), (12, 10)];
    assert_eq!(traverse_from_memories(&[1], &l, &e, &l, 5), vec![2, 3]);
}

#[test]
fn result_is_sorted_without_repeats() {
    let l: Vec<(i64, i64)> = vec![(1, 10), (9, 11), (5, 11), (9, 12), (3, 12)];
    let e: Vec<(i64, i64)> = vec![(10, 11), (10, 12)];
    assert_eq!(traverse_from_memories(&[1], &l, &e, &l, 1), vec![3, 5, 9]);
}

#[test]
fn entities_of_seeds_do_not_count_as_reached() {
    // memory 2 shares entity 10 with the seed; entity 10 is a seed entity.
    let l: Vec<(i64, i64)> = vec![(1, 10), (2, 10)];
    let e: Vec<(i64, i64)> = vec![(10, 10)];
    assert!(traverse_from_memories(&[1], &l, &e, &l, 2).is_empty());
}
