//! Tests of the full join of two key-sorted sequences.

use untimely::join::{FullJoinItem, FullJoinIter, full_join};

#[test]
fn test_both_empty() {
    let left: Vec<(u64, ())> = Vec::new();
    let right: Vec<(u64, String)> = Vec::new();
    let result = full_join(left, right);
    assert!(result.is_empty());
}

#[test]
fn test_left_empty() {
    let left: Vec<(u64, ())> = Vec::new();
    let right: Vec<(u64, &str)> = vec![(1, "foo"), (400, "bar")];
    let result = full_join(left, right);
    let expected = vec![
        FullJoinItem::Right(1, "foo"),
        FullJoinItem::Right(400, "bar"),
    ];
    assert_eq!(result, expected);
}

#[test]
fn test_right_empty() {
    let left: Vec<(u64, &str)> = vec![(1, "foo"), (400, "bar")];
    let right: Vec<(u64, ())> = Vec::new();
    let result = full_join(left, right);
    let expected = vec![FullJoinItem::Left(1, "foo"), FullJoinItem::Left(400, "bar")];
    assert_eq!(result, expected);
}

#[test]
fn full_join_mixed() {
    let left = vec![(1, 'a'), (3, 'b'), (5, 'c')];
    let right = vec![(1, 'x'), (4, 'y'), (5, 'z')];
    let result = full_join(left, right);
    let expected = vec![
        FullJoinItem::Both(1, 'a', 'x'),
        FullJoinItem::Left(3, 'b'),
        FullJoinItem::Right(4, 'y'),
        FullJoinItem::Both(5, 'c', 'z'),
    ];
    assert_eq!(result, expected);
}

#[test]
fn iter_steps_match_join() {
    let left = vec![(2u64, "l2"), (9, "l9")];
    let right = vec![(2u64, "r2"), (3, "r3")];
    let mut it = FullJoinIter::new(left, right);
    assert_eq!(it.next(), Some(FullJoinItem::Both(2, "l2", "r2")));
    assert_eq!(it.next(), Some(FullJoinItem::Right(3, "r3")));
    assert_eq!(it.next(), Some(FullJoinItem::Left(9, "l9")));
    assert_eq!(it.next(), None);
}

#[test]
fn into_options_covers_all_variants() {
    let l: FullJoinItem<u64, &str, &str> = FullJoinItem::Left(1, "a");
    assert_eq!(l.into_options(), (1, Some("a"), None));
    let r: FullJoinItem<u64, &str, &str> = FullJoinItem::Right(2, "b");
    assert_eq!(r.into_options(), (2, None, Some("b")));
    let b: FullJoinItem<u64, &str, &str> = FullJoinItem::Both(3, "c", "d");
    assert_eq!(b.into_options(), (3, Some("c"), Some("d")));
}

#[test]
fn join_test_both_empty() {
    let left: Vec<(u64, ())> = Vec::new();
    let right: Vec<(u64, String)> = Vec::new();
    let result = full_join(left, right);
    assert!(result.is_empty());
}

#[test]
fn join_test_left_empty() {
    let left: Vec<(u64, ())> = Vec::new();
    let right: Vec<(u64, &str)> = vec![(1, "foo"), (400, "bar")];
    let result = full_join(left, right);
    let expected = vec![
        FullJoinItem::Right(1, "foo"),
        FullJoinItem::Right(400, "bar"),
    ];
    assert_eq!(result, expected);
}

#[test]
fn join_test_right_empty() {
    let left: Vec<(u64, &str)> = vec![(1, "foo"), (400, "bar")];
    let right: Vec<(u64, ())> = Vec::new();
    let result = full_join(left, right);
    let expected = vec![FullJoinItem::Left(1, "foo"), FullJoinItem::Left(400, "bar")];
    assert_eq!(result, expected);
}
