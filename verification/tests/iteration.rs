use either::iterator::{
    all, any, collect_vec, find, find_map, fold, for_each, partition, position, rfind, rfold,
    BackItemSource, ItemSource, VecIter,
};
use std::cell::Cell;
use either::{Either, Left, Right};

fn range_vec(from: i32, to: i32) -> Vec<i32> {
    let mut v = Vec::new();
    let mut x = from;
    while x < to {
        v.push(x);
        x += 1;
    }
    v
}

#[test]
fn iter() {
    let x = 3;
    let mut iter = match x {
        1..=3 => Left(VecIter::new(range_vec(0, 10))),
        _ => Right(VecIter::new(range_vec(17, 27))),
    };

    assert_eq!(iter.next(), Some(0));
    assert_eq!(iter.count(), 9);
}

#[test]
fn collect_forwards_to_live_side() {
    let direct = collect_vec(VecIter::new(vec![1, 2, 3]));
    let through_left: Either<VecIter<i32>, VecIter<i32>> = Left(VecIter::new(vec![1, 2, 3]));
    assert_eq!(collect_vec(through_left), direct);
    let direct = collect_vec(VecIter::new(vec![9, 8]));
    let through_right: Either<VecIter<i32>, VecIter<i32>> = Right(VecIter::new(vec![9, 8]));
    assert_eq!(collect_vec(through_right), direct);
}

#[test]
fn factored_iteration_keeps_tags() {
    let left: Either<Vec<i32>, Vec<i32>> = Left(vec![1, 2, 3]);
    let factored = left.factor_into_iter();
    let items = collect_vec(factored);
    assert_eq!(items, vec![Left(1), Left(2), Left(3)]);
    assert!(items.iter().all(|i| !i.is_right()));

    let right: Either<Vec<i32>, Vec<i32>> = Right(vec![4, 5]);
    let items = collect_vec(right.factor_into_iter());
    assert_eq!(items, vec![Right(4), Right(5)]);
}

#[test]
fn factored_iteration_by_reference() {
    let left: Either<Vec<&str>, Vec<u8>> = Left(vec!["hello"]);
    let mut it = left.factor_iter();
    assert_eq!(it.next(), Some(Left("hello")));
    assert_eq!(it.next(), None);

    let right: Either<Vec<&str>, Vec<u8>> = Right(vec![0, 1]);
    assert_eq!(collect_vec(right.factor_iter()), vec![Right(0), Right(1)]);
}

#[test]
fn factored_source_never_switches_sides() {
    let left: Either<Vec<i32>, Vec<i32>> = Left(vec![7]);
    let mut it = left.factor_into_iter();
    assert_eq!(it.next(), Some(Left(7)));
    assert_eq!(it.next(), None);
    assert_eq!(it.next(), None);
}

#[test]
fn into_iter_and_extend() {
    let left: Either<Vec<u32>, Vec<u32>> = Left(vec![1, 2, 3, 4, 5]);
    let mut right: Either<Vec<u32>, Vec<u32>> = Right(vec![]);
    right.extend(collect_vec(left.into_iter()));
    assert_eq!(right, Right(vec![1, 2, 3, 4, 5]));
}

#[test]
fn iter_borrows_and_copies() {
    let left: Either<Vec<u32>, Vec<u32>> = Left(vec![2, 3]);
    let mut all_items = vec![1];
    let mut from_left = collect_vec(left.iter());
    all_items.append(&mut from_left);
    let right: Either<Vec<u32>, Vec<u32>> = Right(vec![4, 5]);
    let mut from_right = collect_vec(right.iter());
    all_items.append(&mut from_right);
    assert_eq!(all_items, vec![1, 2, 3, 4, 5]);
}

#[test]
fn iter_mut_transforms_in_place() {
    let mut left: Either<Vec<u32>, Vec<u32>> = Left(vec![2, 3]);
    left.iter_mut(|x| x * x);
    assert_eq!(left, Left(vec![4, 9]));

    let mut right: Either<Vec<u32>, Vec<u32>> = Right(vec![4, 5]);
    right.iter_mut(|x| x * x);
    assert_eq!(right, Right(vec![16, 25]));
}

#[test]
fn factor_iter_mut_transforms_live_side() {
    let mut left: Either<Vec<&str>, Vec<i32>> = Left(vec!["hello"]);
    left.factor_iter_mut(|_| "goodbye", |x| x);
    assert_eq!(left, Left(vec!["goodbye"]));

    let mut right: Either<Vec<&str>, Vec<i32>> = Right(vec![0, 1, 2]);
    right.factor_iter_mut(|s| s, |x| -x);
    assert_eq!(right, Right(vec![0, -1, -2]));
}

#[test]
fn forwarded_source_operations() {
    let mut e: Either<VecIter<i32>, VecIter<i32>> = Right(VecIter::new(vec![10, 20, 30, 40]));
    assert_eq!(e.size_hint(), (4, Some(4)));
    assert_eq!(e.nth(1), Some(20));
    assert_eq!(e.next_back(), Some(40));
    assert_eq!(e.next(), Some(30));
    assert_eq!(e.next(), None);

    let e: Either<VecIter<i32>, VecIter<i32>> = Left(VecIter::new(vec![5, 6]));
    assert_eq!(e.last(), Some(6));
    let e: Either<VecIter<i32>, VecIter<i32>> = Left(VecIter::new(vec![]));
    assert_eq!(e.last(), None);
    let e: Either<VecIter<i32>, VecIter<i32>> = Left(VecIter::new(vec![]));
    assert_eq!(e.count(), 0);
}

#[test]
fn bulk_operations_follow_the_items() {
    let src: Either<VecIter<i32>, VecIter<i32>> = Left(VecIter::new(vec![1, 2, 3]));
    assert_eq!(fold(src, 0, |acc, x| acc + x), 6);
    let src: Either<VecIter<i32>, VecIter<i32>> = Right(VecIter::new(vec![1, 2, 3]));
    assert!(all(src, |x| x > 0));
    let src: Either<VecIter<i32>, VecIter<i32>> = Right(VecIter::new(vec![1, -2, 3]));
    assert!(!all(src, |x| x > 0));
    let src: Either<VecIter<i32>, VecIter<i32>> = Left(VecIter::new(vec![1, -2, 3]));
    assert!(any(src, |x| x < 0));
    let src: Either<VecIter<i32>, VecIter<i32>> = Left(VecIter::new(vec![1, -2, 3]));
    assert_eq!(find(src, |x: &i32| *x < 0), Some(-2));
    let src: Either<VecIter<i32>, VecIter<i32>> = Left(VecIter::new(vec![1, -2, 3]));
    assert_eq!(position(src, |x| x < 0), Some(1));
    let src: Either<VecIter<i32>, VecIter<i32>> = Left(VecIter::new(vec![1, 2]));
    assert_eq!(position(src, |x| x < 0), None);
}

#[test]
fn more_bulk_operations() {
    let src: Either<VecIter<i32>, VecIter<i32>> = Left(VecIter::new(vec![1, 2, 3]));
    let sum = Cell::new(0);
    for_each(src, |x| sum.set(sum.get() + x));
    assert_eq!(sum.get(), 6);

    let src: Either<VecIter<i32>, VecIter<i32>> = Right(VecIter::new(vec![1, 2, 3]));
    assert_eq!(
        find_map(src, |x| if x % 2 == 0 { Some(x * 10) } else { None }),
        Some(20)
    );
    let src: Either<VecIter<i32>, VecIter<i32>> = Right(VecIter::new(vec![1, 3]));
    assert_eq!(find_map(src, |x| if x % 2 == 0 { Some(x) } else { None }), None);

    let src: Either<VecIter<i32>, VecIter<i32>> = Left(VecIter::new(vec![1, 2, 3, 4]));
    assert_eq!(rfind(src, |x: &i32| *x % 2 == 1), Some(3));
    let src: Either<VecIter<i32>, VecIter<i32>> = Left(VecIter::new(vec![2, 4]));
    assert_eq!(rfind(src, |x: &i32| *x % 2 == 1), None);

    let src: Either<VecIter<i32>, VecIter<i32>> = Right(VecIter::new(vec![7, 8, 9]));
    assert_eq!(src.len(), 3);

    let src: Either<VecIter<i32>, VecIter<i32>> = Left(VecIter::new(vec![1, 2, 3]));
    assert_eq!(rfold(src, 0, |acc, x| acc * 10 + x), 321);

    let src: Either<VecIter<i32>, VecIter<i32>> = Left(VecIter::new(vec![1, 2, 3, 4]));
    let (evens, odds) = partition(src, |x: &i32| x % 2 == 0);
    assert_eq!(evens, vec![2, 4]);
    assert_eq!(odds, vec![1, 3]);
}
