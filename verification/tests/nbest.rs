use n_best::NBest;
use n_best::Natural;
use n_best::Reversed;

#[test]
fn test_cmp_fn() {
    let numbers = vec![0, 2, 4, 6, 8, 1, 3, 5, 7, 9];
    let mut n_best = NBest::with_cmp_fn_and_iter(4, Reversed { inner: Natural }, numbers);

    n_best.push(1);
    n_best.push(22);

    assert_eq!(n_best.into_sorted_vec(), vec![0, 1, 1, 2]);
}

#[test]
fn test_ord() {
    let numbers = vec![0, 2, 4, 6, 8, 1, 3, 5, 7, 9];
    let mut n_best = NBest::new(4);
    n_best.extend(numbers);

    n_best.push(1);
    n_best.push(22);

    assert_eq!(n_best.into_sorted_vec(), vec![22, 9, 8, 7]);
}

#[test]
fn capacity_never_exceeded() {
    let mut n_best = NBest::new(3);
    let inputs: Vec<i64> = vec![5, -2, 9, 9, 0, 7, 3, -8, 11, 2];
    for x in inputs {
        n_best.push(x);
        assert!(n_best.len() <= n_best.capacity());
    }
    assert_eq!(n_best.len(), 3);
    assert_eq!(n_best.capacity(), 3);
}

#[test]
fn top_k_of_batch() {
    let n_best = NBest::with_iter(3, vec![5i64, 1, 4, 2, 3]);
    assert_eq!(n_best.into_sorted_vec(), vec![5, 4, 3]);
}

#[test]
fn same_input_same_output() {
    let inputs: Vec<i64> = vec![4, -1, 4, 10, 3, 3, 8];
    let a = NBest::with_iter(4, inputs.clone());
    let b = NBest::with_iter(4, inputs);
    assert_eq!(a.into_sorted_vec(), b.into_sorted_vec());
}

#[test]
fn discard_leaves_contents_unchanged() {
    let mut n_best = NBest::new(2);
    n_best.push(10i64);
    n_best.push(20i64);
    let before = n_best.iter().clone();
    n_best.push(1);
    assert_eq!(n_best.iter(), &before);
    assert_eq!(n_best.len(), 2);
    assert_eq!(n_best.into_sorted_vec(), vec![20, 10]);
}

#[test]
fn equivalent_comparator_matches_natural() {
    let inputs: Vec<i64> = vec![6, -3, 6, 0, 12, 5];
    let natural = NBest::with_iter(3, inputs.clone());
    let doubly_reversed = NBest::with_cmp_fn_and_iter(
        3,
        Reversed { inner: Reversed { inner: Natural } },
        inputs,
    );
    assert_eq!(natural.into_sorted_vec(), doubly_reversed.into_sorted_vec());
}

#[test]
fn empty_pop_returns_none() {
    let mut n_best: NBest<i64, Natural> = NBest::new(5);
    assert_eq!(n_best.pop(), None);
}

#[test]
fn pop_returns_worst_retained() {
    let mut n_best = NBest::with_iter(3, vec![5i64, 1, 4, 2, 3]);
    assert_eq!(n_best.pop(), Some(3));
    assert_eq!(n_best.pop(), Some(4));
    assert_eq!(n_best.pop(), Some(5));
    assert_eq!(n_best.pop(), None);
}

#[test]
fn single_element_capacity_one() {
    let mut n_best = NBest::new(1);
    n_best.push(42i64);
    assert_eq!(n_best.into_sorted_vec(), vec![42]);
}

#[test]
fn underfilled_returns_all_best_first() {
    let mut n_best = NBest::new(3);
    n_best.push(2i64);
    n_best.push(7i64);
    assert_eq!(n_best.len(), 2);
    assert_eq!(n_best.into_sorted_vec(), vec![7, 2]);
}

#[test]
fn drain_empties_and_returns_everything() {
    let mut n_best = NBest::with_iter(4, vec![3u64, 9, 1, 7]);
    let mut drained = n_best.drain();
    assert_eq!(n_best.len(), 0);
    drained.sort();
    assert_eq!(drained, vec![1, 3, 7, 9]);
    assert_eq!(n_best.pop(), None);
}

#[test]
fn unsigned_natural_order() {
    let mut n_best = NBest::new(2);
    n_best.push(3u64);
    n_best.push(10u64);
    n_best.push(5u64);
    assert_eq!(n_best.into_sorted_vec(), vec![10, 5]);
}

#[test]
fn reversed_keeps_smallest() {
    let n_best = NBest::with_cmp_fn_and_iter(2, Reversed { inner: Natural }, vec![4i64, -5, 2, 8]);
    assert_eq!(n_best.into_sorted_vec(), vec![-5, 2]);
}

#[test]
fn iter_yields_all_retained() {
    let n_best = NBest::with_iter(3, vec![5i64, 1, 4]);
    let mut seen = n_best.iter().clone();
    seen.sort();
    assert_eq!(seen, vec![1, 4, 5]);
}

#[test]
fn tie_with_worst_is_discarded() {
    let mut n_best = NBest::new(2);
    n_best.push(10i64);
    n_best.push(20i64);
    n_best.push(10i64);
    assert_eq!(n_best.into_sorted_vec(), vec![20, 10]);
}
