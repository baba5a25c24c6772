use sign_census::merge;
use sign_census::merge_all;
use sign_census::count_elements_multi;
use sign_census::count_elements_single;
use sign_census::count_range;
use sign_census::CountTriple;

fn triple(zeros: usize, positives: usize, negatives: usize) -> CountTriple {
    CountTriple { zeros, positives, negatives }
}

#[test]
fn empty_array_both_counters_zero() {
    let data: Vec<i32> = vec![];
    let single = count_elements_single(&data);
    assert_eq!(single, triple(0, 0, 0));
    let multi = count_elements_multi(&data, 1);
    assert_eq!(multi, triple(0, 0, 0));
}

#[test]
fn all_zeros_every_worker_count() {
    let data: Vec<i32> = vec![0, 0, 0];
    let single = count_elements_single(&data);
    assert_eq!(single, triple(3, 0, 0));
    for k in 1..=3 {
        let multi = count_elements_multi(&data, k);
        assert_eq!(multi, triple(3, 0, 0));
    }
}

#[test]
fn mixed_five_with_two_workers() {
    let data: Vec<i32> = vec![-5, -3, 0, 2, 7];
    let single = count_elements_single(&data);
    assert_eq!(single, triple(1, 2, 2));
    let multi = count_elements_multi(&data, 2);
    assert_eq!(multi, triple(1, 2, 2));
}

#[test]
fn one_worker_matches_sequential() {
    let data: Vec<i32> = vec![4, -9, 0, 0, 12, -1, 7, 3];
    let single = count_elements_single(&data);
    let multi = count_elements_multi(&data, 1);
    assert_eq!(single, multi);
}

#[test]
fn repeated_runs_on_fixed_array_agree() {
    let data: Vec<i32> = vec![10, -10, 0, 5, -5, 0];
    let first = count_elements_single(&data);
    let second = count_elements_single(&data);
    assert_eq!(first, second);
}

#[test]
fn exact_counts_on_known_array() {
    let data: Vec<i32> = vec![1, -1, 0, 5, -2, 3];
    let single = count_elements_single(&data);
    assert_eq!(single, triple(1, 3, 2));
    assert_eq!(single.zeros + single.positives + single.negatives, data.len());
}

#[test]
fn counters_agree_for_every_worker_count() {
    let data: Vec<i32> = vec![3, 0, -7, 8, 0, -2, -2, 9, 1, 0, -4];
    let single = count_elements_single(&data);
    for k in 1..=11 {
        assert_eq!(count_elements_multi(&data, k), single);
    }
}

#[test]
fn count_range_covers_only_its_indices() {
    let data: Vec<i32> = vec![-5, -3, 0, 2, 7];
    let tail = count_range(&data, 2, 5);
    assert_eq!(tail, triple(1, 2, 0));
    let front = count_range(&data, 0, 2);
    assert_eq!(front, triple(0, 0, 2));
    let empty = count_range(&data, 3, 3);
    assert_eq!(empty, triple(0, 0, 0));
}

#[test]
fn merge_adds_field_wise() {
    let merged = merge(triple(1, 2, 3), triple(4, 5, 6));
    assert_eq!(merged, triple(5, 7, 9));
}

#[test]
fn merge_all_sums_every_local_result() {
    let parts = vec![triple(1, 0, 2), triple(0, 3, 1), triple(5, 5, 5)];
    assert_eq!(merge_all(&parts), Some(triple(6, 8, 8)));
}

#[test]
fn merge_all_of_no_parts_is_zero() {
    let parts: Vec<CountTriple> = vec![];
    assert_eq!(merge_all(&parts), Some(triple(0, 0, 0)));
}

#[test]
fn merge_all_reports_overflow() {
    let parts = vec![triple(usize::MAX, 0, 0), triple(1, 0, 0)];
    assert_eq!(merge_all(&parts), None);
}
