use sign_census::chunk_bounds;

// Checks that the k chunks of [0, n) are contiguous, start at 0, end at n,
// and that every chunk but the last has size n / k.
fn assert_partition(n: usize, k: usize) {
    let mut expected_start: usize = 0;
    for i in 0..k {
        let (lo, hi) = chunk_bounds(n, k, i);
        assert_eq!(lo, expected_start);
        assert!(lo <= hi);
        assert!(hi <= n);
        if i + 1 < k {
            assert_eq!(hi - lo, n / k);
        } else {
            assert_eq!(hi, n);
        }
        expected_start = hi;
    }
    assert_eq!(expected_start, n);
}

#[test]
fn even_split() {
    assert_eq!(chunk_bounds(10, 2, 0), (0, 5));
    assert_eq!(chunk_bounds(10, 2, 1), (5, 10));
    assert_partition(10, 2);
}

#[test]
fn last_chunk_absorbs_remainder() {
    assert_eq!(chunk_bounds(10, 3, 0), (0, 3));
    assert_eq!(chunk_bounds(10, 3, 1), (3, 6));
    assert_eq!(chunk_bounds(10, 3, 2), (6, 10));
    assert_partition(10, 3);
    assert_eq!(chunk_bounds(7, 3, 0), (0, 2));
    assert_eq!(chunk_bounds(7, 3, 1), (2, 4));
    assert_eq!(chunk_bounds(7, 3, 2), (4, 7));
    assert_partition(7, 3);
}

#[test]
fn five_elements_two_workers() {
    assert_eq!(chunk_bounds(5, 2, 0), (0, 2));
    assert_eq!(chunk_bounds(5, 2, 1), (2, 5));
    assert_partition(5, 2);
}

#[test]
fn single_chunk_spans_whole_array() {
    assert_eq!(chunk_bounds(9, 1, 0), (0, 9));
    assert_partition(9, 1);
}

#[test]
fn more_workers_than_elements_still_cover() {
    assert_eq!(chunk_bounds(2, 4, 0), (0, 0));
    assert_eq!(chunk_bounds(2, 4, 1), (0, 0));
    assert_eq!(chunk_bounds(2, 4, 2), (0, 0));
    assert_eq!(chunk_bounds(2, 4, 3), (0, 2));
    assert_partition(2, 4);
}

#[test]
fn empty_range_partitions() {
    assert_partition(0, 1);
    assert_partition(0, 5);
}

#[test]
fn many_shapes_partition() {
    for n in 0..40 {
        for k in 1..12 {
            assert_partition(n, k);
        }
    }
}
