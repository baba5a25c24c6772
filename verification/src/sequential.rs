//! The sequential counter: a single in-order pass over a range of array
//! indices, classifying each element into one of the three buckets.

use vstd::prelude::*;

use crate::triple::{
    lemma_count_where_le_len, lemma_count_where_push, lemma_counts_partition, negative_pred,
    positive_pred, zero_pred, CountTriple,
};

verus! {

/// Classifies the elements of `data` with indices in `[lo, hi)`, visiting each
/// exactly once in index order. This is also each worker's scan, confined to
/// its chunk's index range.
pub fn count_range(data: &Vec<i32>, lo: usize, hi: usize) -> (r: CountTriple)
    requires
        lo <= hi <= data@.len(),
    ensures
        r.is_count_of(data@.subrange(lo as int, hi as int)),
        r.total() == hi - lo,
{
    let mut zeros: usize = 0;
    let mut positives: usize = 0;
    let mut negatives: usize = 0;
    let mut i: usize = lo;
    while i < hi
        invariant
            lo <= i <= hi <= data@.len(),
            zeros == crate::triple::zeros_in(data@.subrange(lo as int, i as int)),
            positives == crate::triple::positives_in(data@.subrange(lo as int, i as int)),
            negatives == crate::triple::negatives_in(data@.subrange(lo as int, i as int)),
        decreases hi - i,
    {
        let x = data[i];
        proof {
            let prefix = data@.subrange(lo as int, i as int);
            assert(data@.subrange(lo as int, i + 1) =~= prefix.push(data@[i as int]));
            lemma_count_where_push(prefix, data@[i as int], zero_pred());
            lemma_count_where_push(prefix, data@[i as int], positive_pred());
            lemma_count_where_push(prefix, data@[i as int], negative_pred());
            lemma_count_where_le_len(prefix, zero_pred());
            lemma_count_where_le_len(prefix, positive_pred());
            lemma_count_where_le_len(prefix, negative_pred());
        }
        if x == 0 {
            zeros = zeros + 1;
        } else if x > 0 {
            positives = positives + 1;
        } else {
            negatives = negatives + 1;
        }
        i = i + 1;
    }
    proof {
        lemma_counts_partition(data@.subrange(lo as int, hi as int));
    }
    CountTriple { zeros, positives, negatives }
}

/// The sequential counter: one pass over the whole array. Its triple is the
/// reference result, and its three fields always sum to the array's length.
pub fn count_elements_single(data: &Vec<i32>) -> (r: CountTriple)
    ensures
        r.is_count_of(data@),
        r.total() == data@.len(),
{
    let r = count_range(data, 0, data.len());
    proof {
        assert(data@.subrange(0, data@.len() as int) =~= data@);
    }
    r
}

} // verus!
