//! The parallel counter's verified core: partitioning the index range into
//! contiguous chunks, counting each chunk with the sequential scan, and
//! merging the local triples. Each of the first `k - 1` chunks has size
//! `n / k` (integer division); the final chunk absorbs the remainder.

use vstd::prelude::*;

use crate::sequential::count_range;
use crate::triple::{
    lemma_count_where_add, lemma_count_where_le_len, negative_pred, positive_pred, zero_pred,
    CountTriple,
};

verus! {

/// First index of chunk `i` when `[0, n)` is split into `k` chunks.
pub open spec fn chunk_lo(n: nat, k: nat, i: nat) -> nat
    recommends
        1 <= k,
        i < k,
{
    i * (n / k)
}

/// One past the last index of chunk `i`: the last chunk ends at `n`, every
/// other chunk ends where the next one starts.
pub open spec fn chunk_hi(n: nat, k: nat, i: nat) -> nat
    recommends
        1 <= k,
        i < k,
{
    if i + 1 == k {
        n
    } else {
        (i + 1) * (n / k)
    }
}

/// Index `idx` falls inside one of the `k` chunks of `[0, n)`.
pub open spec fn covered_by_some_chunk(n: nat, k: nat, idx: nat) -> bool {
    exists|i: nat| i < k && #[trigger] chunk_lo(n, k, i) <= idx < chunk_hi(n, k, i)
}

proof fn lemma_quotient_times_divisor_le(n: nat, k: nat)
    requires
        1 <= k,
    ensures
        k * (n / k) <= n,
{
    vstd::arithmetic::div_mod::lemma_fundamental_div_mod(n as int, k as int);
    vstd::arithmetic::div_mod::lemma_mod_bound(n as int, k as int);
}

/// Every chunk is a well-formed sub-range of `[0, n)`.
pub proof fn lemma_chunk_in_range(n: nat, k: nat, i: nat)
    requires
        1 <= k,
        i < k,
    ensures
        chunk_lo(n, k, i) <= chunk_hi(n, k, i) <= n,
{
    let q = n / k;
    lemma_quotient_times_divisor_le(n, k);
    assert(i * q <= (i + 1) * q <= k * q) by (nonlinear_arith)
        requires
            0 <= i,
            i + 1 <= k,
            0 <= q,
    ;
}

/// The chunk partitioning law: splitting `[0, n)` into `k` chunks yields
/// exactly `k` contiguous ranges that start at 0, end at `n`, are pairwise
/// disjoint, and together cover every index — even in the degenerate case
/// `k > n`, where all but the last chunk are empty.
pub proof fn lemma_chunks_partition(n: nat, k: nat)
    requires
        1 <= k,
    ensures
        chunk_lo(n, k, 0) == 0,
        chunk_hi(n, k, (k - 1) as nat) == n,
        forall|i: nat|
            i < k ==> #[trigger] chunk_lo(n, k, i) <= chunk_hi(n, k, i) <= n,
        forall|i: nat|
            i + 1 < k ==> #[trigger] chunk_hi(n, k, i) == chunk_lo(n, k, (i + 1) as nat),
        forall|i: nat, j: nat|
            i < j < k ==> #[trigger] chunk_hi(n, k, i) <= #[trigger] chunk_lo(n, k, j),
        forall|idx: nat| idx < n ==> #[trigger] covered_by_some_chunk(n, k, idx),
{
    let q = n / k;
    lemma_quotient_times_divisor_le(n, k);
    assert(chunk_lo(n, k, 0) == 0) by (nonlinear_arith);
    assert forall|i: nat| i < k implies #[trigger] chunk_lo(n, k, i) <= chunk_hi(n, k, i)
        <= n by {
        lemma_chunk_in_range(n, k, i);
    }
    assert forall|i: nat, j: nat| i < j < k implies #[trigger] chunk_hi(n, k, i)
        <= #[trigger] chunk_lo(n, k, j) by {
        if i + 1 < k {
            assert((i + 1) * q <= j * q) by (nonlinear_arith)
                requires
                    i + 1 <= j,
                    0 <= q,
            ;
        }
    }
    assert forall|idx: nat| idx < n implies #[trigger] covered_by_some_chunk(n, k, idx) by {
        if q == 0 {
            let w = (k - 1) as nat;
            assert(chunk_lo(n, k, w) == w * 0 == 0) by (nonlinear_arith)
                requires
                    q == 0,
                    chunk_lo(n, k, w) == w * q,
            ;
            assert(chunk_lo(n, k, w) <= idx < chunk_hi(n, k, w));
        } else {
            vstd::arithmetic::div_mod::lemma_fundamental_div_mod(idx as int, q as int);
            vstd::arithmetic::div_mod::lemma_mod_bound(idx as int, q as int);
            let d = idx / q;
            if d + 1 < k {
                let w = d as nat;
                assert(w * q <= idx < (w + 1) * q) by (nonlinear_arith)
                    requires
                        idx == q * d + idx % q,
                        0 <= idx % q < q,
                        w == d,
                ;
                assert(chunk_lo(n, k, w) <= idx < chunk_hi(n, k, w));
            } else {
                let w = (k - 1) as nat;
                assert(w * q <= q * d) by (nonlinear_arith)
                    requires
                        w <= d,
                        0 <= q,
                ;
                assert(q * d <= idx) by (nonlinear_arith)
                    requires
                        idx == q * d + idx % q,
                        0 <= idx % q,
                ;
                assert(chunk_lo(n, k, w) <= idx < chunk_hi(n, k, w));
            }
        }
    }
}

/// With a single worker the one chunk spans the whole array, so the
/// partition-count-merge pipeline degenerates to the sequential scan.
pub proof fn lemma_single_chunk_spans(n: nat)
    ensures
        chunk_lo(n, 1, 0) == 0,
        chunk_hi(n, 1, 0) == n,
{
    lemma_chunks_partition(n, 1);
}

/// The boundaries of chunk `i` of `k` over the index range `[0, n)`, as the
/// half-open range `[r.0, r.1)`.
pub fn chunk_bounds(n: usize, k: usize, i: usize) -> (r: (usize, usize))
    requires
        1 <= k,
        i < k,
    ensures
        r.0 == chunk_lo(n as nat, k as nat, i as nat),
        r.1 == chunk_hi(n as nat, k as nat, i as nat),
        r.0 <= r.1 <= n,
{
    proof {
        lemma_chunk_in_range(n as nat, k as nat, i as nat);
    }
    let size = n / k;
    let lo = i * size;
    let hi = if i + 1 == k {
        n
    } else {
        (i + 1) * size
    };
    (lo, hi)
}

/// The aggregation step: field-wise sum of two local triples.
pub fn merge(a: CountTriple, b: CountTriple) -> (r: CountTriple)
    requires
        a.zeros + b.zeros <= usize::MAX,
        a.positives + b.positives <= usize::MAX,
        a.negatives + b.negatives <= usize::MAX,
    ensures
        r.zeros == a.zeros + b.zeros,
        r.positives == a.positives + b.positives,
        r.negatives == a.negatives + b.negatives,
{
    CountTriple {
        zeros: a.zeros + b.zeros,
        positives: a.positives + b.positives,
        negatives: a.negatives + b.negatives,
    }
}

/// Field-wise sums of a sequence of local triples.
pub open spec fn sum_zeros(s: Seq<CountTriple>) -> int
    decreases s.len(),
{
    if s.len() == 0 {
        0
    } else {
        sum_zeros(s.drop_last()) + s.last().zeros
    }
}

pub open spec fn sum_positives(s: Seq<CountTriple>) -> int
    decreases s.len(),
{
    if s.len() == 0 {
        0
    } else {
        sum_positives(s.drop_last()) + s.last().positives
    }
}

pub open spec fn sum_negatives(s: Seq<CountTriple>) -> int
    decreases s.len(),
{
    if s.len() == 0 {
        0
    } else {
        sum_negatives(s.drop_last()) + s.last().negatives
    }
}

/// The summands are non-negative, so every prefix sum is bounded by the sum
/// of the whole sequence.
proof fn lemma_sums_prefix_le(s: Seq<CountTriple>, j: int)
    requires
        0 <= j <= s.len(),
    ensures
        sum_zeros(s.subrange(0, j)) <= sum_zeros(s),
        sum_positives(s.subrange(0, j)) <= sum_positives(s),
        sum_negatives(s.subrange(0, j)) <= sum_negatives(s),
    decreases s.len(),
{
    if j == s.len() {
        assert(s.subrange(0, j) =~= s);
    } else {
        assert(s.subrange(0, j) =~= s.drop_last().subrange(0, j));
        lemma_sums_prefix_le(s.drop_last(), j);
    }
}

/// The aggregator for a whole set of worker results: the field-wise sum of
/// every local triple, or `None` exactly when one of the three sums does not
/// fit in `usize`. A missing worker result can never be mistaken for a zero
/// contribution: every element of `parts` enters the sum.
pub fn merge_all(parts: &Vec<CountTriple>) -> (r: Option<CountTriple>)
    ensures
        match r {
            Some(t) => {
                &&& t.zeros == sum_zeros(parts@)
                &&& t.positives == sum_positives(parts@)
                &&& t.negatives == sum_negatives(parts@)
            },
            None => {
                ||| sum_zeros(parts@) > usize::MAX
                ||| sum_positives(parts@) > usize::MAX
                ||| sum_negatives(parts@) > usize::MAX
            },
        },
{
    let mut acc = CountTriple { zeros: 0, positives: 0, negatives: 0 };
    let mut j: usize = 0;
    proof {
        assert(parts@.subrange(0, 0) =~= Seq::<CountTriple>::empty());
    }
    while j < parts.len()
        invariant
            j <= parts@.len(),
            acc.zeros == sum_zeros(parts@.subrange(0, j as int)),
            acc.positives == sum_positives(parts@.subrange(0, j as int)),
            acc.negatives == sum_negatives(parts@.subrange(0, j as int)),
        decreases parts@.len() - j,
    {
        let p = parts[j];
        proof {
            let next = parts@.subrange(0, j + 1);
            assert(next.drop_last() =~= parts@.subrange(0, j as int));
            lemma_sums_prefix_le(parts@, j + 1);
        }
        if p.zeros > usize::MAX - acc.zeros || p.positives > usize::MAX - acc.positives
            || p.negatives > usize::MAX - acc.negatives {
            return None;
        }
        acc = merge(acc, p);
        j = j + 1;
    }
    proof {
        assert(parts@.subrange(0, parts@.len() as int) =~= parts@);
    }
    Some(acc)
}

/// The parallel counter's partition-count-merge pipeline: split the index
/// range into `num_threads` chunks, count each chunk independently, and merge
/// the local triples in order. The result is exactly the sequential
/// classification of the whole array — so a counter built from these pieces
/// must agree with the sequential counter on every input.
pub fn count_elements_multi(data: &Vec<i32>, num_threads: usize) -> (r: CountTriple)
    requires
        1 <= num_threads,
    ensures
        r.is_count_of(data@),
        r.total() == data@.len(),
{
    let n = data.len();
    let k = num_threads;
    let mut acc = CountTriple { zeros: 0, positives: 0, negatives: 0 };
    let mut i: usize = 0;
    proof {
        assert(data@.subrange(0, 0) =~= Seq::<i32>::empty());
    }
    while i < k
        invariant
            i <= k,
            1 <= k,
            n == data@.len(),
            i < k ==> acc.is_count_of(
                data@.subrange(0, chunk_lo(n as nat, k as nat, i as nat) as int),
            ),
            i == k ==> acc.is_count_of(data@),
        decreases k - i,
    {
        let (lo, hi) = chunk_bounds(n, k, i);
        let part = count_range(data, lo, hi);
        proof {
            let whole = data@.subrange(0, hi as int);
            let front = data@.subrange(0, lo as int);
            let back = data@.subrange(lo as int, hi as int);
            assert(whole =~= front + back);
            lemma_count_where_add(front, back, zero_pred());
            lemma_count_where_add(front, back, positive_pred());
            lemma_count_where_add(front, back, negative_pred());
            lemma_count_where_le_len(whole, zero_pred());
            lemma_count_where_le_len(whole, positive_pred());
            lemma_count_where_le_len(whole, negative_pred());
        }
        acc = merge(acc, part);
        proof {
            if i + 1 < k {
                assert(chunk_hi(n as nat, k as nat, i as nat) == chunk_lo(
                    n as nat,
                    k as nat,
                    (i + 1) as nat,
                ));
            } else {
                assert(data@.subrange(0, n as int) =~= data@);
            }
        }
        i = i + 1;
    }
    proof {
        crate::triple::lemma_counts_partition(data@);
    }
    acc
}

} // verus!
