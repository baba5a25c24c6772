//! The three-way classification result and its mathematical model:
//! how many elements of a sequence are zero, strictly positive, and
//! strictly negative.

use vstd::prelude::*;

verus! {

/// The result of classifying every element of an array into one of three
/// exclusive buckets by comparison against zero.
#[derive(Clone, Copy, Debug, PartialEq, Eq, Structural)]
pub struct CountTriple {
    pub zeros: usize,
    pub positives: usize,
    pub negatives: usize,
}

/// How many elements of `s` satisfy `p`.
pub open spec fn count_where(s: Seq<i32>, p: spec_fn(i32) -> bool) -> nat
    decreases s.len(),
{
    if s.len() == 0 {
        0
    } else {
        count_where(s.drop_last(), p) + (if p(s.last()) {
            1nat
        } else {
            0nat
        })
    }
}

/// The bucket predicates, shared by every statement about counts so that the
/// same closure term appears everywhere.
pub open spec fn zero_pred() -> spec_fn(i32) -> bool {
    |x: i32| x == 0
}

pub open spec fn positive_pred() -> spec_fn(i32) -> bool {
    |x: i32| x > 0
}

pub open spec fn negative_pred() -> spec_fn(i32) -> bool {
    |x: i32| x < 0
}

pub open spec fn zeros_in(s: Seq<i32>) -> nat {
    count_where(s, zero_pred())
}

pub open spec fn positives_in(s: Seq<i32>) -> nat {
    count_where(s, positive_pred())
}

pub open spec fn negatives_in(s: Seq<i32>) -> nat {
    count_where(s, negative_pred())
}

impl CountTriple {
    /// `self` is exactly the classification of the sequence `s`.
    pub open spec fn is_count_of(self, s: Seq<i32>) -> bool {
        &&& self.zeros == zeros_in(s)
        &&& self.positives == positives_in(s)
        &&& self.negatives == negatives_in(s)
    }

    pub open spec fn total(self) -> int {
        self.zeros + self.positives + self.negatives
    }
}

pub proof fn lemma_count_where_push(s: Seq<i32>, x: i32, p: spec_fn(i32) -> bool)
    ensures
        count_where(s.push(x), p) == count_where(s, p) + (if p(x) {
            1int
        } else {
            0int
        }),
{
    assert(s.push(x).drop_last() =~= s);
}

pub proof fn lemma_count_where_le_len(s: Seq<i32>, p: spec_fn(i32) -> bool)
    ensures
        count_where(s, p) <= s.len(),
    decreases s.len(),
{
    if s.len() > 0 {
        lemma_count_where_le_len(s.drop_last(), p);
    }
}

/// Counting distributes over concatenation: scanning two adjacent pieces and
/// adding the results is the same as scanning the whole.
pub proof fn lemma_count_where_add(a: Seq<i32>, b: Seq<i32>, p: spec_fn(i32) -> bool)
    ensures
        count_where(a + b, p) == count_where(a, p) + count_where(b, p),
    decreases b.len(),
{
    if b.len() == 0 {
        assert(a + b =~= a);
    } else {
        assert((a + b).drop_last() =~= a + b.drop_last());
        assert((a + b).last() == b.last());
        lemma_count_where_add(a, b.drop_last(), p);
    }
}

/// Every element falls in exactly one bucket, so the three counts always sum
/// to the length of the sequence.
pub proof fn lemma_counts_partition(s: Seq<i32>)
    ensures
        zeros_in(s) + positives_in(s) + negatives_in(s) == s.len(),
    decreases s.len(),
{
    if s.len() > 0 {
        lemma_counts_partition(s.drop_last());
    }
}

/// The classification of an array determines the triple: two triples that both
/// count the same sequence are equal, so repeated runs over a fixed array, and
/// any two correct counters, agree field for field.
pub proof fn lemma_count_of_unique(a: CountTriple, b: CountTriple, s: Seq<i32>)
    requires
        a.is_count_of(s),
        b.is_count_of(s),
    ensures
        a == b,
{
}

} // verus!
