//! The data generator: an array of random integers drawn independently from
//! the symmetric inclusive range `[-range, range]`.

use vstd::prelude::*;

verus! {

/// Relies on rand::random_range (the thread-local generator): given the
/// non-empty inclusive range `lo..=hi`, it returns a uniformly drawn value
/// inside it. Nothing more is assumed of a random draw.
#[verifier::external_body]
fn sample_in_range(lo: i32, hi: i32) -> (r: i32)
    requires
        lo <= hi,
    ensures
        lo <= r <= hi,
{
    rand::random_range(lo..=hi)
}

/// Produces an array of exactly `size` elements, each drawn independently
/// from the inclusive range `[-range, range]`. No ordering is guaranteed;
/// each call yields an independent fresh array.
pub fn generate_data(size: usize, range: i32) -> (r: Vec<i32>)
    requires
        0 <= range,
    ensures
        r@.len() == size,
        forall|j: int| 0 <= j < size ==> -(range as int) <= #[trigger] r@[j] <= range as int,
{
    let lo = -range;
    let mut out: Vec<i32> = Vec::new();
    let mut i: usize = 0;
    while i < size
        invariant
            i <= size,
            out@.len() == i,
            lo == -(range as int),
            range >= 0,
            forall|j: int| 0 <= j < i ==> -(range as int) <= #[trigger] out@[j] <= range as int,
        decreases size - i,
    {
        let x = sample_in_range(lo, range);
        out.push(x);
        i = i + 1;
    }
    out
}

} // verus!
