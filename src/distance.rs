//! Squared Euclidean distance between quantized embeddings.

use vstd::prelude::*;

verus! {

/// Sum of squared component differences over the first `n` components.
pub open spec fn sq_dist_prefix(a: Seq<i32>, b: Seq<i32>, n: nat) -> int
    decreases n,
{
    if n == 0 {
        0
    } else {
        let d = a[n - 1] as int - b[n - 1] as int;
        sq_dist_prefix(a, b, (n - 1) as nat) + d * d
    }
}

/// Squared Euclidean distance between two embeddings of the same length.
pub open spec fn sq_dist(a: Seq<i32>, b: Seq<i32>) -> int {
    sq_dist_prefix(a, b, a.len())
}

/// Each squared difference of two `i32` components is below `2^64`.
proof fn lemma_square_bound(d: int)
    requires
        -0x1_0000_0000 < d < 0x1_0000_0000,
    ensures
        0 <= d * d < 0x1_0000_0000_0000_0000,
{
    assert(0 <= d * d < 0x1_0000_0000_0000_0000) by (nonlinear_arith)
        requires
            -0x1_0000_0000 < d < 0x1_0000_0000,
    ;
}

/// The prefix sum is non-negative and grows by less than `2^64` per component.
pub proof fn lemma_prefix_bounds(a: Seq<i32>, b: Seq<i32>, n: nat)
    requires
        n <= a.len(),
        n <= b.len(),
    ensures
        0 <= sq_dist_prefix(a, b, n) <= n * 0x1_0000_0000_0000_0000,
    decreases n,
{
    if n > 0 {
        lemma_prefix_bounds(a, b, (n - 1) as nat);
        lemma_square_bound(a[n - 1] as int - b[n - 1] as int);
        assert((n - 1) * 0x1_0000_0000_0000_0000 + 0x1_0000_0000_0000_0000
            == n * 0x1_0000_0000_0000_0000) by (nonlinear_arith);
    }
}

/// An embedding is at distance zero from itself.
pub proof fn lemma_self_distance_zero(a: Seq<i32>, n: nat)
    requires
        n <= a.len(),
    ensures
        sq_dist_prefix(a, a, n) == 0,
    decreases n,
{
    if n > 0 {
        lemma_self_distance_zero(a, (n - 1) as nat);
    }
}

/// Distance is never negative.
pub proof fn lemma_distance_nonneg(a: Seq<i32>, b: Seq<i32>)
    requires
        a.len() == b.len(),
    ensures
        sq_dist(a, b) >= 0,
{
    lemma_prefix_bounds(a, b, a.len());
}

/// Squared Euclidean distance of two embeddings of equal length.
pub fn squared_distance(a: &Vec<i32>, b: &Vec<i32>) -> (r: u128)
    requires
        a@.len() == b@.len(),
    ensures
        r as int == sq_dist(a@, b@),
{
    let mut acc: u128 = 0;
    let mut i: usize = 0;
    while i < a.len()
        invariant
            i <= a@.len(),
            a@.len() == b@.len(),
            acc as int == sq_dist_prefix(a@, b@, i as nat),
        decreases a@.len() - i,
    {
        let d: i64 = a[i] as i64 - b[i] as i64;
        proof {
            lemma_square_bound(d as int);
            lemma_prefix_bounds(a@, b@, i as nat);
            // A `usize` length is below `2^64`, so the sum stays below `2^128`.
            assert(i < 0x1_0000_0000_0000_0000);
            assert(i * 0x1_0000_0000_0000_0000 + 0x1_0000_0000_0000_0000
                <= 0x1_0000_0000_0000_0000 * 0x1_0000_0000_0000_0000) by (nonlinear_arith)
                requires
                    i < 0x1_0000_0000_0000_0000,
            ;
        }
        let m: i128 = (d as i128) * (d as i128);
        acc = acc + m as u128;
        i = i + 1;
    }
    acc
}

} // verus!
