//! The threshold decision for one compared pair, and the tally over a whole
//! schedule of compared pairs.

use vstd::prelude::*;

verus! {

/// Bit pattern of the squared proximity threshold, an IEEE 754
/// single-precision value: `0x3E80_0000` encodes one quarter, the square of
/// the linear threshold of one half.  The threshold is a fixed constant of
/// the benchmark, not a configurable input.
pub const PROXIMITY_THRESHOLD_SQ_BITS: u32 = 0x3E80_0000;

/// Whether a squared distance, given as the bit pattern of a single-precision
/// value, counts as proximate: strictly below the threshold.
///
/// A sum of squares is never negative and never the negative zero, and IEEE
/// 754 orders nonnegative single-precision values exactly as their bit
/// patterns order as unsigned integers (a quiet NaN's pattern lies above
/// every finite value's, so a degenerate input still fails the test, as it
/// would under a floating-point comparison).  The strict `<` below is
/// therefore the strict `< threshold` test on the distances themselves:
/// a squared distance exactly at the threshold does not count.
pub open spec fn proximate(dist_sq_bits: u32) -> bool {
    dist_sq_bits < PROXIMITY_THRESHOLD_SQ_BITS
}

/// The executable threshold decision.
///
/// The second clause records the boundary case on its own: a squared
/// distance exactly at the threshold is not a proximate pair.
pub fn is_proximate(dist_sq_bits: u32) -> (r: bool)
    ensures
        r == proximate(dist_sq_bits),
        dist_sq_bits == PROXIMITY_THRESHOLD_SQ_BITS ==> !r,
{
    dist_sq_bits < PROXIMITY_THRESHOLD_SQ_BITS
}

/// How many entries of a sequence of squared distances count as proximate.
pub open spec fn proximate_count(dists: Seq<u32>) -> nat
    decreases dists.len(),
{
    if dists.len() == 0 {
        0
    } else {
        proximate_count(dists.drop_last()) + (if proximate(dists.last()) {
            1nat
        } else {
            0nat
        })
    }
}

/// Counts the proximate entries among the given squared distances, one entry
/// per compared pair of the schedule that produced them.
pub fn count_proximate_pairs(dist_sq_bits: &Vec<u32>) -> (count: usize)
    ensures
        count == proximate_count(dist_sq_bits@),
{
    let n: usize = dist_sq_bits.len();
    let mut count: usize = 0;
    let mut idx: usize = 0;
    while idx < n
        invariant
            idx <= n,
            n == dist_sq_bits@.len(),
            count <= idx,
            count == proximate_count(dist_sq_bits@.take(idx as int)),
        decreases n - idx,
    {
        proof {
            let taken = dist_sq_bits@.take(idx as int + 1);
            assert(taken.drop_last() =~= dist_sq_bits@.take(idx as int));
            assert(taken.last() == dist_sq_bits@[idx as int]);
        }
        if is_proximate(dist_sq_bits[idx]) {
            count = count + 1;
        }
        idx = idx + 1;
    }
    proof {
        assert(dist_sq_bits@.take(n as int) =~= dist_sq_bits@);
    }
    count
}

} // verus!
