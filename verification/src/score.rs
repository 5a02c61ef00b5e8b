//! Doubles by their order: an integer that stands to others as its double does.

use vstd::prelude::*;

verus! {

/// The rank of the double 1.
pub const RANK_ONE: i64 = 0x3ff0_0000_0000_0000;

/// The rank of the double 2.
pub const RANK_TWO: i64 = 0x4000_0000_0000_0000;

/// The rank of the double -2.
pub const RANK_MINUS_TWO: i64 = -0x4000_0000_0000_0000;

/// The rank of a double by its bits: its magnitude counted in steps from zero,
/// with its sign. What is no number ranks as zero.
pub open spec fn rank_of(bits: u64) -> i64 {
    let size = if bits >= 0x8000_0000_0000_0000 {
        bits - 0x8000_0000_0000_0000
    } else {
        bits as int
    };
    if size > 0x7ff0_0000_0000_0000 {
        0
    } else if bits >= 0x8000_0000_0000_0000 {
        (-size) as i64
    } else {
        size as i64
    }
}

/// The rank of a double by its bits.
pub fn rank(bits: u64) -> (r: i64)
    ensures
        r == rank_of(bits),
{
    let size: u64 = if bits >= 0x8000_0000_0000_0000 {
        bits - 0x8000_0000_0000_0000
    } else {
        bits
    };
    if size > 0x7ff0_0000_0000_0000 {
        0
    } else if bits >= 0x8000_0000_0000_0000 {
        -(size as i64)
    } else {
        size as i64
    }
}

} // verus!
