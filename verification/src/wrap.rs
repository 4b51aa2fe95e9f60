//! Wrapping 64-bit arithmetic, as the aggregation counters use it.

use vstd::prelude::*;

verus! {

/// `a + b` modulo 2^64.
pub open spec fn add64(a: u64, b: u64) -> u64 {
    if a + b > u64::MAX {
        (a + b - 0x1_0000_0000_0000_0000) as u64
    } else {
        (a + b) as u64
    }
}

/// `b * 512` modulo 2^64: the byte count of `b` 512-byte blocks.
pub open spec fn mul512(b: u64) -> u64 {
    ((b as nat * 512) % 0x1_0000_0000_0000_0000) as u64
}

/// Wrapping addition, pinned to `add64`.
pub fn wrap_add(a: u64, b: u64) -> (r: u64)
    ensures
        r == add64(a, b),
{
    a.wrapping_add(b)
}

/// Wrapping multiplication by 512, pinned to `mul512`.
pub fn wrap_mul512(b: u64) -> (r: u64)
    ensures
        r == mul512(b),
{
    b.wrapping_mul(512)
}

} // verus!
