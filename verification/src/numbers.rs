//! Between unsigned counters and the signed 64-bit integers that the database holds.
use vstd::prelude::*;

verus! {

/// `count` as a signed 64-bit integer: counts of 2^63 and more wrap round to the negative
/// numbers.
pub open spec fn signed_of(count: u64) -> int {
    if count <= i64::MAX {
        count as int
    } else {
        count - 0x1_0000_0000_0000_0000
    }
}

/// Turns a counter into a signed integer.
pub fn to_signed(count: u64) -> (value: i64)
    ensures
        value == signed_of(count),
{
    let value: i64 = #[verifier::truncate]
    (count as i64);
    assert(count <= 0x7fff_ffff_ffff_ffffu64 ==> count as i64 == count) by (bit_vector);
    assert(count > 0x7fff_ffff_ffff_ffffu64 ==> count as i64 == count - 0x1_0000_0000_0000_0000)
        by (bit_vector);
    value
}

/// Turns a signed integer into a counter; a negative one is none.
pub fn to_unsigned(value: i64) -> (count: Option<u64>)
    ensures
        match count {
            Some(c) => value >= 0 && c == value,
            None => value < 0,
        },
{
    if value >= 0 {
        Some(value as u64)
    } else {
        None
    }
}

/// A counter and its signed form are the same 64 bits: they are equal or differ by 2^64, and
/// the signed form lies in the range of signed integers.
pub proof fn law_signed_form_is_the_same_bits(count: u64)
    ensures
        -0x8000_0000_0000_0000 <= signed_of(count) < 0x8000_0000_0000_0000,
        signed_of(count) == count || signed_of(count) + 0x1_0000_0000_0000_0000 == count,
{
}

} // verus!
