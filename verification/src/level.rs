//! Order of floating-point numbers, read off their bit patterns.
//!
//! The bit pattern of an IEEE-754 number is its sign in the top bit and its magnitude
//! below, and magnitudes compare as their patterns do. So levels and times can be
//! compared, and the greater one picked, without any arithmetic on them.
use vstd::prelude::*;

verus! {

/// The pattern of the single-precision number without its sign.
pub open spec fn magnitude(pattern: u32) -> u32 {
    pattern % 0x8000_0000
}

/// The single-precision pattern stands for no number.
pub open spec fn is_nan(pattern: u32) -> bool {
    magnitude(pattern) > 0x7f80_0000
}

/// Integer in whose order single-precision numbers are. The two zeros share one.
pub open spec fn rank(pattern: u32) -> int {
    if pattern < 0x8000_0000 {
        pattern as int
    } else {
        -(magnitude(pattern) as int)
    }
}

/// The first number is greater than the second.
pub open spec fn above(a: u32, b: u32) -> bool {
    !is_nan(a) && !is_nan(b) && rank(a) > rank(b)
}

/// The first number is not less than the second.
pub open spec fn reaches(a: u32, b: u32) -> bool {
    !is_nan(a) && !is_nan(b) && rank(a) >= rank(b)
}

/// The greater of two numbers; a pattern that stands for none gives way.
pub open spec fn greater(a: u32, b: u32) -> u32 {
    if is_nan(a) || above(b, a) {
        b
    } else {
        a
    }
}

/// The same for double precision: the first number is greater than the second.
pub open spec fn later(a: u64, b: u64) -> bool {
    !time_is_nan(a) && !time_is_nan(b) && time_rank(a) > time_rank(b)
}

/// The double-precision pattern stands for no number.
pub open spec fn time_is_nan(pattern: u64) -> bool {
    pattern % 0x8000_0000_0000_0000 > 0x7ff0_0000_0000_0000
}

/// Integer in whose order double-precision numbers are.
pub open spec fn time_rank(pattern: u64) -> int {
    if pattern < 0x8000_0000_0000_0000 {
        pattern as int
    } else {
        -((pattern % 0x8000_0000_0000_0000) as int)
    }
}

pub fn take_magnitude(pattern: u32) -> (result: u32)
    ensures
        result == magnitude(pattern),
{
    pattern % 0x8000_0000
}

fn level_rank(pattern: u32) -> (result: i64)
    ensures
        result == rank(pattern),
{
    if pattern < 0x8000_0000 {
        pattern as i64
    } else {
        -((pattern % 0x8000_0000) as i64)
    }
}

fn not_a_number(pattern: u32) -> (result: bool)
    ensures
        result == is_nan(pattern),
{
    pattern % 0x8000_0000 > 0x7f80_0000
}

pub fn is_above(a: u32, b: u32) -> (result: bool)
    ensures
        result == above(a, b),
{
    !not_a_number(a) && !not_a_number(b) && level_rank(a) > level_rank(b)
}

pub fn does_reach(a: u32, b: u32) -> (result: bool)
    ensures
        result == reaches(a, b),
{
    !not_a_number(a) && !not_a_number(b) && level_rank(a) >= level_rank(b)
}

pub fn take_greater(a: u32, b: u32) -> (result: u32)
    ensures
        result == greater(a, b),
{
    if not_a_number(a) || is_above(b, a) {
        b
    } else {
        a
    }
}

pub fn is_later(a: u64, b: u64) -> (result: bool)
    ensures
        result == later(a, b),
{
    let no_time: u64 = 0x7ff0_0000_0000_0000;
    let a_magnitude: u64 = a % 0x8000_0000_0000_0000;
    let b_magnitude: u64 = b % 0x8000_0000_0000_0000;
    if a_magnitude > no_time || b_magnitude > no_time {
        false
    } else if a < 0x8000_0000_0000_0000 {
        b < a_magnitude || (b >= 0x8000_0000_0000_0000 && (a_magnitude > 0 || b_magnitude > 0))
    } else {
        b >= 0x8000_0000_0000_0000 && b_magnitude > a_magnitude
    }
}

/// The greater of two numbers is not less than either of them, and is one of them.
pub proof fn greater_is_an_upper_bound(a: u32, b: u32)
    ensures
        !is_nan(a) ==> reaches(greater(a, b), a),
        !is_nan(b) ==> reaches(greater(a, b), b),
        greater(a, b) == a || greater(a, b) == b,
{
}

/// Patterns without the sign compare as the integers they are, patterns with the sign the
/// other way round, and a number without the sign is above every one with it but for the
/// two zeros, which are equal.
pub proof fn levels_compare_by_sign_and_magnitude(a: u32, b: u32)
    requires
        a <= 0x7f80_0000 || 0x8000_0000 <= a <= 0xff80_0000,
        b <= 0x7f80_0000 || 0x8000_0000 <= b <= 0xff80_0000,
    ensures
        a < 0x8000_0000 && b < 0x8000_0000 ==> (above(a, b) <==> a > b),
        a >= 0x8000_0000 && b >= 0x8000_0000 ==> (above(a, b) <==> a < b),
        a < 0x8000_0000 && b >= 0x8000_0000 ==> (above(a, b) <==> !(a == 0 && b == 0x8000_0000)),
        a >= 0x8000_0000 && b < 0x8000_0000 ==> !above(a, b),
        reaches(a, b) <==> !above(b, a),
        greater(a, b) == a || greater(a, b) == b,
        !above(a, greater(a, b)) && !above(b, greater(a, b)),
{
}

/// What is no number compares with nothing and gives way to any other.
pub proof fn no_number_compares_with_nothing(a: u32, b: u32)
    requires
        0x7f80_0000 < a < 0x8000_0000 || 0xff80_0000 < a,
    ensures
        !above(a, b) && !above(b, a),
        !reaches(a, b) && !reaches(b, a),
        greater(a, b) == b,
        !(0x7f80_0000 < b < 0x8000_0000 || 0xff80_0000 < b) ==> greater(b, a) == b,
{
}

/// The order is one: it is reflexive on numbers, and what reaches a number reaches all that
/// this reaches.
pub proof fn levels_are_ordered(a: u32, b: u32, c: u32)
    ensures
        reaches(a, b) && reaches(b, c) ==> reaches(a, c),
        above(a, b) && above(b, c) ==> above(a, c),
        (a <= 0x7f80_0000 || 0x8000_0000 <= a <= 0xff80_0000) ==> reaches(a, a),
{
}

/// A magnitude is the number itself or the number with its sign taken away.
pub proof fn a_magnitude_has_no_sign(a: u32)
    ensures
        a < 0x8000_0000 ==> magnitude(a) == a,
        a >= 0x8000_0000 ==> magnitude(a) == a - 0x8000_0000,
{
}

/// Times compare as levels do.
pub proof fn times_compare_by_sign_and_magnitude(a: u64, b: u64)
    requires
        a <= 0x7ff0_0000_0000_0000 || 0x8000_0000_0000_0000 <= a <= 0xfff0_0000_0000_0000,
        b <= 0x7ff0_0000_0000_0000 || 0x8000_0000_0000_0000 <= b <= 0xfff0_0000_0000_0000,
    ensures
        a < 0x8000_0000_0000_0000 && b < 0x8000_0000_0000_0000 ==> (later(a, b) <==> a > b),
        a >= 0x8000_0000_0000_0000 && b >= 0x8000_0000_0000_0000 ==> (later(a, b) <==> a < b),
        a < 0x8000_0000_0000_0000 && b >= 0x8000_0000_0000_0000 ==> (later(a, b) <==> !(a == 0 && b
            == 0x8000_0000_0000_0000)),
        a >= 0x8000_0000_0000_0000 && b < 0x8000_0000_0000_0000 ==> !later(a, b),
{
}

/// What is no time is neither later nor earlier than any.
pub proof fn no_time_compares_with_nothing(a: u64, b: u64)
    requires
        0x7ff0_0000_0000_0000 < a < 0x8000_0000_0000_0000 || 0xfff0_0000_0000_0000 < a,
    ensures
        !later(a, b) && !later(b, a),
{
}

} // verus!
