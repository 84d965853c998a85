//! Calls into `maths_rs` and into `std`, each behind a contract that is
//! assumed, not proved.

use vstd::prelude::*;

verus! {

/// `maths_rs::min` on two `u32`. For the integer types the crate forwards to
/// `Ord::min`, so the result is the smaller of the two arguments.
#[verifier::external_body]
pub(crate) fn min_u32(a: u32, b: u32) -> (r: u32)
    ensures
        r == if a <= b { a } else { b },
{
    maths_rs::min(a, b)
}

/// `maths_rs::max` on two `u32`. For the integer types the crate forwards to
/// `Ord::max`, so the result is the larger of the two arguments.
#[verifier::external_body]
pub(crate) fn max_u32(a: u32, b: u32) -> (r: u32)
    ensures
        r == if a >= b { a } else { b },
{
    maths_rs::max(a, b)
}

/// `/=` of a `maths_rs::Vec2<u32>` by a scalar, which divides each component
/// by it with `u32`'s own `/=`. A divisor of zero would panic and is left out.
#[verifier::external_body]
pub(crate) fn div_pair(x: u32, y: u32, d: u32) -> (r: (u32, u32))
    requires
        d != 0,
    ensures
        r.0 == x / d,
        r.1 == y / d,
{
    let mut v = maths_rs::vec::Vec2::new(x, y);
    v /= d;
    (v.x, v.y)
}

/// `String::push` appends the character at the end of the string.
pub assume_specification[ String::push ](s: &mut String, ch: char)
    ensures
        final(s)@ == old(s)@.push(ch),
;

} // verus!
