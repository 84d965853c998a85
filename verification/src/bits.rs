//! Bit strings read most significant bit first.

use vstd::prelude::*;

verus! {

/// Every element is 0 or 1.
pub open spec fn is_bits(bits: Seq<nat>) -> bool {
    forall|i: int| 0 <= i < bits.len() ==> #[trigger] bits[i] <= 1
}

/// The number that `bits` spell, the first bit being the most significant.
pub open spec fn bits_value(bits: Seq<nat>) -> nat
    decreases bits.len(),
{
    if bits.len() == 0 {
        0
    } else {
        2 * bits_value(bits.drop_last()) + bits.last()
    }
}

/// Two to the power `n`.
pub open spec fn two_pow(n: nat) -> nat
    decreases n,
{
    if n == 0 {
        1
    } else {
        2 * two_pow((n - 1) as nat)
    }
}

/// Appending one bit doubles the value and adds the bit.
pub proof fn lemma_bits_value_push(bits: Seq<nat>, b: nat)
    ensures
        bits_value(bits.push(b)) == 2 * bits_value(bits) + b,
{
    assert(bits.push(b).drop_last() =~= bits);
}

/// `n` bits spell a number below two to the power `n`.
pub proof fn lemma_bits_value_bound(bits: Seq<nat>)
    requires
        is_bits(bits),
    ensures
        bits_value(bits) < two_pow(bits.len()),
    decreases bits.len(),
{
    if bits.len() > 0 {
        lemma_bits_value_bound(bits.drop_last());
    }
}

/// A larger exponent gives no smaller power of two.
pub proof fn lemma_two_pow_monotonic(a: nat, b: nat)
    requires
        a <= b,
    ensures
        two_pow(a) <= two_pow(b),
    decreases b,
{
    if a < b {
        lemma_two_pow_monotonic(a, (b - 1) as nat);
    }
}

/// Shifts `acc` left by one place and puts `bit` in the place that opens.
pub fn shift_in(acc: u32, bit: u32) -> (r: u32)
    requires
        acc <= 0x7fff_ffff,
        bit <= 1,
    ensures
        r == 2 * acc + bit,
{
    assert(((acc << 1u32) | bit) == 2 * acc + bit) by (bit_vector)
        requires
            acc <= 0x7fff_ffff,
            bit <= 1,
    ;
    (acc << 1u32) | bit
}

} // verus!
