//! Values of the machine. A value is a double-precision number, held as
//! the 64 bits of its IEEE 754 encoding: the library stores, moves and
//! negates these words, and leaves rounding arithmetic to its caller.

use vstd::prelude::*;

verus! {

/// The encoding of one double-precision number.
pub type Value = u64;

/// The sign bit of the encoding.
pub const SIGN_BIT: u64 = 0x8000_0000_0000_0000;

/// The encoding of the arithmetic negation: the same number with the
/// opposite sign.
pub open spec fn negated(v: Value) -> Value {
    v ^ SIGN_BIT
}

/// Negates a value by flipping its sign bit.
pub fn negate(v: Value) -> (r: Value)
    ensures
        r == negated(v),
{
    v ^ SIGN_BIT
}

/// Negating twice gives the value back, and negating once changes the
/// sign bit and nothing else.
pub proof fn lemma_negated_twice(v: Value)
    ensures
        negated(negated(v)) == v,
        negated(v) ^ v == SIGN_BIT,
{
    assert((v ^ 0x8000_0000_0000_0000u64) ^ 0x8000_0000_0000_0000u64 == v) by (bit_vector);
    assert((v ^ 0x8000_0000_0000_0000u64) ^ v == 0x8000_0000_0000_0000u64) by (bit_vector);
}

} // verus!
