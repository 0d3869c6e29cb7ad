//! Instruction mnemonics and their byte encoding.

use vstd::prelude::*;

verus! {

/// The instruction set. `UNKNOWN` stands for every byte that encodes no
/// instruction; it is only ever produced by decoding.
#[allow(non_camel_case_types)]
#[derive(Clone, Copy, Debug, PartialEq, Eq, Structural)]
pub enum OpCode {
    CONSTANT,
    CONSTANT_LONG,
    ADD,
    SUBTRACT,
    MULTIPLY,
    DIVIDE,
    NEGATE,
    RETURN,
    UNKNOWN,
}

impl OpCode {
    /// The byte that encodes this mnemonic. `UNKNOWN` has the byte 8,
    /// which is outside the valid range and decodes to `UNKNOWN` again.
    pub open spec fn byte(self) -> u8 {
        match self {
            OpCode::CONSTANT => 0,
            OpCode::CONSTANT_LONG => 1,
            OpCode::ADD => 2,
            OpCode::SUBTRACT => 3,
            OpCode::MULTIPLY => 4,
            OpCode::DIVIDE => 5,
            OpCode::NEGATE => 6,
            OpCode::RETURN => 7,
            OpCode::UNKNOWN => 8,
        }
    }

    /// The mnemonic that a byte decodes to: total over all bytes.
    pub open spec fn decode(b: u8) -> OpCode {
        if b == 0 {
            OpCode::CONSTANT
        } else if b == 1 {
            OpCode::CONSTANT_LONG
        } else if b == 2 {
            OpCode::ADD
        } else if b == 3 {
            OpCode::SUBTRACT
        } else if b == 4 {
            OpCode::MULTIPLY
        } else if b == 5 {
            OpCode::DIVIDE
        } else if b == 6 {
            OpCode::NEGATE
        } else if b == 7 {
            OpCode::RETURN
        } else {
            OpCode::UNKNOWN
        }
    }

    /// Encodes the mnemonic as its byte.
    pub fn to_byte(self) -> (b: u8)
        ensures
            b == self.byte(),
    {
        match self {
            OpCode::CONSTANT => 0,
            OpCode::CONSTANT_LONG => 1,
            OpCode::ADD => 2,
            OpCode::SUBTRACT => 3,
            OpCode::MULTIPLY => 4,
            OpCode::DIVIDE => 5,
            OpCode::NEGATE => 6,
            OpCode::RETURN => 7,
            OpCode::UNKNOWN => 8,
        }
    }
}

impl From<u8> for OpCode {
    /// Decodes a byte: the bytes 0 to 7 give their mnemonic, every other
    /// byte gives `UNKNOWN`.
    fn from(op: u8) -> (r: OpCode) {
        match op {
            0 => OpCode::CONSTANT,
            1 => OpCode::CONSTANT_LONG,
            2 => OpCode::ADD,
            3 => OpCode::SUBTRACT,
            4 => OpCode::MULTIPLY,
            5 => OpCode::DIVIDE,
            6 => OpCode::NEGATE,
            7 => OpCode::RETURN,
            _ => OpCode::UNKNOWN,
        }
    }
}

impl vstd::std_specs::convert::FromSpecImpl<u8> for OpCode {
    open spec fn obeys_from_spec() -> bool {
        true
    }

    open spec fn from_spec(op: u8) -> OpCode {
        OpCode::decode(op)
    }
}

/// Decoding inverts encoding on every mnemonic, and a decoded byte other
/// than `UNKNOWN` encodes back to the byte it came from.
pub proof fn lemma_decode_inverts_byte(op: OpCode, b: u8)
    ensures
        OpCode::decode(op.byte()) == op,
        OpCode::decode(b) != OpCode::UNKNOWN ==> OpCode::decode(b).byte() == b,
        OpCode::decode(b) == OpCode::UNKNOWN <==> b >= 8,
{
}

} // verus!
