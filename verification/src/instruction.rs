//! Decoding of 16-bit opcode words into their addressing fields.

use vstd::prelude::*;

verus! {

/// Decoded view of one opcode word.  Every field is carved out of the
/// combined big-endian word `W = byte0 << 8 | byte1`; any 16-bit input
/// decodes to a well-formed record.
#[derive(Clone, Copy, Debug, PartialEq, Eq, Structural)]
pub struct Instruction {
    /// The full word, used for dispatch.
    pub opcode: u16,
    /// `W & 0x0FFF`: 12-bit address or literal.
    pub nnn: u16,
    /// `W & 0x00FF`: 8-bit literal.
    pub nn: u8,
    /// `W & 0x000F`: 4-bit literal.
    pub n: u8,
    /// `(W >> 8) & 0xF`: first register index operand.
    pub x: usize,
    /// `(W >> 4) & 0xF`: second register index operand.
    pub y: usize,
}

/// The 16-bit big-endian word formed by two consecutive memory bytes.
pub open spec fn spec_word(b0: u8, b1: u8) -> u16 {
    ((b0 as u16) << 8u16) | (b1 as u16)
}

/// The decoded record for a word, field by field.
pub open spec fn spec_decode(w: u16) -> Instruction {
    Instruction {
        opcode: w,
        nnn: w & 0x0fff,
        nn: (w & 0x00ff) as u8,
        n: (w & 0x000f) as u8,
        x: ((w >> 8u16) & 0x0f) as usize,
        y: ((w >> 4u16) & 0x0f) as usize,
    }
}

/// The decoded fields stay inside the ranges the handlers index with.
pub open spec fn inst_fields_bounded(inst: Instruction) -> bool {
    &&& inst.nnn <= 0x0fff
    &&& inst.n <= 0x0f
    &&& inst.x < 16
    &&& inst.y < 16
}

/// Decoding never leaves the valid field ranges, whatever the word.
pub proof fn lemma_decode_bounded(w: u16)
    ensures
        inst_fields_bounded(spec_decode(w)),
{
    assert((w & 0x0fff) <= 0x0fff) by (bit_vector);
    assert((w & 0x000f) <= 0x0f) by (bit_vector);
    assert(((w >> 8u16) & 0x0f) < 16) by (bit_vector);
    assert(((w >> 4u16) & 0x0f) < 16) by (bit_vector);
}

impl Instruction {
    /// The all-zero record, used before the first fetch.
    pub fn new() -> (r: Instruction)
        ensures
            r == spec_decode(0),
    {
        proof {
            assert(0u16 & 0x0fff == 0 && 0u16 & 0x00ff == 0 && 0u16 & 0x000f == 0
                && (0u16 >> 8u16) & 0x0f == 0 && (0u16 >> 4u16) & 0x0f == 0) by (bit_vector);
        }
        Instruction { opcode: 0, nnn: 0, nn: 0, n: 0, x: 0, y: 0 }
    }

    /// Splits the word formed by two consecutive memory bytes into its
    /// addressing fields.
    pub fn from(opcode1: u8, opcode2: u8) -> (r: Instruction)
        ensures
            r == spec_decode(spec_word(opcode1, opcode2)),
    {
        let opcode: u16 = ((opcode1 as u16) << 8u16) | (opcode2 as u16);
        Instruction {
            opcode,
            nnn: opcode & 0x0fff,
            nn: (opcode & 0x00ff) as u8,
            n: (opcode & 0x000f) as u8,
            x: ((opcode >> 8u16) & 0x0f) as usize,
            y: ((opcode >> 4u16) & 0x0f) as usize,
        }
    }
}

} // verus!
