//! Instruction decoding: a 16-bit instruction word, fetched as two
//! consecutive bytes (big-endian), is split into its four 4-bit nibbles
//! and the derived immediate fields.
//!
//! Decoding is a pure function of the two bytes: it touches no engine
//! state and cannot fail, though not every pattern names a defined
//! operation.

use vstd::prelude::*;

verus! {

/// High nibble of a byte.
pub open spec fn hi_nib(b: u8) -> u8 {
    b >> 4
}

/// Low nibble of a byte.
pub open spec fn lo_nib(b: u8) -> u8 {
    b & 0x0F
}

/// The full 16-bit instruction word formed from its two bytes.
pub open spec fn word_of(b1: u8, b2: u8) -> u16 {
    ((b1 as u16) << 8) | (b2 as u16)
}

/// The 12-bit address/immediate field: low nibble of the first byte
/// followed by the whole second byte.
pub open spec fn addr_of(b1: u8, b2: u8) -> u16 {
    (((b1 & 0x0F) as u16) << 8) | (b2 as u16)
}

/// A decoded instruction: the four nibbles `n1..n4` and the derived
/// fields.  By convention `n2` is the register index `x`, `n3` the
/// register index `y` and `n4` the nibble immediate `n`.
#[derive(Clone, Copy, Debug, PartialEq, Eq, Structural)]
pub struct Instr {
    /// First nibble: the operation class.
    pub n1: u8,
    /// Second nibble: usually a register index (`x`).
    pub n2: u8,
    /// Third nibble: usually a register index (`y`).
    pub n3: u8,
    /// Fourth nibble: usually a small immediate (`n`).
    pub n4: u8,
    /// 8-bit immediate: the whole second byte.
    pub nn: u8,
    /// 12-bit address/immediate.
    pub nnn: u16,
}

impl Instr {
    /// Decode the two bytes of one instruction word.  Every field of the
    /// result is pinned to a function of the bytes alone, so decoding the
    /// same word always yields the same fields, whatever the engine state.
    pub fn decode(b1: u8, b2: u8) -> (ins: Instr)
        ensures
            ins.n1 == hi_nib(b1),
            ins.n2 == lo_nib(b1),
            ins.n3 == hi_nib(b2),
            ins.n4 == lo_nib(b2),
            ins.nn == b2,
            ins.nnn == addr_of(b1, b2),
            ins.n1 < 16,
            ins.n2 < 16,
            ins.n3 < 16,
            ins.n4 < 16,
            ins.nnn < 4096,
    {
        proof {
            assert(b1 >> 4 < 16) by (bit_vector);
            assert(b1 & 0x0F < 16) by (bit_vector);
            assert(b2 >> 4 < 16) by (bit_vector);
            assert(b2 & 0x0F < 16) by (bit_vector);
            assert((((b1 & 0x0F) as u16) << 8) | (b2 as u16) < 4096) by (bit_vector);
        }
        Instr {
            n1: b1 >> 4,
            n2: b1 & 0x0F,
            n3: b2 >> 4,
            n4: b2 & 0x0F,
            nn: b2,
            nnn: (((b1 & 0x0F) as u16) << 8) | (b2 as u16),
        }
    }
}

} // verus!
