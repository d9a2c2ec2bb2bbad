use vstd::prelude::*;

verus! {

/// A decoded platter. For opcodes below 13, `a`, `b` and `c` are register
/// numbers; for orthography (13), `a` is the target register, `b` the 25-bit
/// immediate value and `c` is 0.
#[derive(Debug, Clone, Copy, PartialEq, Eq, Structural)]
pub struct Instruction {
    pub op: u32,
    pub a: u32,
    pub b: u32,
    pub c: u32,
}

pub const ORTHOGRAPHY: u32 = 13;

/// The immediate field of an orthography platter: bits 0..24.
pub const IMMEDIATE_MASK: u32 = 0x01ff_ffff;

pub open spec fn decoded(w: u32) -> Instruction {
    let op = w >> 28u32;
    if op < 13 {
        Instruction { op, a: (w >> 6u32) & 7u32, b: (w >> 3u32) & 7u32, c: w & 7u32 }
    } else {
        Instruction { op, a: (w >> 25u32) & 7u32, b: w & 0x01ff_ffffu32, c: 0 }
    }
}

/// The register fields of a decoded platter always name one of the eight
/// registers, and the opcode is a 4-bit value.
pub proof fn lemma_decoded_fields(w: u32)
    ensures
        decoded(w).op < 16,
        decoded(w).a < 8,
        decoded(w).b < 8 || decoded(w).op >= 13,
        decoded(w).c < 8,
        decoded(w).op >= 13 ==> decoded(w).b < 0x0200_0000,
{
    assert(w >> 28u32 < 16) by (bit_vector);
    assert((w >> 6u32) & 7u32 < 8) by (bit_vector);
    assert((w >> 3u32) & 7u32 < 8) by (bit_vector);
    assert(w & 7u32 < 8) by (bit_vector);
    assert((w >> 25u32) & 7u32 < 8) by (bit_vector);
    assert(w & 0x01ff_ffffu32 < 0x0200_0000) by (bit_vector);
}

/// Splits a platter into its opcode and operand fields.
pub fn decode(w: u32) -> (i: Instruction)
    ensures
        i == decoded(w),
        i.op < 16,
        i.a < 8,
        i.c < 8,
        i.op < 13 ==> i.b < 8,
{
    proof {
        lemma_decoded_fields(w);
    }
    let op = w >> 28;
    if op < ORTHOGRAPHY {
        Instruction { op, a: (w >> 6) & 7, b: (w >> 3) & 7, c: w & 7 }
    } else {
        Instruction { op, a: (w >> 25) & 7, b: w & IMMEDIATE_MASK, c: 0 }
    }
}

} // verus!
