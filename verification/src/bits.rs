//! Bit-level facts about the SC0 instruction-word layout.
//!
//! Every instruction word is a 32-bit value.  The field extractors here are
//! the single definition of the layout shared by the assembler (which builds
//! words) and the executor (which takes them apart): opcode in bits 31:27,
//! the immediate flag at bit 24, the alternate immediate flag at bit 20,
//! destination register in bits 23:20, first source register in bits 19:16,
//! second source register in bits 3:0, and a 16-bit constant in bits 15:0.

use vstd::prelude::*;

verus! {

/// Opcode field, bits 31:27.
pub open spec fn op_field(w: u32) -> u32 {
    (w >> 27) & 0x1F
}

/// Destination-register field, bits 23:20.
pub open spec fn dest_field(w: u32) -> u32 {
    (w >> 20) & 0xF
}

/// First-source-register field, bits 19:16.
pub open spec fn src1_field(w: u32) -> u32 {
    (w >> 16) & 0xF
}

/// Second-source-register field, bits 3:0.
pub open spec fn src2_field(w: u32) -> u32 {
    w & 0xF
}

/// The 16-bit constant / displacement field, bits 15:0.
pub open spec fn const_field(w: u32) -> u32 {
    w & 0xFFFF
}

/// Immediate flag for arithmetic/logic/move/load/store words, bit 24.
pub open spec fn imm24_set(w: u32) -> bool {
    w & 0x1000000 != 0
}

/// Alternate immediate flag used by Cmp and Push, bit 20.
pub open spec fn imm20_set(w: u32) -> bool {
    w & 0x100000 != 0
}

/// Register-indirect marker for Jmp/Call: any nonzero bit in the src1 nibble.
pub open spec fn reg_marker_set(w: u32) -> bool {
    w & 0xF0000 != 0
}

/// The three branch condition bits n/z/p at bits 18:16, as a value in 0..8.
pub open spec fn branch_cc_field(w: u32) -> u32 {
    (w & 0x70000) >> 16
}

/// Sign-extend a 16-bit field (given as the low half of a `u32`) to 32 bits.
pub open spec fn sext16(c: u32) -> u32 {
    if c >= 0x8000 {
        (c + 0xFFFF_0000) as u32
    } else {
        c
    }
}

/// The signed value represented by a 32-bit word in two's complement.
pub open spec fn signed32(v: u32) -> int {
    if v >= 0x8000_0000 {
        v - 0x1_0000_0000
    } else {
        v as int
    }
}

/// Reduce an unbounded integer into a 32-bit word, two's-complement style.
pub open spec fn wrap32(x: int) -> u32 {
    (x % 0x1_0000_0000) as u32
}

/// The signed value of the low 16 bits (the field is handed in as a `u32`
/// at most 0xFFFF).
pub open spec fn signed16(v: u32) -> int {
    if v >= 0x8000 {
        v - 0x1_0000
    } else {
        v as int
    }
}

/// A 32-bit reduction stays put below 2^32 and drops one 2^32 above it.
pub proof fn lemma_wrap32_small(x: int)
    requires
        -0x1_0000_0000 < x < 0x2_0000_0000,
    ensures
        x < 0 ==> wrap32(x) == x + 0x1_0000_0000,
        0 <= x < 0x1_0000_0000 ==> wrap32(x) == x,
        x >= 0x1_0000_0000 ==> wrap32(x) == x - 0x1_0000_0000,
{
}

/// Reducing an addend before adding changes nothing modulo 2^32.
pub proof fn lemma_wrap32_add_mod(a: int, b: int)
    ensures
        wrap32(a + wrap32(b)) == wrap32(a + b),
{
    let m = 0x1_0000_0000int;
    vstd::arithmetic::div_mod::lemma_fundamental_div_mod(b, m);
    let k = b / m;
    assert(a + (b % m) == m * (-k) + (a + b));
    vstd::arithmetic::div_mod::lemma_mod_multiples_vanish(-k, a + b, m);
}

/// Reading a word as signed and reducing back is the identity.
pub proof fn lemma_wrap_signed_id(v: u32)
    ensures
        wrap32(signed32(v)) == v,
{
    lemma_wrap32_small(signed32(v));
}

/// Reinterpret a word as its signed value.
pub fn to_signed(v: u32) -> (r: i32)
    ensures
        r as int == signed32(v),
{
    if v >= 0x8000_0000 {
        ((v as i64) - 0x1_0000_0000) as i32
    } else {
        v as i32
    }
}

/// Reduce a signed value back into a word.
pub fn from_signed(v: i32) -> (r: u32)
    ensures
        r == wrap32(v as int),
{
    proof {
        lemma_wrap32_small(v as int);
    }
    if v >= 0 {
        v as u32
    } else {
        ((v as i64) + 0x1_0000_0000) as u32
    }
}

/// Wrapping 32-bit addition.
pub fn add32(a: u32, b: u32) -> (r: u32)
    ensures
        r == wrap32(a + b),
{
    proof {
        lemma_wrap32_small(a + b);
    }
    a.wrapping_add(b)
}

/// Wrapping 32-bit subtraction.
pub fn sub32(a: u32, b: u32) -> (r: u32)
    ensures
        r == wrap32(a - b),
{
    proof {
        lemma_wrap32_small(a - b);
    }
    a.wrapping_sub(b)
}

/// Wrapping 32-bit multiplication.
pub fn mul32(a: u32, b: u32) -> (r: u32)
    ensures
        r == wrap32(a * b),
{
    a.wrapping_mul(b)
}

/// Wrapping 32-bit negation.
pub fn neg32(a: u32) -> (r: u32)
    ensures
        r == wrap32(-(a as int)),
{
    proof {
        lemma_wrap32_small(-(a as int));
    }
    0u32.wrapping_sub(a)
}

/// The magnitude of an integer.
pub open spec fn mag(x: int) -> int {
    if x < 0 {
        -x
    } else {
        x
    }
}

/// Truncating (round-towards-zero) integer division, the rule signed
/// division follows.
pub open spec fn trunc_div(a: int, b: int) -> int {
    let q = mag(a) / mag(b);
    if (a < 0) != (b < 0) {
        -q
    } else {
        q
    }
}

/// Signed 32-bit division with two's-complement wrapping: dividing the
/// most negative value by minus one wraps back to itself.
pub open spec fn sdiv32(a: u32, b: u32) -> u32 {
    wrap32(trunc_div(signed32(a), signed32(b)))
}

/// Executable signed division on words.
pub fn div32(a: u32, b: u32) -> (r: u32)
    requires
        b != 0,
    ensures
        r == sdiv32(a, b),
{
    let a_neg = a >= 0x8000_0000;
    let b_neg = b >= 0x8000_0000;
    let ma: u32 = if a_neg {
        neg32(a)
    } else {
        a
    };
    let mb: u32 = if b_neg {
        neg32(b)
    } else {
        b
    };
    proof {
        lemma_wrap32_small(-(a as int));
        lemma_wrap32_small(-(b as int));
        assert(ma as int == mag(signed32(a)));
        assert(mb as int == mag(signed32(b)));
    }
    let q = ma / mb;
    if a_neg != b_neg {
        neg32(q)
    } else {
        q
    }
}

/// Executable sign extension of the low 16 bits.
pub fn sext16_x(c: u32) -> (r: u32)
    requires
        c <= 0xFFFF,
    ensures
        r == sext16(c),
        signed32(r) == signed16(c),
{
    if c >= 0x8000 {
        c + 0xFFFF_0000
    } else {
        c
    }
}

/// The field extractors stay inside their widths, and the masked-shift
/// forms the decoder computes match them.
pub proof fn lemma_field_bounds(w: u32)
    ensures
        op_field(w) < 32,
        dest_field(w) < 16,
        src1_field(w) < 16,
        src2_field(w) < 16,
        const_field(w) <= 0xFFFF,
        branch_cc_field(w) <= 7,
        sext16(const_field(w)) == if const_field(w) >= 0x8000 {
            (const_field(w) + 0xFFFF_0000) as u32
        } else {
            const_field(w)
        },
{
    assert((w >> 27) & 0x1F < 32 && (w >> 20) & 0xF < 16 && (w >> 16) & 0xF < 16 && w & 0xF < 16
        && w & 0xFFFF <= 0xFFFF && (w & 0x70000) >> 16 <= 7) by (bit_vector);
}

/// A value already inside a nibble passes through the nibble mask.
pub proof fn lemma_nibble_id(x: u32)
    requires
        x < 16,
    ensures
        x & 0xF == x,
{
    assert(x < 16 ==> x & 0xF == x) by (bit_vector);
}

/// Masking keeps a value inside the mask.
pub proof fn lemma_mask_bounds(v: u32)
    ensures
        v & 0xFF <= 0xFF,
        v & 0xFFFF <= 0xFFFF,
{
    assert(v & 0xFF <= 0xFF && v & 0xFFFF <= 0xFFFF) by (bit_vector);
}

/// Assemble one instruction word out of its fields.  `f24` and `f20` are the
/// two immediate flags, as 0-or-1 values.  The bit-20 flag shares its
/// position with the low bit of the destination nibble, so a word never
/// carries both a flag and a destination; the callers that set `f20` pass
/// `d == 0`.
pub open spec fn build_word(op: u32, f24: u32, f20: u32, d: u32, s1: u32, low16: u32) -> u32 {
    (op << 27) | (f24 << 24) | (f20 << 20) | (d << 20) | (s1 << 16) | low16
}

/// Every field of a built word reads back as the value that went in.
pub proof fn lemma_build_word_fields(op: u32, f24: u32, f20: u32, d: u32, s1: u32, low16: u32)
    requires
        op < 32,
        f24 == 0 || f24 == 1,
        f20 == 0 || f20 == 1,
        d < 16,
        s1 < 16,
        low16 <= 0xFFFF,
        f20 == 1 ==> d == 0,
    ensures
        op_field(build_word(op, f24, f20, d, s1, low16)) == op,
        dest_field(build_word(op, f24, f20, d, s1, low16)) == d + f20,
        src1_field(build_word(op, f24, f20, d, s1, low16)) == s1,
        const_field(build_word(op, f24, f20, d, s1, low16)) == low16,
        src2_field(build_word(op, f24, f20, d, s1, low16)) == low16 & 0xF,
        imm24_set(build_word(op, f24, f20, d, s1, low16)) <==> f24 == 1,
        imm20_set(build_word(op, f24, f20, d, s1, low16)) <==> (f20 == 1 || d & 1 == 1),
        reg_marker_set(build_word(op, f24, f20, d, s1, low16)) <==> s1 != 0,
        branch_cc_field(build_word(op, f24, f20, d, s1, low16)) == s1 & 7,
{
    assert(((op << 27) | (f24 << 24) | (f20 << 20) | (d << 20) | (s1 << 16) | low16) >> 27 & 0x1F
        == op && ((op << 27) | (f24 << 24) | (f20 << 20) | (d << 20) | (s1 << 16) | low16) >> 20
        & 0xF == d + f20 && ((op << 27) | (f24 << 24) | (f20 << 20) | (d << 20) | (s1 << 16)
        | low16) >> 16 & 0xF == s1 && ((op << 27) | (f24 << 24) | (f20 << 20) | (d << 20) | (s1
        << 16) | low16) & 0xFFFF == low16 && ((op << 27) | (f24 << 24) | (f20 << 20) | (d << 20) | (
    s1 << 16) | low16) & 0xF == low16 & 0xF && (((op << 27) | (f24 << 24) | (f20 << 20) | (d << 20)
        | (s1 << 16) | low16) & 0x1000000 != 0 <==> f24 == 1) && (((op << 27) | (f24 << 24) | (f20
        << 20) | (d << 20) | (s1 << 16) | low16) & 0x100000 != 0 <==> (f20 == 1 || d & 1 == 1)) && (
    ((op << 27) | (f24 << 24) | (f20 << 20) | (d << 20) | (s1 << 16) | low16) & 0xF0000 != 0 <==> s1
        != 0) && (((op << 27) | (f24 << 24) | (f20 << 20) | (d << 20) | (s1 << 16) | low16)
        & 0x70000) >> 16 == s1 & 7) by (bit_vector)
        requires
            op < 32,
            f24 == 0 || f24 == 1,
            f20 == 0 || f20 == 1,
            d < 16,
            s1 < 16,
            low16 <= 0xFFFF,
            f20 == 1 ==> d == 0,
    ;
}

} // verus!
