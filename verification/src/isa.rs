//! The binary instruction format shared by the encoder and the machine.
//!
//! Every instruction is exactly four bytes. Read as a logical big-endian
//! word the fields are `[opcode, operand_a, operand_b, operand_c]`; in the
//! emitted byte stream the word is stored inverted, least-significant
//! logical byte first, so for an instruction starting at byte `p` the
//! opcode sits at `p + 3` and the low immediate byte at `p`. The spec
//! functions here define the arithmetic meaning of the operand fields
//! (16-bit and 24-bit signed immediates, 24-bit addresses, 32-bit stack
//! cells) and the executable helpers are proved against them.

use vstd::prelude::*;

verus! {

pub const OP_NOP: u8 = 0x00;
pub const OP_HALT: u8 = 0xFF;
pub const OP_MOV_RI: u8 = 0x01;
pub const OP_MOV_RR: u8 = 0x17;
pub const OP_ADD_RR: u8 = 0x02;
pub const OP_ADD_RI: u8 = 0x03;
pub const OP_SUB_RR: u8 = 0x04;
pub const OP_SUB_RI: u8 = 0x05;
pub const OP_CMP_RR: u8 = 0x06;
pub const OP_CMP_RI: u8 = 0x18;
pub const OP_JMPG: u8 = 0x07;
pub const OP_JMPL: u8 = 0x08;
pub const OP_JMPGE: u8 = 0x09;
pub const OP_JMPLE: u8 = 0x10;
pub const OP_JMPZ: u8 = 0x14;
pub const OP_JMPNZ: u8 = 0x15;
pub const OP_JMP: u8 = 0x16;
pub const OP_PRINT: u8 = 0x11;
pub const OP_MUL_RI: u8 = 0x12;
pub const OP_MUL_RR: u8 = 0x31;
pub const OP_DIV_RR: u8 = 0x13;
pub const OP_DIV_RI: u8 = 0x32;
pub const OP_MOD_RR: u8 = 0x33;
pub const OP_MOD_RI: u8 = 0x34;
pub const OP_CALL: u8 = 0x19;
pub const OP_RET: u8 = 0x20;
pub const OP_PUSH_I: u8 = 0x21;
pub const OP_POP: u8 = 0x22;
pub const OP_PUSH_R: u8 = 0x23;
pub const OP_AND_RR: u8 = 0x24;
pub const OP_AND_RI: u8 = 0x25;
pub const OP_OR_RR: u8 = 0x26;
pub const OP_OR_RI: u8 = 0x27;
pub const OP_XOR_RR: u8 = 0x28;
pub const OP_XOR_RI: u8 = 0x29;
pub const OP_NOT: u8 = 0x30;
pub const OP_LOAD_DATA: u8 = 0x35;
pub const OP_CMP_DATA: u8 = 0x36;

/// Inclusive range of the 16-bit signed immediates.
pub const IMM16_MIN: i32 = -32768;
pub const IMM16_MAX: i32 = 32767;

/// Inclusive range of the 24-bit signed immediate of the push instruction.
pub const IMM24_MIN: i32 = -8388608;
pub const IMM24_MAX: i32 = 8388607;

/// Largest statement index that fits in a 24-bit address field.
pub const ADDR24_MAX: usize = 0xFF_FFFF;

/// The four bytes of one instruction as they stand in the byte stream:
/// low immediate byte first, opcode last.
pub open spec fn enc4(op: u8, a: u8, b: u8, c: u8) -> Seq<u8> {
    seq![c, b, a, op]
}

// 16-bit signed immediates, stored as [high, low] in operand bytes b and c.

pub open spec fn sign_ext16(hi: u8, lo: u8) -> i32 {
    if hi * 256 + lo >= 0x8000 {
        (hi * 256 + lo - 0x10000) as i32
    } else {
        (hi * 256 + lo) as i32
    }
}

/// The value of an in-range 16-bit immediate as an unsigned bit pattern.
pub open spec fn imm16_bits(v: i32) -> int {
    if v < 0 {
        v + 0x10000
    } else {
        v as int
    }
}

pub open spec fn imm16_hi(v: i32) -> u8 {
    (imm16_bits(v) / 0x100) as u8
}

pub open spec fn imm16_lo(v: i32) -> u8 {
    (imm16_bits(v) % 0x100) as u8
}

proof fn lemma_div_mod_decompose(x: int, d: int)
    requires
        0 <= x,
        0 < d,
    ensures
        x == d * (x / d) + x % d,
        0 <= x % d < d,
        x / d <= x,
{
    vstd::arithmetic::div_mod::lemma_fundamental_div_mod(x, d);
    vstd::arithmetic::div_mod::lemma_remainder_lower(x, d);
    vstd::arithmetic::div_mod::lemma_remainder_upper(x, d);
    vstd::arithmetic::div_mod::lemma_div_nonincreasing(x, d);
    vstd::arithmetic::div_mod::lemma_div_pos_is_pos(x, d);
}

/// Encoding a 16-bit immediate into its two operand bytes and
/// sign-extending them back yields the original value.
pub proof fn lemma_imm16_round_trip(v: i32)
    requires
        IMM16_MIN <= v <= IMM16_MAX,
    ensures
        sign_ext16(imm16_hi(v), imm16_lo(v)) == v,
{
    let u = imm16_bits(v);
    lemma_div_mod_decompose(u, 0x100);
    assert(u / 0x100 < 0x100) by {
        if u / 0x100 >= 0x100 {
            vstd::arithmetic::div_mod::lemma_fundamental_div_mod(u, 0x100);
        }
    }
}

// 24-bit fields: either a statement index (jump and call targets) or the
// signed immediate of the push instruction, stored in operand bytes a, b, c.

pub open spec fn addr24_val(a: u8, b: u8, c: u8) -> int {
    a * 0x1_0000 + b * 0x100 + c
}

pub open spec fn sign_ext24(a: u8, b: u8, c: u8) -> i32 {
    if addr24_val(a, b, c) >= 0x80_0000 {
        (addr24_val(a, b, c) - 0x100_0000) as i32
    } else {
        addr24_val(a, b, c) as i32
    }
}

/// The bit pattern of an in-range 24-bit signed immediate.
pub open spec fn imm24_bits(v: i32) -> int {
    if v < 0 {
        v + 0x100_0000
    } else {
        v as int
    }
}

pub open spec fn addr24_b2(i: int) -> u8 {
    (i / 0x1_0000) as u8
}

pub open spec fn addr24_b1(i: int) -> u8 {
    ((i % 0x1_0000) / 0x100) as u8
}

pub open spec fn addr24_b0(i: int) -> u8 {
    ((i % 0x1_0000) % 0x100) as u8
}

/// Splitting a 24-bit value into three operand bytes and reading them back
/// as a 24-bit address yields the original value.
pub proof fn lemma_addr24_round_trip(i: int)
    requires
        0 <= i < 0x100_0000,
    ensures
        addr24_val(addr24_b2(i), addr24_b1(i), addr24_b0(i)) == i,
{
    lemma_div_mod_decompose(i, 0x1_0000);
    lemma_div_mod_decompose(i % 0x1_0000, 0x100);
}

// 32-bit stack cells, stored most-significant byte first.

pub open spec fn i32_as_u32(v: i32) -> u32 {
    if v < 0 {
        (v + 0x1_0000_0000) as u32
    } else {
        v as u32
    }
}

pub open spec fn u32_as_i32(u: u32) -> i32 {
    if u >= 0x8000_0000 {
        (u - 0x1_0000_0000) as i32
    } else {
        u as i32
    }
}

pub proof fn lemma_i32_u32_round_trip(v: i32)
    ensures
        u32_as_i32(i32_as_u32(v)) == v,
{
}

pub open spec fn u32_be0(u: u32) -> u8 {
    (u / 0x100_0000) as u8
}

pub open spec fn u32_be1(u: u32) -> u8 {
    ((u % 0x100_0000) / 0x1_0000) as u8
}

pub open spec fn u32_be2(u: u32) -> u8 {
    (((u % 0x100_0000) % 0x1_0000) / 0x100) as u8
}

pub open spec fn u32_be3(u: u32) -> u8 {
    (((u % 0x100_0000) % 0x1_0000) % 0x100) as u8
}

pub open spec fn be_word(b0: u8, b1: u8, b2: u8, b3: u8) -> u32 {
    (b0 * 0x100_0000 + b1 * 0x1_0000 + b2 * 0x100 + b3) as u32
}

/// Splitting a 32-bit word into its four big-endian bytes and reassembling
/// them yields the original word.
pub proof fn lemma_be_word_round_trip(u: u32)
    ensures
        be_word(u32_be0(u), u32_be1(u), u32_be2(u), u32_be3(u)) == u,
{
    lemma_div_mod_decompose(u as int, 0x100_0000);
    lemma_div_mod_decompose(u as int % 0x100_0000, 0x1_0000);
    lemma_div_mod_decompose((u as int % 0x100_0000) % 0x1_0000, 0x100);
}

/// The value of the word that four stream-ordered bytes form, low byte first.
pub open spec fn le_word(b0: u8, b1: u8, b2: u8, b3: u8) -> u32 {
    (b0 + b1 * 0x100 + b2 * 0x1_0000 + b3 * 0x100_0000) as u32
}

// Executable counterparts, each proved against its spec function.

pub fn sign_extend16(hi: u8, lo: u8) -> (r: i32)
    ensures
        r == sign_ext16(hi, lo),
{
    let v: i32 = (hi as i32) * 256 + (lo as i32);
    if v >= 0x8000 {
        v - 0x10000
    } else {
        v
    }
}

pub fn sign_extend24(a: u8, b: u8, c: u8) -> (r: i32)
    ensures
        r == sign_ext24(a, b, c),
{
    let v: i32 = (a as i32) * 0x1_0000 + (b as i32) * 0x100 + (c as i32);
    if v >= 0x80_0000 {
        v - 0x100_0000
    } else {
        v
    }
}

/// A data byte read into a register, sign-extended from 8 bits.
pub open spec fn sign_ext8(b: u8) -> i32 {
    if b >= 0x80 {
        (b - 0x100) as i32
    } else {
        b as i32
    }
}

pub fn sign_extend8(b: u8) -> (r: i32)
    ensures
        r == sign_ext8(b),
{
    if b >= 0x80 {
        (b as i32) - 0x100
    } else {
        b as i32
    }
}

pub fn split_imm16(v: i32) -> (r: (u8, u8))
    requires
        IMM16_MIN <= v <= IMM16_MAX,
    ensures
        r.0 == imm16_hi(v),
        r.1 == imm16_lo(v),
{
    let u: i32 = if v < 0 {
        v + 0x10000
    } else {
        v
    };
    proof {
        lemma_div_mod_decompose(u as int, 0x100);
    }
    (((u / 0x100) % 0x100) as u8, (u % 0x100) as u8)
}

pub fn split_imm24(v: i32) -> (r: (u8, u8, u8))
    requires
        IMM24_MIN <= v <= IMM24_MAX,
    ensures
        r.0 == addr24_b2(imm24_bits(v)),
        r.1 == addr24_b1(imm24_bits(v)),
        r.2 == addr24_b0(imm24_bits(v)),
{
    let u: i32 = if v < 0 {
        v + 0x100_0000
    } else {
        v
    };
    proof {
        lemma_div_mod_decompose(u as int, 0x1_0000);
        lemma_div_mod_decompose(u as int % 0x1_0000, 0x100);
    }
    ((u / 0x1_0000) as u8, ((u % 0x1_0000) / 0x100) as u8, ((u % 0x1_0000) % 0x100) as u8)
}

pub fn split_addr24(i: usize) -> (r: (u8, u8, u8))
    requires
        i <= ADDR24_MAX,
    ensures
        r.0 == addr24_b2(i as int),
        r.1 == addr24_b1(i as int),
        r.2 == addr24_b0(i as int),
{
    proof {
        lemma_div_mod_decompose(i as int, 0x1_0000);
        lemma_div_mod_decompose(i as int % 0x1_0000, 0x100);
    }
    ((i / 0x1_0000) as u8, ((i % 0x1_0000) / 0x100) as u8, ((i % 0x1_0000) % 0x100) as u8)
}

pub fn u32_of_i32(v: i32) -> (r: u32)
    ensures
        r == i32_as_u32(v),
{
    if v >= 0 {
        v as u32
    } else {
        ((v as i64) + 0x1_0000_0000) as u32
    }
}

pub fn i32_of_u32(u: u32) -> (r: i32)
    ensures
        r == u32_as_i32(u),
{
    if u < 0x8000_0000 {
        u as i32
    } else {
        ((u as i64) - 0x1_0000_0000) as i32
    }
}

pub fn be_bytes_of_u32(u: u32) -> (r: (u8, u8, u8, u8))
    ensures
        r.0 == u32_be0(u),
        r.1 == u32_be1(u),
        r.2 == u32_be2(u),
        r.3 == u32_be3(u),
{
    proof {
        lemma_div_mod_decompose(u as int, 0x100_0000);
        lemma_div_mod_decompose(u as int % 0x100_0000, 0x1_0000);
        lemma_div_mod_decompose((u as int % 0x100_0000) % 0x1_0000, 0x100);
    }
    let r0: u32 = u % 0x100_0000;
    let r1: u32 = r0 % 0x1_0000;
    ((u / 0x100_0000) as u8, (r0 / 0x1_0000) as u8, (r1 / 0x100) as u8, (r1 % 0x100) as u8)
}

pub fn u32_of_be_bytes(b0: u8, b1: u8, b2: u8, b3: u8) -> (r: u32)
    ensures
        r == be_word(b0, b1, b2, b3),
{
    (b0 as u32) * 0x100_0000 + (b1 as u32) * 0x1_0000 + (b2 as u32) * 0x100 + (b3 as u32)
}

} // verus!