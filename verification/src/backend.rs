//! Encoder: turns the statement sequence and symbol table into the binary
//! instruction stream.
//!
//! Every statement becomes exactly one 4-byte instruction — the invariant
//! that lets the symbol table work with statement indices — and statement
//! order is preserved, so instruction `i` of the output is statement `i`.
//! Two-operand forms pick the register-register or register-immediate
//! opcode from the second operand token; 16-bit immediates are parsed as
//! signed decimals and split into high and low bytes; the push immediate
//! accepts a signed 24-bit range; jump and call targets are looked up in
//! the symbol table and stored as statement indices. An unknown label, an
//! out-of-range immediate or a malformed operand token aborts encoding
//! with the matching error. The meaning of encoding is `encode_from`;
//! `CodeGen::gen_` is proved to emit exactly its bytes.

use vstd::prelude::*;

use crate::errors::{AsmError, AsmErrorV, Expected};
use crate::isa::{
    addr24_b0, addr24_b1, addr24_b2, addr24_val, enc4, imm16_hi, imm16_lo, imm24_bits,
    lemma_addr24_round_trip, lemma_imm16_round_trip, sign_ext16, split_addr24, split_imm16,
    split_imm24, ADDR24_MAX, IMM16_MAX, IMM16_MIN, IMM24_MAX, IMM24_MIN, OP_ADD_RI, OP_ADD_RR,
    OP_AND_RI, OP_AND_RR, OP_CALL, OP_CMP_RI, OP_CMP_RR, OP_DIV_RI, OP_DIV_RR, OP_HALT, OP_JMP,
    OP_JMPG, OP_JMPGE, OP_JMPL, OP_JMPLE, OP_JMPNZ, OP_JMPZ, OP_MOD_RI, OP_MOD_RR, OP_MOV_RI,
    OP_MOV_RR, OP_MUL_RI, OP_MUL_RR, OP_NOP, OP_OR_RI, OP_OR_RR, OP_POP, OP_PRINT, OP_PUSH_I,
    OP_PUSH_R, OP_RET, OP_SUB_RI, OP_SUB_RR, OP_XOR_RI, OP_XOR_RR,
};
use crate::parser::{
    lit_of, lookup_sym, parse_from, stmt_views, sym_views, wf_token_stream, Parser, ParsedV,
    StmtV, Stmt, SymEntry, SymEntryV,
};
use crate::scanner::{is_digit, is_register_kind, lex_from, register_id, views_of, Token,
    TokenType, TokenView};

verus! {

// Integer literals: an optional minus sign followed by decimal digits.

pub open spec fn is_int_lit(s: Seq<u8>) -> bool {
    if s.len() == 0 {
        false
    } else if s[0] == 45 {
        s.len() > 1 && (forall|j: int| 1 <= j < s.len() ==> is_digit(#[trigger] s[j]))
    } else {
        forall|j: int| 0 <= j < s.len() ==> is_digit(#[trigger] s[j])
    }
}

pub open spec fn digits_val(s: Seq<u8>) -> int
    decreases s.len(),
{
    if s.len() == 0 {
        0
    } else {
        digits_val(s.drop_last()) * 10 + (s.last() - 48)
    }
}

/// The signed value an integer literal denotes.
pub open spec fn int_lit_val(s: Seq<u8>) -> int {
    if s.len() > 0 && s[0] == 45 {
        -digits_val(s.skip(1))
    } else {
        digits_val(s)
    }
}

proof fn lemma_digits_nonneg(s: Seq<u8>)
    requires
        forall|j: int| 0 <= j < s.len() ==> is_digit(#[trigger] s[j]),
    ensures
        digits_val(s) >= 0,
    decreases s.len(),
{
    if s.len() > 0 {
        assert(forall|j: int|
            0 <= j < s.drop_last().len() ==> is_digit(#[trigger] s.drop_last()[j]));
        lemma_digits_nonneg(s.drop_last());
    }
}

/// Digits appended on the right never shrink the value: the value of a
/// prefix bounds the value of the whole literal from below.
proof fn lemma_digits_prefix_le(s: Seq<u8>, j: int)
    requires
        0 <= j <= s.len(),
        forall|k: int| 0 <= k < s.len() ==> is_digit(#[trigger] s[k]),
    ensures
        digits_val(s.take(j)) <= digits_val(s),
    decreases s.len() - j,
{
    if j < s.len() {
        assert(s.take(j + 1).drop_last() =~= s.take(j));
        assert(s.take(j + 1).last() == s[j]);
        assert(forall|k: int| 0 <= k < s.take(j).len() ==> is_digit(#[trigger] s.take(j)[k]));
        lemma_digits_nonneg(s.take(j));
        assert(digits_val(s.take(j + 1)) == digits_val(s.take(j)) * 10 + (s[j] - 48));
        lemma_digits_prefix_le(s, j + 1);
    } else {
        assert(s.take(j) =~= s);
    }
}

// The encoding of each statement form.

/// The two-operand encoding shared by mov, add, sub, mul, div, mod, cmp
/// and the bitwise forms: `op_rr` with two register ids, or `op_ri` with
/// a register id and a signed 16-bit immediate.
pub open spec fn enc_reg_imm(op_rr: u8, op_ri: u8, lhs: TokenView, rhs: TokenView) -> Result<
    Seq<u8>,
    AsmErrorV,
> {
    if !is_register_kind(lhs.kind) {
        Err(
            AsmErrorV::ParseError {
                expected: Expected::Register,
                found: lhs.kind,
                line: lhs.line,
            },
        )
    } else if rhs.kind == TokenType::INT {
        let lit = lit_of(rhs);
        if !is_int_lit(lit) || !(IMM16_MIN <= int_lit_val(lit) <= IMM16_MAX) {
            Err(
                AsmErrorV::ImmediateOutOfRange {
                    lit,
                    lo: IMM16_MIN as int,
                    hi: IMM16_MAX as int,
                },
            )
        } else {
            let v = int_lit_val(lit) as i32;
            Ok(enc4(op_ri, register_id(lhs.kind) as u8, imm16_hi(v), imm16_lo(v)))
        }
    } else if is_register_kind(rhs.kind) {
        Ok(enc4(op_rr, register_id(lhs.kind) as u8, register_id(rhs.kind) as u8, 0))
    } else {
        Err(
            AsmErrorV::ParseError {
                expected: Expected::RegisterOrImmediate,
                found: rhs.kind,
                line: rhs.line,
            },
        )
    }
}

/// A jump or call target: the label's statement index, stored in the
/// three operand bytes.
pub open spec fn enc_jump(op: u8, to: TokenView, tbl: Seq<SymEntryV>) -> Result<
    Seq<u8>,
    AsmErrorV,
> {
    match lookup_sym(tbl, lit_of(to)) {
        None => Err(AsmErrorV::UndefinedLabel { name: lit_of(to) }),
        Some(idx) => {
            if !(0 <= idx <= ADDR24_MAX) {
                Err(
                    AsmErrorV::ImmediateOutOfRange {
                        lit: lit_of(to),
                        lo: 0,
                        hi: ADDR24_MAX as int,
                    },
                )
            } else {
                Ok(enc4(op, addr24_b2(idx), addr24_b1(idx), addr24_b0(idx)))
            }
        },
    }
}

/// A single-register form: print, pop, push-register, not.
pub open spec fn enc_reg_only(op: u8, reg: TokenView) -> Result<Seq<u8>, AsmErrorV> {
    if !is_register_kind(reg.kind) {
        Err(
            AsmErrorV::ParseError {
                expected: Expected::Register,
                found: reg.kind,
                line: reg.line,
            },
        )
    } else {
        Ok(enc4(op, register_id(reg.kind) as u8, 0, 0))
    }
}

/// The push form: a register, or a signed 24-bit immediate.
pub open spec fn enc_push(operand: TokenView) -> Result<Seq<u8>, AsmErrorV> {
    if operand.kind == TokenType::INT {
        let lit = lit_of(operand);
        if !is_int_lit(lit) || !(IMM24_MIN <= int_lit_val(lit) <= IMM24_MAX) {
            Err(
                AsmErrorV::ImmediateOutOfRange {
                    lit,
                    lo: IMM24_MIN as int,
                    hi: IMM24_MAX as int,
                },
            )
        } else {
            let b = imm24_bits(int_lit_val(lit) as i32);
            Ok(enc4(OP_PUSH_I, addr24_b2(b), addr24_b1(b), addr24_b0(b)))
        }
    } else {
        enc_reg_only(OP_PUSH_R, operand)
    }
}

/// The 4-byte encoding of one statement against a symbol table.
pub open spec fn encode_stmt(s: StmtV, tbl: Seq<SymEntryV>) -> Result<Seq<u8>, AsmErrorV> {
    match s {
        StmtV::MovLit { from, register_or_imm } => enc_reg_imm(
            OP_MOV_RR,
            OP_MOV_RI,
            from,
            register_or_imm,
        ),
        StmtV::Halt { token } => Ok(enc4(OP_HALT, 0, 0, 0)),
        StmtV::CMP { from_reg, register_or_imm } => enc_reg_imm(
            OP_CMP_RR,
            OP_CMP_RI,
            from_reg,
            register_or_imm,
        ),
        StmtV::JMPZ { to } => enc_jump(OP_JMPZ, to, tbl),
        StmtV::JMPNZ { to } => enc_jump(OP_JMPNZ, to, tbl),
        StmtV::JMPLE { to } => enc_jump(OP_JMPLE, to, tbl),
        StmtV::JMPGE { to } => enc_jump(OP_JMPGE, to, tbl),
        StmtV::JMPG { to } => enc_jump(OP_JMPG, to, tbl),
        StmtV::JMPL { to } => enc_jump(OP_JMPL, to, tbl),
        StmtV::JMP { to } => enc_jump(OP_JMP, to, tbl),
        StmtV::Call { to } => enc_jump(OP_CALL, to, tbl),
        StmtV::RET => Ok(enc4(OP_RET, 0, 0, 0)),
        StmtV::ADD { lhs_reg, right_reg_imm } => enc_reg_imm(
            OP_ADD_RR,
            OP_ADD_RI,
            lhs_reg,
            right_reg_imm,
        ),
        StmtV::MOD { lhs_reg, right_reg_imm } => enc_reg_imm(
            OP_MOD_RR,
            OP_MOD_RI,
            lhs_reg,
            right_reg_imm,
        ),
        StmtV::SUB { lhs_reg, right_reg_imm } => enc_reg_imm(
            OP_SUB_RR,
            OP_SUB_RI,
            lhs_reg,
            right_reg_imm,
        ),
        StmtV::DIV { lhs_reg, right_reg_imm } => enc_reg_imm(
            OP_DIV_RR,
            OP_DIV_RI,
            lhs_reg,
            right_reg_imm,
        ),
        StmtV::MUL { lhs_reg, right_reg_imm } => enc_reg_imm(
            OP_MUL_RR,
            OP_MUL_RI,
            lhs_reg,
            right_reg_imm,
        ),
        StmtV::NOP => Ok(enc4(OP_NOP, 0, 0, 0)),
        StmtV::Print { reg } => enc_reg_only(OP_PRINT, reg),
        StmtV::PUSH { register_or_imm } => enc_push(register_or_imm),
        StmtV::POP { reg } => enc_reg_only(OP_POP, reg),
        StmtV::AND_OR_XOR { type_op, reg, register_or_imm } => {
            if type_op == TokenType::AND {
                enc_reg_imm(OP_AND_RR, OP_AND_RI, reg, register_or_imm)
            } else if type_op == TokenType::OR {
                enc_reg_imm(OP_OR_RR, OP_OR_RI, reg, register_or_imm)
            } else if type_op == TokenType::XOR {
                enc_reg_imm(OP_XOR_RR, OP_XOR_RI, reg, register_or_imm)
            } else {
                Err(
                    AsmErrorV::ParseError {
                        expected: Expected::Statement,
                        found: type_op,
                        line: reg.line,
                    },
                )
            }
        },
    }
}

/// The byte stream encoding statements `i` onward, one 4-byte word per
/// statement, or the first statement's error.
pub open spec fn encode_from(stmts: Seq<StmtV>, i: int, tbl: Seq<SymEntryV>) -> Result<
    Seq<u8>,
    AsmErrorV,
>
    decreases stmts.len() - i,
{
    if !(0 <= i < stmts.len()) {
        Ok(Seq::empty())
    } else {
        match encode_stmt(stmts[i], tbl) {
            Err(e) => Err(e),
            Ok(w) => match encode_from(stmts, i + 1, tbl) {
                Err(e) => Err(e),
                Ok(rest) => Ok(w + rest),
            },
        }
    }
}

/// Every successful statement encoding is exactly four bytes.
pub proof fn lemma_encode_stmt_len(s: StmtV, tbl: Seq<SymEntryV>)
    requires
        encode_stmt(s, tbl) is Ok,
    ensures
        encode_stmt(s, tbl) matches Ok(w) && w.len() == 4,
{
}

/// Each statement occupies exactly four bytes of the stream, so
/// instruction `j` stands at byte offset `4 * j`: the explicit form of
/// the one-statement-one-instruction invariant.
pub proof fn lemma_encode_from_len(stmts: Seq<StmtV>, i: int, tbl: Seq<SymEntryV>)
    requires
        0 <= i <= stmts.len(),
        encode_from(stmts, i, tbl) is Ok,
    ensures
        encode_from(stmts, i, tbl) matches Ok(code) && code.len() == 4 * (stmts.len() - i),
    decreases stmts.len() - i,
{
    if i < stmts.len() {
        match encode_stmt(stmts[i], tbl) {
            Ok(w) => {
                lemma_encode_stmt_len(stmts[i], tbl);
                lemma_encode_from_len(stmts, i + 1, tbl);
            },
            Err(_) => {},
        }
    }
}

/// Instruction `j` of a successfully encoded stream is the encoding of
/// statement `j`, at byte offset `4 * j`.
pub proof fn lemma_encode_from_at(stmts: Seq<StmtV>, i: int, j: int, tbl: Seq<SymEntryV>)
    requires
        0 <= i <= j < stmts.len(),
        encode_from(stmts, i, tbl) is Ok,
    ensures
        encode_from(stmts, i, tbl) matches Ok(code) && encode_stmt(stmts[j], tbl) matches Ok(w)
            && code.subrange(4 * (j - i), 4 * (j - i) + 4) == w,
    decreases j - i,
{
    lemma_encode_from_len(stmts, i, tbl);
    match encode_stmt(stmts[i], tbl) {
        Ok(w) => {
            lemma_encode_from_len(stmts, i + 1, tbl);
            if i == j {
                match encode_from(stmts, i + 1, tbl) {
                    Ok(rest) => {
                        assert((w + rest).subrange(0, 4) =~= w);
                    },
                    Err(_) => {},
                }
            } else {
                lemma_encode_from_at(stmts, i + 1, j, tbl);
                match encode_from(stmts, i + 1, tbl) {
                    Ok(rest) => {
                        assert((w + rest).subrange(4 * (j - i), 4 * (j - i) + 4) =~= rest.subrange(
                            4 * (j - i - 1),
                            4 * (j - i - 1) + 4,
                        ));
                    },
                    Err(_) => {},
                }
            }
        },
        Err(_) => {},
    }
}


/// `encode_from` with an accumulator of the bytes already emitted.
pub open spec fn enc_cont(stmts: Seq<StmtV>, i: int, tbl: Seq<SymEntryV>, acc: Seq<u8>) -> Result<
    Seq<u8>,
    AsmErrorV,
> {
    match encode_from(stmts, i, tbl) {
        Ok(w) => Ok(acc + w),
        Err(e) => Err(e),
    }
}

proof fn lemma_enc_cont_step(
    stmts: Seq<StmtV>,
    i: int,
    tbl: Seq<SymEntryV>,
    acc: Seq<u8>,
    w: Seq<u8>,
)
    requires
        0 <= i < stmts.len(),
        encode_stmt(stmts[i], tbl) == Ok::<Seq<u8>, AsmErrorV>(w),
    ensures
        enc_cont(stmts, i, tbl, acc) == enc_cont(stmts, i + 1, tbl, acc + w),
{
    match encode_from(stmts, i + 1, tbl) {
        Ok(rest) => {
            assert(acc + (w + rest) =~= (acc + w) + rest);
        },
        Err(_) => {},
    }
}

fn reg_num(k: TokenType) -> (r: Option<u8>)
    ensures
        (match r {
            Some(d) => is_register_kind(k) && d == register_id(k),
            None => !is_register_kind(k),
        }),
{
    match k {
        TokenType::R0 => Some(0),
        TokenType::R1 => Some(1),
        TokenType::R2 => Some(2),
        TokenType::R3 => Some(3),
        TokenType::R4 => Some(4),
        TokenType::R5 => Some(5),
        TokenType::R6 => Some(6),
        TokenType::R7 => Some(7),
        _ => None,
    }
}

fn bytes_eq(a: &Vec<u8>, b: &Vec<u8>) -> (r: bool)
    ensures
        r == (a@ =~= b@),
{
    if a.len() != b.len() {
        return false;
    }
    let mut i: usize = 0;
    while i < a.len()
        invariant
            i <= a@.len(),
            a@.len() == b@.len(),
            forall|k: int| 0 <= k < i ==> a@[k] == b@[k],
        decreases a@.len() - i,
    {
        if a[i] != b[i] {
            return false;
        }
        i = i + 1;
    }
    true
}

/// The latest table entry whose name matches, scanning from the end.
fn lookup_index(table: &Vec<SymEntry>, name: &Vec<u8>) -> (r: Option<usize>)
    ensures
        (match r {
            Some(u) => lookup_sym(sym_views(table@), name@) == Some(u as int),
            None => lookup_sym(sym_views(table@), name@) is None,
        }),
{
    let mut j = table.len();
    proof {
        assert(sym_views(table@).take(table@.len() as int) =~= sym_views(table@));
    }
    while j > 0
        invariant
            j <= table@.len(),
            lookup_sym(sym_views(table@), name@) == lookup_sym(
                sym_views(table@).take(j as int),
                name@,
            ),
        decreases j,
    {
        let e = &table[j - 1];
        proof {
            assert(sym_views(table@).take(j as int).last() == table@[j - 1]@);
            assert(sym_views(table@).take(j as int).drop_last() =~= sym_views(table@).take(
                j - 1,
            ));
        }
        if bytes_eq(&e.name, name) {
            return Some(e.index);
        }
        j = j - 1;
    }
    None
}

/// A signed decimal literal parsed into the inclusive range `lo ..= hi`;
/// anything malformed or out of range is refused.
fn parse_imm(lit: &Vec<u8>, lo: i32, hi: i32) -> (r: Option<i32>)
    ensures
        (match r {
            Some(v) => is_int_lit(lit@) && lo <= int_lit_val(lit@) <= hi && v as int == int_lit_val(
                lit@,
            ),
            None => !is_int_lit(lit@) || !(lo <= int_lit_val(lit@) <= hi),
        }),
{
    let n = lit.len();
    if n == 0 {
        return None;
    }
    let neg = lit[0] == 45;
    let start: usize = if neg {
        1
    } else {
        0
    };
    if neg && n == 1 {
        return None;
    }
    let ghost dig: Seq<u8> = if neg {
        lit@.skip(1)
    } else {
        lit@
    };
    proof {
        assert(dig =~= lit@.subrange(start as int, n as int));
    }
    let mut acc: i64 = 0;
    let mut i: usize = start;
    while i < n
        invariant
            start <= i <= n,
            n == lit@.len(),
            start == (if neg {
                1int
            } else {
                0int
            }),
            neg == (lit@[0] == 45),
            n > start,
            dig == (if neg {
                lit@.skip(1)
            } else {
                lit@
            }),
            forall|k: int| start <= k < i ==> is_digit(#[trigger] lit@[k]),
            0 <= acc <= 0x8000_0000,
            acc == digits_val(lit@.subrange(start as int, i as int)),
        decreases n - i,
    {
        let ch = lit[i];
        if !(48 <= ch && ch <= 57) {
            return None;
        }
        proof {
            assert(lit@.subrange(start as int, i + 1).drop_last() =~= lit@.subrange(
                start as int,
                i as int,
            ));
            assert(lit@.subrange(start as int, i + 1).last() == lit@[i as int]);
        }
        acc = acc * 10 + ((ch - 48) as i64);
        if acc > 0x8000_0000 {
            proof {
                if is_int_lit(lit@) && lo <= int_lit_val(lit@) <= hi {
                    assert(forall|k: int| 0 <= k < dig.len() ==> is_digit(#[trigger] dig[k]));
                    assert(lit@.subrange(start as int, i + 1) =~= dig.take(i + 1 - start));
                    lemma_digits_prefix_le(dig, i + 1 - start);
                    assert(digits_val(dig) > 0x8000_0000);
                    assert(false);
                }
            }
            return None;
        }
        i = i + 1;
    }
    proof {
        assert(lit@.subrange(start as int, n as int) =~= dig);
        if neg {
            assert(forall|k: int| 1 <= k < n ==> is_digit(#[trigger] lit@[k]));
        }
        assert(is_int_lit(lit@));
    }
    let v: i64 = if neg {
        -acc
    } else {
        acc
    };
    if (lo as i64) <= v && v <= (hi as i64) {
        Some(v as i32)
    } else {
        None
    }
}

/// A copy of a statement, equal at the view level.
fn copy_stmt(s: &Stmt) -> (r: Stmt)
    ensures
        r@ == s@,
{
    match s {
        Stmt::MovLit { from, register_or_imm } => Stmt::MovLit {
            from: crate::parser::copy_token(from),
            register_or_imm: crate::parser::copy_token(register_or_imm),
        },
        Stmt::Halt { token } => Stmt::Halt { token: crate::parser::copy_token(token) },
        Stmt::CMP { from_reg, register_or_imm } => Stmt::CMP {
            from_reg: crate::parser::copy_token(from_reg),
            register_or_imm: crate::parser::copy_token(register_or_imm),
        },
        Stmt::JMPZ { to } => Stmt::JMPZ { to: crate::parser::copy_token(to) },
        Stmt::JMPNZ { to } => Stmt::JMPNZ { to: crate::parser::copy_token(to) },
        Stmt::JMPLE { to } => Stmt::JMPLE { to: crate::parser::copy_token(to) },
        Stmt::JMPGE { to } => Stmt::JMPGE { to: crate::parser::copy_token(to) },
        Stmt::JMPG { to } => Stmt::JMPG { to: crate::parser::copy_token(to) },
        Stmt::JMPL { to } => Stmt::JMPL { to: crate::parser::copy_token(to) },
        Stmt::JMP { to } => Stmt::JMP { to: crate::parser::copy_token(to) },
        Stmt::Call { to } => Stmt::Call { to: crate::parser::copy_token(to) },
        Stmt::RET => Stmt::RET,
        Stmt::ADD { lhs_reg, right_reg_imm } => Stmt::ADD {
            lhs_reg: crate::parser::copy_token(lhs_reg),
            right_reg_imm: crate::parser::copy_token(right_reg_imm),
        },
        Stmt::MOD { lhs_reg, right_reg_imm } => Stmt::MOD {
            lhs_reg: crate::parser::copy_token(lhs_reg),
            right_reg_imm: crate::parser::copy_token(right_reg_imm),
        },
        Stmt::SUB { lhs_reg, right_reg_imm } => Stmt::SUB {
            lhs_reg: crate::parser::copy_token(lhs_reg),
            right_reg_imm: crate::parser::copy_token(right_reg_imm),
        },
        Stmt::DIV { lhs_reg, right_reg_imm } => Stmt::DIV {
            lhs_reg: crate::parser::copy_token(lhs_reg),
            right_reg_imm: crate::parser::copy_token(right_reg_imm),
        },
        Stmt::MUL { lhs_reg, right_reg_imm } => Stmt::MUL {
            lhs_reg: crate::parser::copy_token(lhs_reg),
            right_reg_imm: crate::parser::copy_token(right_reg_imm),
        },
        Stmt::NOP => Stmt::NOP,
        Stmt::Print { reg } => Stmt::Print { reg: crate::parser::copy_token(reg) },
        Stmt::PUSH { register_or_imm } => Stmt::PUSH {
            register_or_imm: crate::parser::copy_token(register_or_imm),
        },
        Stmt::POP { reg } => Stmt::POP { reg: crate::parser::copy_token(reg) },
        Stmt::AND_OR_XOR { type_op, reg, register_or_imm } => Stmt::AND_OR_XOR {
            type_op: *type_op,
            reg: crate::parser::copy_token(reg),
            register_or_imm: crate::parser::copy_token(register_or_imm),
        },
    }
}

/// The encoder: owns the statements and symbol table handed over by the
/// parser, and the instruction stream being emitted.
pub struct CodeGen {
    pub code: Vec<u8>,
    pub statements: Vec<Stmt>,
    pub table: Vec<SymEntry>,
}

impl CodeGen {
    /// Runs the parser to completion and takes over its statements and
    /// symbol table, or hands out the parse error.
    pub fn new(parser: Parser) -> (r: Result<CodeGen, AsmError>)
        requires
            wf_token_stream(views_of(parser.tokens@)),
            parser.current < parser.tokens@.len(),
        ensures
            (match r {
                Ok(cg) => {
                    &&& parse_from(
                        views_of(parser.tokens@),
                        parser.current as int,
                        parser.statements@.len() as int,
                    ) matches Ok(p)
                    &&& stmt_views(cg.statements@) == stmt_views(parser.statements@) + p.stmts
                    &&& sym_views(cg.table@) == sym_views(parser.mapping_table@) + p.entries
                    &&& cg.code@.len() == 0
                },
                Err(ae) => parse_from(
                    views_of(parser.tokens@),
                    parser.current as int,
                    parser.statements@.len() as int,
                ) matches Err(e) && ae@ == e,
            }),
    {
        let mut parser = parser;
        match parser.parse() {
            Ok(_) => Ok(
                CodeGen {
                    code: Vec::new(),
                    statements: parser.statements,
                    table: parser.mapping_table,
                },
            ),
            Err(e) => Err(e),
        }
    }

    /// Appends one 4-byte instruction, low immediate byte first.
    fn emit4(&mut self, op: u8, a: u8, b: u8, c: u8)
        ensures
            final(self).statements@ == old(self).statements@,
            final(self).table@ == old(self).table@,
            final(self).code@ == old(self).code@ + enc4(op, a, b, c),
    {
        self.code.push(c);
        self.code.push(b);
        self.code.push(a);
        self.code.push(op);
        proof {
            assert(self.code@ =~= old(self).code@ + enc4(op, a, b, c));
        }
    }

    /// Emits a two-operand form, choosing between the register-register
    /// opcode `op1` and the register-immediate opcode `op2`.
    pub fn helper_reg(&mut self, op1: u8, op2: u8, lhs_reg: &Token, right_reg_imm: &Token) -> (r:
        Result<(), AsmError>)
        ensures
            final(self).statements@ == old(self).statements@,
            final(self).table@ == old(self).table@,
            (match enc_reg_imm(op1, op2, lhs_reg@, right_reg_imm@) {
                Ok(w) => r matches Ok(u) && final(self).code@ == old(self).code@ + w,
                Err(e) => r matches Err(ae) && ae@ == e && final(self).code@ == old(self).code@,
            }),
    {
        let rd = match reg_num(lhs_reg.token_type) {
            Some(d) => d,
            None => {
                return Err(
                    AsmError::ParseError {
                        expected: Expected::Register,
                        found: lhs_reg.token_type,
                        line: lhs_reg.line_number,
                    },
                );
            },
        };
        if right_reg_imm.token_type == TokenType::INT {
            let empty_lit: Vec<u8> = Vec::new();
            let lit: &Vec<u8> = match &right_reg_imm.literal {
                Some(v) => v,
                None => &empty_lit,
            };
            proof {
                assert(lit@ == lit_of(right_reg_imm@));
            }
            match parse_imm(lit, IMM16_MIN, IMM16_MAX) {
                None => Err(
                    AsmError::ImmediateOutOfRange {
                        lit: crate::parser::clone_bytes(lit),
                        lo: IMM16_MIN as i64,
                        hi: IMM16_MAX as i64,
                    },
                ),
                Some(v) => {
                    let (hi, lo) = split_imm16(v);
                    self.emit4(op2, rd, hi, lo);
                    Ok(())
                },
            }
        } else {
            match reg_num(right_reg_imm.token_type) {
                Some(rs) => {
                    self.emit4(op1, rd, rs, 0);
                    Ok(())
                },
                None => Err(
                    AsmError::ParseError {
                        expected: Expected::RegisterOrImmediate,
                        found: right_reg_imm.token_type,
                        line: right_reg_imm.line_number,
                    },
                ),
            }
        }
    }

    /// Emits a jump or call, resolving the label through the table.
    fn emit_jump(&mut self, op: u8, to: &Token) -> (r: Result<(), AsmError>)
        ensures
            final(self).statements@ == old(self).statements@,
            final(self).table@ == old(self).table@,
            (match enc_jump(op, to@, sym_views(old(self).table@)) {
                Ok(w) => r matches Ok(u) && final(self).code@ == old(self).code@ + w,
                Err(e) => r matches Err(ae) && ae@ == e && final(self).code@ == old(self).code@,
            }),
    {
        let empty_lit: Vec<u8> = Vec::new();
        let name: &Vec<u8> = match &to.literal {
            Some(v) => v,
            None => &empty_lit,
        };
        proof {
            assert(name@ == lit_of(to@));
        }
        match lookup_index(&self.table, name) {
            None => Err(AsmError::UndefinedLabel { name: crate::parser::clone_bytes(name) }),
            Some(idx) => {
                if idx > ADDR24_MAX {
                    Err(
                        AsmError::ImmediateOutOfRange {
                            lit: crate::parser::clone_bytes(name),
                            lo: 0,
                            hi: ADDR24_MAX as i64,
                        },
                    )
                } else {
                    let (b2, b1, b0) = split_addr24(idx);
                    self.emit4(op, b2, b1, b0);
                    Ok(())
                }
            },
        }
    }

    /// Emits a form with a single register operand.
    fn emit_reg_only(&mut self, op: u8, reg: &Token) -> (r: Result<(), AsmError>)
        ensures
            final(self).statements@ == old(self).statements@,
            final(self).table@ == old(self).table@,
            (match enc_reg_only(op, reg@) {
                Ok(w) => r matches Ok(u) && final(self).code@ == old(self).code@ + w,
                Err(e) => r matches Err(ae) && ae@ == e && final(self).code@ == old(self).code@,
            }),
    {
        match reg_num(reg.token_type) {
            Some(d) => {
                self.emit4(op, d, 0, 0);
                Ok(())
            },
            None => Err(
                AsmError::ParseError {
                    expected: Expected::Register,
                    found: reg.token_type,
                    line: reg.line_number,
                },
            ),
        }
    }

    /// Emits a push: a 24-bit signed immediate, or a register.
    fn emit_push(&mut self, operand: &Token) -> (r: Result<(), AsmError>)
        ensures
            final(self).statements@ == old(self).statements@,
            final(self).table@ == old(self).table@,
            (match enc_push(operand@) {
                Ok(w) => r matches Ok(u) && final(self).code@ == old(self).code@ + w,
                Err(e) => r matches Err(ae) && ae@ == e && final(self).code@ == old(self).code@,
            }),
    {
        if operand.token_type == TokenType::INT {
            let empty_lit: Vec<u8> = Vec::new();
            let lit: &Vec<u8> = match &operand.literal {
                Some(v) => v,
                None => &empty_lit,
            };
            proof {
                assert(lit@ == lit_of(operand@));
            }
            match parse_imm(lit, IMM24_MIN, IMM24_MAX) {
                None => Err(
                    AsmError::ImmediateOutOfRange {
                        lit: crate::parser::clone_bytes(lit),
                        lo: IMM24_MIN as i64,
                        hi: IMM24_MAX as i64,
                    },
                ),
                Some(v) => {
                    let (b2, b1, b0) = split_imm24(v);
                    self.emit4(OP_PUSH_I, b2, b1, b0);
                    Ok(())
                },
            }
        } else {
            self.emit_reg_only(OP_PUSH_R, operand)
        }
    }

    /// Encodes every statement in order, emitting one 4-byte instruction
    /// each, and hands out the finished byte stream, or stops at the
    /// first statement that cannot be encoded.
    #[verifier::rlimit(100)]
    pub fn gen_(&mut self) -> (r: Result<Vec<u8>, AsmError>)
        ensures
            final(self).statements@ == old(self).statements@,
            final(self).table@ == old(self).table@,
            (match r {
                Ok(code) => encode_from(
                    stmt_views(old(self).statements@),
                    0,
                    sym_views(old(self).table@),
                ) matches Ok(w) && code@ == old(self).code@ + w,
                Err(ae) => encode_from(
                    stmt_views(old(self).statements@),
                    0,
                    sym_views(old(self).table@),
                ) matches Err(e) && ae@ == e,
            }),
    {
        let ghost sv = stmt_views(self.statements@);
        let ghost tblv = sym_views(self.table@);
        let ghost code0 = self.code@;
        let n = self.statements.len();
        let mut i: usize = 0;
        while i < n
            invariant
                sv == stmt_views(old(self).statements@),
                tblv == sym_views(old(self).table@),
                code0 == old(self).code@,
                self.statements@ == old(self).statements@,
                self.table@ == old(self).table@,
                i <= n,
                n == self.statements@.len(),
                enc_cont(sv, i as int, tblv, self.code@) == enc_cont(sv, 0, tblv, code0),
            decreases n - i,
        {
            let ghost pcode = self.code@;
            let st = copy_stmt(&self.statements[i]);
            proof {
                assert(sv[i as int] == self.statements@[i as int]@);
            }
            let step: Result<(), AsmError> = match st {
                Stmt::MovLit { from, register_or_imm } => self.helper_reg(
                    OP_MOV_RR,
                    OP_MOV_RI,
                    &from,
                    &register_or_imm,
                ),
                Stmt::Halt { token } => {
                    self.emit4(OP_HALT, 0, 0, 0);
                    Ok(())
                },
                Stmt::CMP { from_reg, register_or_imm } => self.helper_reg(
                    OP_CMP_RR,
                    OP_CMP_RI,
                    &from_reg,
                    &register_or_imm,
                ),
                Stmt::JMPZ { to } => self.emit_jump(OP_JMPZ, &to),
                Stmt::JMPNZ { to } => self.emit_jump(OP_JMPNZ, &to),
                Stmt::JMPLE { to } => self.emit_jump(OP_JMPLE, &to),
                Stmt::JMPGE { to } => self.emit_jump(OP_JMPGE, &to),
                Stmt::JMPG { to } => self.emit_jump(OP_JMPG, &to),
                Stmt::JMPL { to } => self.emit_jump(OP_JMPL, &to),
                Stmt::JMP { to } => self.emit_jump(OP_JMP, &to),
                Stmt::Call { to } => self.emit_jump(OP_CALL, &to),
                Stmt::RET => {
                    self.emit4(OP_RET, 0, 0, 0);
                    Ok(())
                },
                Stmt::ADD { lhs_reg, right_reg_imm } => self.helper_reg(
                    OP_ADD_RR,
                    OP_ADD_RI,
                    &lhs_reg,
                    &right_reg_imm,
                ),
                Stmt::MOD { lhs_reg, right_reg_imm } => self.helper_reg(
                    OP_MOD_RR,
                    OP_MOD_RI,
                    &lhs_reg,
                    &right_reg_imm,
                ),
                Stmt::SUB { lhs_reg, right_reg_imm } => self.helper_reg(
                    OP_SUB_RR,
                    OP_SUB_RI,
                    &lhs_reg,
                    &right_reg_imm,
                ),
                Stmt::DIV { lhs_reg, right_reg_imm } => self.helper_reg(
                    OP_DIV_RR,
                    OP_DIV_RI,
                    &lhs_reg,
                    &right_reg_imm,
                ),
                Stmt::MUL { lhs_reg, right_reg_imm } => self.helper_reg(
                    OP_MUL_RR,
                    OP_MUL_RI,
                    &lhs_reg,
                    &right_reg_imm,
                ),
                Stmt::NOP => {
                    self.emit4(OP_NOP, 0, 0, 0);
                    Ok(())
                },
                Stmt::Print { reg } => self.emit_reg_only(OP_PRINT, &reg),
                Stmt::PUSH { register_or_imm } => self.emit_push(&register_or_imm),
                Stmt::POP { reg } => self.emit_reg_only(OP_POP, &reg),
                Stmt::AND_OR_XOR { type_op, reg, register_or_imm } => {
                    if type_op == TokenType::AND {
                        self.helper_reg(OP_AND_RR, OP_AND_RI, &reg, &register_or_imm)
                    } else if type_op == TokenType::OR {
                        self.helper_reg(OP_OR_RR, OP_OR_RI, &reg, &register_or_imm)
                    } else if type_op == TokenType::XOR {
                        self.helper_reg(OP_XOR_RR, OP_XOR_RI, &reg, &register_or_imm)
                    } else {
                        Err(
                            AsmError::ParseError {
                                expected: Expected::Statement,
                                found: type_op,
                                line: reg.line_number,
                            },
                        )
                    }
                },
            };
            match step {
                Ok(_) => {
                    proof {
                        match encode_stmt(sv[i as int], tblv) {
                            Ok(w) => {
                                lemma_enc_cont_step(sv, i as int, tblv, pcode, w);
                            },
                            Err(_) => {
                                assert(false);
                            },
                        }
                    }
                },
                Err(e) => {
                    return Err(e);
                },
            }
            i = i + 1;
        }
        proof {
            assert(self.code@ + Seq::<u8>::empty() =~= self.code@);
        }
        let out = self.code.split_off(0);
        Ok(out)
    }
}


// Laws of the encoding.

/// A jump or call stores the label's statement index: reading the three
/// operand bytes back as a 24-bit address yields the index, so the
/// machine's jump rule lands on byte address `index * 4`.
pub proof fn lemma_label_resolved_byte_address(op: u8, to: TokenView, tbl: Seq<SymEntryV>, i: int)
    requires
        lookup_sym(tbl, lit_of(to)) == Some(i),
        0 <= i <= ADDR24_MAX,
    ensures
        enc_jump(op, to, tbl) matches Ok(w) && {
            &&& w.len() == 4
            &&& w[3] == op
            &&& addr24_val(w[2], w[1], w[0]) == i
        },
{
    lemma_addr24_round_trip(i);
}

/// For a parsed program, a label that resolves names the no-op
/// placeholder emitted by its definition, and a jump or call to it
/// encodes that statement index, whose byte address is the index times
/// four: the resolved byte address is `statement_index * 4`.
pub proof fn lemma_label_definition_byte_address(toks: Seq<TokenView>, to: TokenView, op: u8)
    requires
        parse_from(toks, 0, 0) is Ok,
        (match parse_from(toks, 0, 0) {
            Ok(p) => lookup_sym(p.entries, lit_of(to)) is Some && (match lookup_sym(
                p.entries,
                lit_of(to),
            ) {
                Some(i) => i <= ADDR24_MAX,
                None => false,
            }),
            Err(_) => false,
        }),
    ensures
        (match parse_from(toks, 0, 0) {
            Ok(p) => match lookup_sym(p.entries, lit_of(to)) {
                Some(i) => {
                    &&& 0 <= i < p.stmts.len()
                    &&& p.stmts[i] == StmtV::NOP
                    &&& (enc_jump(op, to, p.entries) matches Ok(w) && 4 * addr24_val(
                        w[2],
                        w[1],
                        w[0],
                    ) == 4 * i)
                },
                None => false,
            },
            Err(_) => false,
        }),
{
    crate::parser::lemma_parse_entries_are_placeholders(toks, 0, 0);
    match parse_from(toks, 0, 0) {
        Ok(p) => {
            crate::parser::lemma_lookup_found(p.entries, lit_of(to));
            match lookup_sym(p.entries, lit_of(to)) {
                Some(i) => {
                    lemma_label_resolved_byte_address(op, to, p.entries, i);
                },
                None => {},
            }
        },
        Err(_) => {},
    }
}

/// Encoding an immediate two-operand instruction and decoding the
/// emitted bytes reproduces the register id and the signed 16-bit
/// value: the round trip is exact.
pub proof fn lemma_imm16_encode_decode(op_rr: u8, op_ri: u8, lhs: TokenView, rhs: TokenView)
    requires
        is_register_kind(lhs.kind),
        rhs.kind == TokenType::INT,
        is_int_lit(lit_of(rhs)),
        IMM16_MIN <= int_lit_val(lit_of(rhs)) <= IMM16_MAX,
    ensures
        enc_reg_imm(op_rr, op_ri, lhs, rhs) matches Ok(w) && {
            &&& w[3] == op_ri
            &&& w[2] == register_id(lhs.kind) as u8
            &&& sign_ext16(w[1], w[0]) as int == int_lit_val(lit_of(rhs))
        },
{
    lemma_imm16_round_trip(int_lit_val(lit_of(rhs)) as i32);
}

/// What assembling a source text means, end to end: lex it from line 1,
/// parse the tokens from statement index 0, and encode every statement
/// against the symbol table the parse built; the first failure of any
/// stage is the result.
pub open spec fn assemble_spec(src: Seq<u8>) -> Result<Seq<u8>, AsmErrorV> {
    match lex_from(src, 0, 1) {
        Err(e) => Err(e),
        Ok(toks) => match parse_from(toks, 0, 0) {
            Err(e) => Err(e),
            Ok(p) => encode_from(p.stmts, 0, p.entries),
        },
    }
}

/// The one-statement-one-instruction invariant, end to end: a source
/// that assembles yields exactly four bytes of code per parsed
/// statement, label placeholders included — which is what lets the
/// symbol table's statement indices stand for byte addresses.
pub proof fn lemma_assemble_code_len(src: Seq<u8>)
    requires
        assemble_spec(src) is Ok,
    ensures
        (match assemble_spec(src) {
            Ok(code) => match lex_from(src, 0, 1) {
                Ok(toks) => match parse_from(toks, 0, 0) {
                    Ok(p) => code.len() == 4 * p.stmts.len(),
                    Err(_) => false,
                },
                Err(_) => false,
            },
            Err(_) => false,
        }),
{
    match lex_from(src, 0, 1) {
        Ok(toks) => {
            match parse_from(toks, 0, 0) {
                Ok(p) => {
                    lemma_encode_from_len(p.stmts, 0, p.entries);
                },
                Err(_) => {},
            }
        },
        Err(_) => {},
    }
}

/// The whole front end in one call: source text in, binary instruction
/// stream out, exactly as `assemble_spec` says.
pub fn assemble(source: Vec<u8>) -> (r: Result<Vec<u8>, AsmError>)
    requires
        source@.len() + 1 <= usize::MAX,
    ensures
        (match r {
            Ok(code) => assemble_spec(source@) == Ok::<Seq<u8>, AsmErrorV>(code@),
            Err(e) => assemble_spec(source@) == Err::<Seq<u8>, AsmErrorV>(e@),
        }),
{
    let ghost src = source@;
    let mut scanner = crate::scanner::Scanner::new(source);
    let ghost pre_toks = scanner.tokens@;
    let tokens = match scanner.parse() {
        Ok(ts) => ts,
        Err(e) => {
            return Err(e);
        },
    };
    let ghost toksv = views_of(tokens@);
    proof {
        assert(views_of(pre_toks) =~= Seq::<TokenView>::empty());
        match crate::scanner::lex_from(src, 0, 1) {
            Ok(ts) => {
                assert(Seq::<TokenView>::empty() + ts =~= ts);
            },
            Err(_) => {
                assert(false);
            },
        }
        crate::scanner::lemma_lex_ends_with_eof(src, 0, 1);
        assert(tokens@.len() == toksv.len());
    }
    let parser = Parser::new(tokens);
    let ghost pstmts = stmt_views(parser.statements@);
    let ghost pents = sym_views(parser.mapping_table@);
    let mut backend = match CodeGen::new(parser) {
        Ok(cg) => cg,
        Err(e) => {
            return Err(e);
        },
    };
    proof {
        match parse_from(toksv, 0, 0) {
            Ok(p) => {
                assert(pstmts =~= Seq::<StmtV>::empty());
                assert(pents =~= Seq::<SymEntryV>::empty());
                assert(pstmts + p.stmts =~= p.stmts);
                assert(pents + p.entries =~= p.entries);
            },
            Err(_) => {
                assert(false);
            },
        }
    }
    let ghost code0 = backend.code@;
    let r = backend.gen_();
    proof {
        match parse_from(toksv, 0, 0) {
            Ok(p) => {
                match encode_from(p.stmts, 0, p.entries) {
                    Ok(w) => {
                        assert(code0 + w =~= w);
                    },
                    Err(_) => {},
                }
            },
            Err(_) => {},
        }
    }
    r
}

} // verus!
