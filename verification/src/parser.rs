//! Parser and label resolver: turns the token sequence into an ordered
//! sequence of statements and a symbol table.
//!
//! The grammar is recursive descent, one statement per dispatch on the
//! leading mnemonic: two-operand forms consume a register, a comma and a
//! register-or-immediate; jumps and calls consume one label reference;
//! push, pop, print, halt and ret consume what they need. A label
//! definition emits a no-op placeholder statement, so it occupies exactly
//! one statement slot, and records the label name against the placeholder's
//! statement index — not yet a byte address. Because every statement later
//! encodes to exactly one 4-byte instruction, an index recorded here
//! resolves to byte address `index * 4` without code sizes being known.
//! The meaning of parsing is the recursive spec function `parse_from`;
//! `Parser::parse` is proved to produce exactly its statements and table.

use vstd::prelude::*;

use crate::errors::{AsmError, AsmErrorV, Expected};
use crate::scanner::{is_register_kind, views_of, Token, TokenType, TokenView};

verus! {

/// One entry of the symbol table: a label name and the statement index of
/// the placeholder emitted at its definition.
#[derive(Debug, Clone, PartialEq, Eq)]
pub struct SymEntry {
    pub name: Vec<u8>,
    pub index: usize,
}

pub ghost struct SymEntryV {
    pub name: Seq<u8>,
    pub index: int,
}

impl View for SymEntry {
    type V = SymEntryV;

    open spec fn view(&self) -> SymEntryV {
        SymEntryV { name: self.name@, index: self.index as int }
    }
}

pub open spec fn sym_views(es: Seq<SymEntry>) -> Seq<SymEntryV> {
    es.map_values(|e: SymEntry| e@)
}

/// The statement index a label name resolves to. A name defined twice
/// resolves to its latest definition.
pub open spec fn lookup_sym(tbl: Seq<SymEntryV>, name: Seq<u8>) -> Option<int>
    decreases tbl.len(),
{
    if tbl.len() == 0 {
        None
    } else if tbl.last().name == name {
        Some(tbl.last().index)
    } else {
        lookup_sym(tbl.drop_last(), name)
    }
}

/// One statement: a tagged variant per instruction form, carrying the
/// operand tokens needed for encoding.
#[allow(clippy::upper_case_acronyms)]
#[allow(non_camel_case_types)]
#[derive(Debug, Clone, PartialEq, Eq)]
pub enum Stmt {
    MovLit { from: Token, register_or_imm: Token },
    Halt { token: Token },
    CMP { from_reg: Token, register_or_imm: Token },
    JMPZ { to: Token },
    JMPNZ { to: Token },
    JMPLE { to: Token },
    JMPGE { to: Token },
    JMPG { to: Token },
    JMPL { to: Token },
    JMP { to: Token },
    Call { to: Token },
    RET,
    ADD { lhs_reg: Token, right_reg_imm: Token },
    MOD { lhs_reg: Token, right_reg_imm: Token },
    SUB { lhs_reg: Token, right_reg_imm: Token },
    DIV { lhs_reg: Token, right_reg_imm: Token },
    MUL { lhs_reg: Token, right_reg_imm: Token },
    NOP,
    Print { reg: Token },
    PUSH { register_or_imm: Token },
    POP { reg: Token },
    AND_OR_XOR { type_op: TokenType, reg: Token, register_or_imm: Token },
}

#[allow(non_camel_case_types)]
pub ghost enum StmtV {
    MovLit { from: TokenView, register_or_imm: TokenView },
    Halt { token: TokenView },
    CMP { from_reg: TokenView, register_or_imm: TokenView },
    JMPZ { to: TokenView },
    JMPNZ { to: TokenView },
    JMPLE { to: TokenView },
    JMPGE { to: TokenView },
    JMPG { to: TokenView },
    JMPL { to: TokenView },
    JMP { to: TokenView },
    Call { to: TokenView },
    RET,
    ADD { lhs_reg: TokenView, right_reg_imm: TokenView },
    MOD { lhs_reg: TokenView, right_reg_imm: TokenView },
    SUB { lhs_reg: TokenView, right_reg_imm: TokenView },
    DIV { lhs_reg: TokenView, right_reg_imm: TokenView },
    MUL { lhs_reg: TokenView, right_reg_imm: TokenView },
    NOP,
    Print { reg: TokenView },
    PUSH { register_or_imm: TokenView },
    POP { reg: TokenView },
    AND_OR_XOR { type_op: TokenType, reg: TokenView, register_or_imm: TokenView },
}

impl View for Stmt {
    type V = StmtV;

    open spec fn view(&self) -> StmtV {
        match self {
            Stmt::MovLit { from, register_or_imm } => StmtV::MovLit {
                from: from@,
                register_or_imm: register_or_imm@,
            },
            Stmt::Halt { token } => StmtV::Halt { token: token@ },
            Stmt::CMP { from_reg, register_or_imm } => StmtV::CMP {
                from_reg: from_reg@,
                register_or_imm: register_or_imm@,
            },
            Stmt::JMPZ { to } => StmtV::JMPZ { to: to@ },
            Stmt::JMPNZ { to } => StmtV::JMPNZ { to: to@ },
            Stmt::JMPLE { to } => StmtV::JMPLE { to: to@ },
            Stmt::JMPGE { to } => StmtV::JMPGE { to: to@ },
            Stmt::JMPG { to } => StmtV::JMPG { to: to@ },
            Stmt::JMPL { to } => StmtV::JMPL { to: to@ },
            Stmt::JMP { to } => StmtV::JMP { to: to@ },
            Stmt::Call { to } => StmtV::Call { to: to@ },
            Stmt::RET => StmtV::RET,
            Stmt::ADD { lhs_reg, right_reg_imm } => StmtV::ADD {
                lhs_reg: lhs_reg@,
                right_reg_imm: right_reg_imm@,
            },
            Stmt::MOD { lhs_reg, right_reg_imm } => StmtV::MOD {
                lhs_reg: lhs_reg@,
                right_reg_imm: right_reg_imm@,
            },
            Stmt::SUB { lhs_reg, right_reg_imm } => StmtV::SUB {
                lhs_reg: lhs_reg@,
                right_reg_imm: right_reg_imm@,
            },
            Stmt::DIV { lhs_reg, right_reg_imm } => StmtV::DIV {
                lhs_reg: lhs_reg@,
                right_reg_imm: right_reg_imm@,
            },
            Stmt::MUL { lhs_reg, right_reg_imm } => StmtV::MUL {
                lhs_reg: lhs_reg@,
                right_reg_imm: right_reg_imm@,
            },
            Stmt::NOP => StmtV::NOP,
            Stmt::Print { reg } => StmtV::Print { reg: reg@ },
            Stmt::PUSH { register_or_imm } => StmtV::PUSH { register_or_imm: register_or_imm@ },
            Stmt::POP { reg } => StmtV::POP { reg: reg@ },
            Stmt::AND_OR_XOR { type_op, reg, register_or_imm } => StmtV::AND_OR_XOR {
                type_op: *type_op,
                reg: reg@,
                register_or_imm: register_or_imm@,
            },
        }
    }
}

pub open spec fn stmt_views(ss: Seq<Stmt>) -> Seq<StmtV> {
    ss.map_values(|s: Stmt| s@)
}

/// The literal text a token carries, empty when it carries none.
pub open spec fn lit_of(t: TokenView) -> Seq<u8> {
    match t.lit {
        Some(l) => l,
        None => Seq::empty(),
    }
}

pub open spec fn is_reg_or_imm(k: TokenType) -> bool {
    is_register_kind(k) || k == TokenType::INT
}

/// A well-formed token stream ends with an end-of-input token, as the
/// lexer always produces.
pub open spec fn wf_token_stream(toks: Seq<TokenView>) -> bool {
    toks.len() > 0 && toks.last().kind == TokenType::EOF
}

pub ghost struct TwoOp {
    pub lhs: TokenView,
    pub rhs: TokenView,
    pub next: int,
}

/// The operand shape shared by mov, the arithmetic and logical forms and
/// compare: a register, a comma, then a register or an integer literal.
pub open spec fn parse_two_op(toks: Seq<TokenView>, i: int) -> Result<TwoOp, AsmErrorV> {
    let r = toks[i + 1];
    if !is_register_kind(r.kind) {
        Err(AsmErrorV::ParseError { expected: Expected::Register, found: r.kind, line: r.line })
    } else {
        let c = toks[i + 2];
        if c.kind != TokenType::Comma {
            Err(AsmErrorV::ParseError { expected: Expected::Comma, found: c.kind, line: c.line })
        } else {
            let s2 = toks[i + 3];
            if !is_reg_or_imm(s2.kind) {
                Err(
                    AsmErrorV::ParseError {
                        expected: Expected::RegisterOrImmediate,
                        found: s2.kind,
                        line: s2.line,
                    },
                )
            } else {
                Ok(TwoOp { lhs: r, rhs: s2, next: i + 4 })
            }
        }
    }
}

/// The operand of a jump or call: one label reference.
pub open spec fn parse_label_operand(toks: Seq<TokenView>, i: int) -> Result<
    (TokenView, int),
    AsmErrorV,
> {
    let t = toks[i + 1];
    if t.kind != TokenType::LabelCall {
        Err(AsmErrorV::ParseError { expected: Expected::LabelName, found: t.kind, line: t.line })
    } else {
        Ok((t, i + 2))
    }
}

/// What parsing one statement at token index `i` yields: the statement,
/// a symbol-table entry if the statement defines a label, and the token
/// index of the next statement. `base` is the statement index this
/// statement will occupy.
pub ghost struct StepParsed {
    pub stmt: StmtV,
    pub entry: Option<SymEntryV>,
    pub next: int,
}

pub open spec fn step_ok(stmt: StmtV, next: int) -> Result<StepParsed, AsmErrorV> {
    Ok(StepParsed { stmt, entry: None, next })
}

pub open spec fn parse_stmt_at(toks: Seq<TokenView>, i: int, base: int) -> Result<
    StepParsed,
    AsmErrorV,
> {
    let t = toks[i];
    let k = t.kind;
    if k == TokenType::MOV {
        match parse_two_op(toks, i) {
            Ok(o) => step_ok(StmtV::MovLit { from: o.lhs, register_or_imm: o.rhs }, o.next),
            Err(e) => Err(e),
        }
    } else if k == TokenType::HALT {
        step_ok(StmtV::Halt { token: t }, i + 1)
    } else if k == TokenType::CMP {
        match parse_two_op(toks, i) {
            Ok(o) => step_ok(StmtV::CMP { from_reg: o.lhs, register_or_imm: o.rhs }, o.next),
            Err(e) => Err(e),
        }
    } else if k == TokenType::JMPG {
        match parse_label_operand(toks, i) {
            Ok((to, n)) => step_ok(StmtV::JMPG { to }, n),
            Err(e) => Err(e),
        }
    } else if k == TokenType::ADD {
        match parse_two_op(toks, i) {
            Ok(o) => step_ok(StmtV::ADD { lhs_reg: o.lhs, right_reg_imm: o.rhs }, o.next),
            Err(e) => Err(e),
        }
    } else if k == TokenType::SUB {
        match parse_two_op(toks, i) {
            Ok(o) => step_ok(StmtV::SUB { lhs_reg: o.lhs, right_reg_imm: o.rhs }, o.next),
            Err(e) => Err(e),
        }
    } else if k == TokenType::MUL {
        match parse_two_op(toks, i) {
            Ok(o) => step_ok(StmtV::MUL { lhs_reg: o.lhs, right_reg_imm: o.rhs }, o.next),
            Err(e) => Err(e),
        }
    } else if k == TokenType::DIV {
        match parse_two_op(toks, i) {
            Ok(o) => step_ok(StmtV::DIV { lhs_reg: o.lhs, right_reg_imm: o.rhs }, o.next),
            Err(e) => Err(e),
        }
    } else if k == TokenType::MOD {
        match parse_two_op(toks, i) {
            Ok(o) => step_ok(StmtV::MOD { lhs_reg: o.lhs, right_reg_imm: o.rhs }, o.next),
            Err(e) => Err(e),
        }
    } else if k == TokenType::JUMP {
        match parse_label_operand(toks, i) {
            Ok((to, n)) => step_ok(StmtV::JMP { to }, n),
            Err(e) => Err(e),
        }
    } else if k == TokenType::Print {
        let r = toks[i + 1];
        if !is_register_kind(r.kind) {
            Err(AsmErrorV::ParseError { expected: Expected::Register, found: r.kind, line: r.line })
        } else {
            step_ok(StmtV::Print { reg: r }, i + 2)
        }
    } else if k == TokenType::LabelDef {
        Ok(
            StepParsed {
                stmt: StmtV::NOP,
                entry: Some(SymEntryV { name: lit_of(t), index: base }),
                next: i + 1,
            },
        )
    } else if k == TokenType::Call {
        match parse_label_operand(toks, i) {
            Ok((to, n)) => step_ok(StmtV::Call { to }, n),
            Err(e) => Err(e),
        }
    } else if k == TokenType::Ret {
        step_ok(StmtV::RET, i + 1)
    } else if k == TokenType::JMPL {
        match parse_label_operand(toks, i) {
            Ok((to, n)) => step_ok(StmtV::JMPL { to }, n),
            Err(e) => Err(e),
        }
    } else if k == TokenType::PUSH {
        let s2 = toks[i + 1];
        if !is_reg_or_imm(s2.kind) {
            Err(
                AsmErrorV::ParseError {
                    expected: Expected::RegisterOrImmediate,
                    found: s2.kind,
                    line: s2.line,
                },
            )
        } else {
            step_ok(StmtV::PUSH { register_or_imm: s2 }, i + 2)
        }
    } else if k == TokenType::POP {
        let r = toks[i + 1];
        if !is_register_kind(r.kind) {
            Err(AsmErrorV::ParseError { expected: Expected::Register, found: r.kind, line: r.line })
        } else {
            step_ok(StmtV::POP { reg: r }, i + 2)
        }
    } else if k == TokenType::AND || k == TokenType::OR || k == TokenType::XOR {
        match parse_two_op(toks, i) {
            Ok(o) => step_ok(
                StmtV::AND_OR_XOR { type_op: k, reg: o.lhs, register_or_imm: o.rhs },
                o.next,
            ),
            Err(e) => Err(e),
        }
    } else if k == TokenType::JMPZ {
        match parse_label_operand(toks, i) {
            Ok((to, n)) => step_ok(StmtV::JMPZ { to }, n),
            Err(e) => Err(e),
        }
    } else if k == TokenType::JMPNZ {
        match parse_label_operand(toks, i) {
            Ok((to, n)) => step_ok(StmtV::JMPNZ { to }, n),
            Err(e) => Err(e),
        }
    } else if k == TokenType::JMPLE {
        match parse_label_operand(toks, i) {
            Ok((to, n)) => step_ok(StmtV::JMPLE { to }, n),
            Err(e) => Err(e),
        }
    } else if k == TokenType::JMPGE {
        match parse_label_operand(toks, i) {
            Ok((to, n)) => step_ok(StmtV::JMPGE { to }, n),
            Err(e) => Err(e),
        }
    } else {
        Err(AsmErrorV::ParseError { expected: Expected::Statement, found: k, line: t.line })
    }
}

/// The statements and symbol-table entries parsed from token index `i` to
/// the end-of-input token, with `base` the statement index of the first.
pub ghost struct ParsedV {
    pub stmts: Seq<StmtV>,
    pub entries: Seq<SymEntryV>,
}

pub open spec fn opt_entry_seq(e: Option<SymEntryV>) -> Seq<SymEntryV> {
    match e {
        Some(v) => seq![v],
        None => Seq::empty(),
    }
}

pub open spec fn parse_from(toks: Seq<TokenView>, i: int, base: int) -> Result<ParsedV, AsmErrorV>
    decreases toks.len() - i,
    via parse_from_decreases
{
    if !(0 <= i < toks.len()) || toks[i].kind == TokenType::EOF {
        Ok(ParsedV { stmts: Seq::empty(), entries: Seq::empty() })
    } else {
        match parse_stmt_at(toks, i, base) {
            Err(e) => Err(e),
            Ok(sp) => {
                if !(i < sp.next <= toks.len()) {
                    // never the case; parsing a statement consumes tokens
                    Err(AsmErrorV::ParseError {
                        expected: Expected::Statement,
                        found: toks[i].kind,
                        line: toks[i].line,
                    })
                } else {
                    match parse_from(toks, sp.next, base + 1) {
                        Err(e) => Err(e),
                        Ok(p) => Ok(
                            ParsedV {
                                stmts: seq![sp.stmt] + p.stmts,
                                entries: opt_entry_seq(sp.entry) + p.entries,
                            },
                        ),
                    }
                }
            },
        }
    }
}

#[via_fn]
proof fn parse_from_decreases(toks: Seq<TokenView>, i: int, base: int) {
}

/// `parse_from` with accumulators for the statements and entries already
/// produced; the statement index base is the accumulator's length, which
/// is what ties label entries to absolute statement indices.
pub open spec fn parse_cont(
    toks: Seq<TokenView>,
    i: int,
    acc_s: Seq<StmtV>,
    acc_e: Seq<SymEntryV>,
) -> Result<ParsedV, AsmErrorV> {
    match parse_from(toks, i, acc_s.len() as int) {
        Ok(p) => Ok(ParsedV { stmts: acc_s + p.stmts, entries: acc_e + p.entries }),
        Err(e) => Err(e),
    }
}

proof fn lemma_parse_cont_step(
    toks: Seq<TokenView>,
    i: int,
    acc_s: Seq<StmtV>,
    acc_e: Seq<SymEntryV>,
    sp: StepParsed,
)
    requires
        0 <= i < toks.len(),
        toks[i].kind != TokenType::EOF,
        parse_stmt_at(toks, i, acc_s.len() as int) == Ok::<StepParsed, AsmErrorV>(sp),
        i < sp.next <= toks.len(),
    ensures
        parse_cont(toks, i, acc_s, acc_e) == parse_cont(
            toks,
            sp.next,
            acc_s.push(sp.stmt),
            acc_e + opt_entry_seq(sp.entry),
        ),
{
    assert(acc_s.push(sp.stmt).len() as int == acc_s.len() + 1);
    match parse_from(toks, sp.next, acc_s.len() as int + 1) {
        Ok(p) => {
            assert(acc_s + (seq![sp.stmt] + p.stmts) =~= acc_s.push(sp.stmt) + p.stmts);
            assert(acc_e + (opt_entry_seq(sp.entry) + p.entries) =~= (acc_e + opt_entry_seq(
                sp.entry,
            )) + p.entries);
        },
        Err(_) => {},
    }
}

/// A successful lookup names an entry of the table: the index handed
/// back was recorded for that label name.
pub proof fn lemma_lookup_found(tbl: Seq<SymEntryV>, name: Seq<u8>)
    requires
        lookup_sym(tbl, name) is Some,
    ensures
        exists|k: int|
            0 <= k < tbl.len() && (#[trigger] tbl[k]).name == name && Some(tbl[k].index)
                == lookup_sym(tbl, name),
    decreases tbl.len(),
{
    if tbl.len() > 0 {
        if tbl.last().name == name {
            assert(tbl[tbl.len() - 1].name == name);
        } else {
            lemma_lookup_found(tbl.drop_last(), name);
            let k = choose|k: int|
                0 <= k < tbl.drop_last().len() && (#[trigger] tbl.drop_last()[k]).name == name
                    && Some(tbl.drop_last()[k].index) == lookup_sym(tbl.drop_last(), name);
            assert(tbl[k].name == name);
        }
    }
}

/// What one parsed statement contributes to the symbol table: only a
/// label definition adds an entry, it maps the name to the statement
/// index `base` of the no-op placeholder emitted with it, and parsing
/// always moves forward.
proof fn lemma_parse_stmt_entry(toks: Seq<TokenView>, i: int, base: int)
    requires
        parse_stmt_at(toks, i, base) is Ok,
    ensures
        parse_stmt_at(toks, i, base) matches Ok(sp) && {
            &&& i < sp.next
            &&& (match sp.entry {
                Some(ev) => ev.index == base && sp.stmt == StmtV::NOP,
                None => true,
            })
        },
{
}

/// Every symbol-table entry a parse produces points at the no-op
/// placeholder statement emitted by its label definition: entry indices
/// are statement positions, counted from `base`.
pub proof fn lemma_parse_entries_are_placeholders(toks: Seq<TokenView>, i: int, base: int)
    requires
        parse_from(toks, i, base) is Ok,
    ensures
        parse_from(toks, i, base) matches Ok(p) && (forall|k: int|
            0 <= k < p.entries.len() ==> {
                &&& base <= (#[trigger] p.entries[k]).index < base + p.stmts.len()
                &&& p.stmts[p.entries[k].index - base] == StmtV::NOP
            }),
    decreases toks.len() - i,
{
    if !(0 <= i < toks.len()) || toks[i].kind == TokenType::EOF {
    } else {
        match parse_stmt_at(toks, i, base) {
            Ok(sp) => {
                lemma_parse_stmt_entry(toks, i, base);
                if i < sp.next <= toks.len() {
                    lemma_parse_entries_are_placeholders(toks, sp.next, base + 1);
                    match parse_from(toks, sp.next, base + 1) {
                        Ok(ptail) => {
                            let hs = seq![sp.stmt];
                            let he = opt_entry_seq(sp.entry);
                            let stmts = hs + ptail.stmts;
                            let entries = he + ptail.entries;
                            assert forall|k: int| 0 <= k < entries.len() implies {
                                &&& base <= (#[trigger] entries[k]).index < base + stmts.len()
                                &&& stmts[entries[k].index - base] == StmtV::NOP
                            } by {
                                if k < he.len() {
                                    assert(entries[k] == he[k]);
                                    assert(stmts[0] == sp.stmt);
                                } else {
                                    assert(entries[k] == ptail.entries[k - he.len()]);
                                    let idx = ptail.entries[k - he.len()].index;
                                    assert(base + 1 <= idx < base + 1 + ptail.stmts.len());
                                    assert(stmts[idx - base] == ptail.stmts[idx - base - 1]);
                                }
                            }
                        },
                        Err(_) => {},
                    }
                }
            },
            Err(_) => {},
        }
    }
}

pub(crate) fn clone_bytes(v: &Vec<u8>) -> (r: Vec<u8>)
    ensures
        r@ == v@,
{
    let mut out: Vec<u8> = Vec::new();
    let mut i: usize = 0;
    while i < v.len()
        invariant
            i <= v@.len(),
            out@ == v@.take(i as int),
        decreases v@.len() - i,
    {
        out.push(v[i]);
        proof {
            assert(v@.take(i + 1) =~= v@.take(i as int).push(v@[i as int]));
        }
        i = i + 1;
    }
    proof {
        assert(v@.take(v@.len() as int) =~= v@);
    }
    out
}

pub(crate) fn copy_token(t: &Token) -> (r: Token)
    ensures
        r@ == t@,
{
    Token {
        token_type: t.token_type,
        literal: match &t.literal {
            Some(v) => Some(clone_bytes(v)),
            None => None,
        },
        line_number: t.line_number,
    }
}

/// The parser: owns the token stream, the statements and symbol table
/// built so far, and the position of the next token to consume.
pub struct Parser {
    pub tokens: Vec<Token>,
    pub statements: Vec<Stmt>,
    pub current: usize,
    pub mapping_table: Vec<SymEntry>,
}

impl Parser {
    pub fn get_table(&self) -> (r: &Vec<SymEntry>)
        ensures
            r@ == self.mapping_table@,
    {
        &self.mapping_table
    }

    pub fn new(tokens: Vec<Token>) -> (r: Parser)
        ensures
            r.tokens@ == tokens@,
            r.statements@.len() == 0,
            r.current == 0,
            r.mapping_table@.len() == 0,
    {
        Parser { tokens, statements: Vec::new(), current: 0, mapping_table: Vec::new() }
    }

    pub fn peek(&self) -> (r: &Token)
        requires
            self.current < self.tokens@.len(),
        ensures
            r@ == self.tokens@[self.current as int]@,
    {
        &self.tokens[self.current]
    }

    pub fn advance(&mut self) -> (r: Token)
        requires
            old(self).current < old(self).tokens@.len(),
        ensures
            final(self).tokens@ == old(self).tokens@,
            final(self).statements@ == old(self).statements@,
            final(self).mapping_table@ == old(self).mapping_table@,
            final(self).current == old(self).current + 1,
            r@ == old(self).tokens@[old(self).current as int]@,
    {
        let n = self.tokens.len();
        let token = copy_token(&self.tokens[self.current]);
        self.current = self.current + 1;
        token
    }

    #[inline]
    fn is_end(&self) -> (r: bool)
        requires
            self.current < self.tokens@.len(),
        ensures
            r == (self.tokens@[self.current as int]@.kind == TokenType::EOF),
    {
        self.peek().token_type == TokenType::EOF
    }

    fn previous(&self) -> (r: Token)
        requires
            0 < self.current <= self.tokens@.len(),
        ensures
            r@ == self.tokens@[self.current - 1]@,
    {
        copy_token(&self.tokens[self.current - 1])
    }

    /// Consumes the current token when its kind is among `token`.
    pub fn match_(&mut self, token: &[TokenType]) -> (r: bool)
        requires
            old(self).current < old(self).tokens@.len(),
        ensures
            final(self).tokens@ == old(self).tokens@,
            final(self).statements@ == old(self).statements@,
            final(self).mapping_table@ == old(self).mapping_table@,
            r == (exists|k: int|
                0 <= k < token@.len() && token@[k] == old(self).tokens@[old(
                    self,
                ).current as int]@.kind),
            r ==> final(self).current == old(self).current + 1,
            !r ==> final(self).current == old(self).current,
    {
        let n = self.tokens.len();
        let kind = self.tokens[self.current].token_type;
        let mut i: usize = 0;
        while i < token.len()
            invariant
                i <= token@.len(),
                self.tokens@ == old(self).tokens@,
                self.statements@ == old(self).statements@,
                self.mapping_table@ == old(self).mapping_table@,
                self.current == old(self).current,
                self.current < self.tokens@.len(),
                self.tokens@.len() <= usize::MAX,
                kind == self.tokens@[self.current as int]@.kind,
                forall|k: int| 0 <= k < i ==> token@[k] != kind,
            decreases token@.len() - i,
        {
            if token[i] == kind {
                self.current = self.current + 1;
                return true;
            }
            i = i + 1;
        }
        false
    }

    /// Consumes a register token, or reports what stood in its place.
    fn consume_register(&mut self) -> (r: Result<Token, AsmError>)
        requires
            wf_token_stream(views_of(old(self).tokens@)),
            old(self).current < old(self).tokens@.len(),
        ensures
            final(self).tokens@ == old(self).tokens@,
            final(self).statements@ == old(self).statements@,
            final(self).mapping_table@ == old(self).mapping_table@,
            ({
                let t = old(self).tokens@[old(self).current as int]@;
                if is_register_kind(t.kind) {
                    &&& r matches Ok(tok) && tok@ == t
                    &&& final(self).current == old(self).current + 1
                    &&& final(self).current < final(self).tokens@.len()
                } else {
                    &&& r matches Err(ae) && ae@ == (AsmErrorV::ParseError {
                        expected: Expected::Register,
                        found: t.kind,
                        line: t.line,
                    })
                    &&& final(self).current == old(self).current
                }
            }),
    {
        let k = self.tokens[self.current].token_type;
        match k {
            TokenType::R0 | TokenType::R1 | TokenType::R2 | TokenType::R3 | TokenType::R4
                | TokenType::R5 | TokenType::R6 | TokenType::R7 => {
                proof {
                    assert(views_of(self.tokens@).last().kind == TokenType::EOF);
                    assert(views_of(self.tokens@)[self.current as int].kind != TokenType::EOF);
                }
                Ok(self.advance())
            },
            _ => {
                let t = self.peek();
                Err(
                    AsmError::ParseError {
                        expected: Expected::Register,
                        found: t.token_type,
                        line: t.line_number,
                    },
                )
            },
        }
    }

    /// Consumes a register or integer-literal token.
    fn consume_reg_or_imm(&mut self) -> (r: Result<Token, AsmError>)
        requires
            wf_token_stream(views_of(old(self).tokens@)),
            old(self).current < old(self).tokens@.len(),
        ensures
            final(self).tokens@ == old(self).tokens@,
            final(self).statements@ == old(self).statements@,
            final(self).mapping_table@ == old(self).mapping_table@,
            ({
                let t = old(self).tokens@[old(self).current as int]@;
                if is_reg_or_imm(t.kind) {
                    &&& r matches Ok(tok) && tok@ == t
                    &&& final(self).current == old(self).current + 1
                    &&& final(self).current < final(self).tokens@.len()
                } else {
                    &&& r matches Err(ae) && ae@ == (AsmErrorV::ParseError {
                        expected: Expected::RegisterOrImmediate,
                        found: t.kind,
                        line: t.line,
                    })
                    &&& final(self).current == old(self).current
                }
            }),
    {
        let k = self.tokens[self.current].token_type;
        match k {
            TokenType::R0 | TokenType::R1 | TokenType::R2 | TokenType::R3 | TokenType::R4
                | TokenType::R5 | TokenType::R6 | TokenType::R7 | TokenType::INT => {
                proof {
                    assert(views_of(self.tokens@).last().kind == TokenType::EOF);
                    assert(views_of(self.tokens@)[self.current as int].kind != TokenType::EOF);
                }
                Ok(self.advance())
            },
            _ => {
                let t = self.peek();
                Err(
                    AsmError::ParseError {
                        expected: Expected::RegisterOrImmediate,
                        found: t.token_type,
                        line: t.line_number,
                    },
                )
            },
        }
    }

    /// Consumes a label-reference token.
    fn consume_label(&mut self) -> (r: Result<Token, AsmError>)
        requires
            wf_token_stream(views_of(old(self).tokens@)),
            old(self).current < old(self).tokens@.len(),
        ensures
            final(self).tokens@ == old(self).tokens@,
            final(self).statements@ == old(self).statements@,
            final(self).mapping_table@ == old(self).mapping_table@,
            ({
                let t = old(self).tokens@[old(self).current as int]@;
                if t.kind == TokenType::LabelCall {
                    &&& r matches Ok(tok) && tok@ == t
                    &&& final(self).current == old(self).current + 1
                    &&& final(self).current < final(self).tokens@.len()
                } else {
                    &&& r matches Err(ae) && ae@ == (AsmErrorV::ParseError {
                        expected: Expected::LabelName,
                        found: t.kind,
                        line: t.line,
                    })
                    &&& final(self).current == old(self).current
                }
            }),
    {
        let k = self.tokens[self.current].token_type;
        if k == TokenType::LabelCall {
            proof {
                assert(views_of(self.tokens@).last().kind == TokenType::EOF);
                assert(views_of(self.tokens@)[self.current as int].kind != TokenType::EOF);
            }
            Ok(self.advance())
        } else {
            let t = self.peek();
            Err(
                AsmError::ParseError {
                    expected: Expected::LabelName,
                    found: t.token_type,
                    line: t.line_number,
                },
            )
        }
    }

    /// Consumes the expected punctuation token, the comma between the two
    /// operands.
    fn consume(&mut self, expected: TokenType) -> (r: Result<(), AsmError>)
        requires
            wf_token_stream(views_of(old(self).tokens@)),
            old(self).current < old(self).tokens@.len(),
            expected == TokenType::Comma,
        ensures
            final(self).tokens@ == old(self).tokens@,
            final(self).statements@ == old(self).statements@,
            final(self).mapping_table@ == old(self).mapping_table@,
            ({
                let t = old(self).tokens@[old(self).current as int]@;
                if t.kind == expected {
                    &&& r matches Ok(u)
                    &&& final(self).current == old(self).current + 1
                    &&& final(self).current < final(self).tokens@.len()
                } else {
                    &&& r matches Err(ae) && ae@ == (AsmErrorV::ParseError {
                        expected: Expected::Comma,
                        found: t.kind,
                        line: t.line,
                    })
                    &&& final(self).current == old(self).current
                }
            }),
    {
        let n = self.tokens.len();
        let k = self.tokens[self.current].token_type;
        if k == expected {
            proof {
                assert(views_of(self.tokens@).last().kind == TokenType::EOF);
                assert(views_of(self.tokens@)[self.current as int].kind != TokenType::EOF);
            }
            self.current = self.current + 1;
            Ok(())
        } else {
            let t = self.peek();
            Err(
                AsmError::ParseError {
                    expected: Expected::Comma,
                    found: t.token_type,
                    line: t.line_number,
                },
            )
        }
    }

    /// Consumes the `register, register-or-immediate` operand pair that
    /// the two-operand statement forms share. On entry the mnemonic at
    /// `current - 1` has already been consumed.
    fn two_op_operands(&mut self) -> (r: Result<(Token, Token), AsmError>)
        requires
            wf_token_stream(views_of(old(self).tokens@)),
            0 < old(self).current < old(self).tokens@.len(),
        ensures
            final(self).tokens@ == old(self).tokens@,
            final(self).statements@ == old(self).statements@,
            final(self).mapping_table@ == old(self).mapping_table@,
            (match parse_two_op(views_of(old(self).tokens@), old(self).current - 1) {
                Ok(o) => {
                    &&& r matches Ok(p) && p.0@ == o.lhs && p.1@ == o.rhs
                    &&& final(self).current == o.next
                    &&& final(self).current < final(self).tokens@.len()
                },
                Err(e) => r matches Err(ae) && ae@ == e,
            }),
    {
        let lhs = match self.consume_register() {
            Ok(t) => t,
            Err(e) => {
                return Err(e);
            },
        };
        match self.consume(TokenType::Comma) {
            Ok(()) => {},
            Err(e) => {
                return Err(e);
            },
        }
        let rhs = match self.consume_reg_or_imm() {
            Ok(t) => t,
            Err(e) => {
                return Err(e);
            },
        };
        Ok((lhs, rhs))
    }

    fn push_stmt(&mut self, s: Stmt)
        ensures
            final(self).tokens@ == old(self).tokens@,
            final(self).current == old(self).current,
            final(self).mapping_table@ == old(self).mapping_table@,
            final(self).statements@.len() == old(self).statements@.len() + 1,
            stmt_views(final(self).statements@) == stmt_views(old(self).statements@).push(s@),
    {
        self.statements.push(s);
        proof {
            assert(stmt_views(self.statements@) =~= stmt_views(old(self).statements@).push(
                self.statements@.last()@,
            ));
        }
    }

    fn mov_statement(&mut self) -> (r: Result<(), AsmError>)
        requires
            wf_token_stream(views_of(old(self).tokens@)),
            0 < old(self).current < old(self).tokens@.len(),
        ensures
            final(self).tokens@ == old(self).tokens@,
            (match parse_two_op(views_of(old(self).tokens@), old(self).current - 1) {
                Ok(o) => {
                    &&& r matches Ok(u)
                    &&& stmt_views(final(self).statements@) == stmt_views(
                        old(self).statements@,
                    ).push(StmtV::MovLit { from: o.lhs, register_or_imm: o.rhs })
                    &&& final(self).mapping_table@ == old(self).mapping_table@
                    &&& final(self).current == o.next
                    &&& final(self).current < final(self).tokens@.len()
                },
                Err(e) => r matches Err(ae) && ae@ == e,
            }),
    {
        let (lhs, rhs) = match self.two_op_operands() {
            Ok(p) => p,
            Err(e) => {
                return Err(e);
            },
        };
        self.push_stmt(Stmt::MovLit { from: lhs, register_or_imm: rhs });
        Ok(())
    }

    pub fn compare_stmt(&mut self) -> (r: Result<(), AsmError>)
        requires
            wf_token_stream(views_of(old(self).tokens@)),
            0 < old(self).current < old(self).tokens@.len(),
        ensures
            final(self).tokens@ == old(self).tokens@,
            (match parse_two_op(views_of(old(self).tokens@), old(self).current - 1) {
                Ok(o) => {
                    &&& r matches Ok(u)
                    &&& stmt_views(final(self).statements@) == stmt_views(
                        old(self).statements@,
                    ).push(StmtV::CMP { from_reg: o.lhs, register_or_imm: o.rhs })
                    &&& final(self).mapping_table@ == old(self).mapping_table@
                    &&& final(self).current == o.next
                    &&& final(self).current < final(self).tokens@.len()
                },
                Err(e) => r matches Err(ae) && ae@ == e,
            }),
    {
        let (lhs, rhs) = match self.two_op_operands() {
            Ok(p) => p,
            Err(e) => {
                return Err(e);
            },
        };
        self.push_stmt(Stmt::CMP { from_reg: lhs, register_or_imm: rhs });
        Ok(())
    }

    /// The statement an arithmetic mnemonic parses to.
    pub open spec fn arith_stmt_v(op: TokenType, lhs: TokenView, rhs: TokenView) -> StmtV {
        if op == TokenType::ADD {
            StmtV::ADD { lhs_reg: lhs, right_reg_imm: rhs }
        } else if op == TokenType::SUB {
            StmtV::SUB { lhs_reg: lhs, right_reg_imm: rhs }
        } else if op == TokenType::MUL {
            StmtV::MUL { lhs_reg: lhs, right_reg_imm: rhs }
        } else if op == TokenType::DIV {
            StmtV::DIV { lhs_reg: lhs, right_reg_imm: rhs }
        } else {
            StmtV::MOD { lhs_reg: lhs, right_reg_imm: rhs }
        }
    }

    /// Shared by add, sub, mul, div and mod: one register, a comma, one
    /// register-or-immediate, pushed as the variant `op` selects.
    fn arith_stmt(&mut self, op: TokenType) -> (r: Result<(), AsmError>)
        requires
            wf_token_stream(views_of(old(self).tokens@)),
            0 < old(self).current < old(self).tokens@.len(),
            op == TokenType::ADD || op == TokenType::SUB || op == TokenType::MUL || op
                == TokenType::DIV || op == TokenType::MOD,
        ensures
            final(self).tokens@ == old(self).tokens@,
            (match parse_two_op(views_of(old(self).tokens@), old(self).current - 1) {
                Ok(o) => {
                    &&& r matches Ok(u)
                    &&& stmt_views(final(self).statements@) == stmt_views(
                        old(self).statements@,
                    ).push(Self::arith_stmt_v(op, o.lhs, o.rhs))
                    &&& final(self).mapping_table@ == old(self).mapping_table@
                    &&& final(self).current == o.next
                    &&& final(self).current < final(self).tokens@.len()
                },
                Err(e) => r matches Err(ae) && ae@ == e,
            }),
    {
        let (lhs, rhs) = match self.two_op_operands() {
            Ok(p) => p,
            Err(e) => {
                return Err(e);
            },
        };
        match op {
            TokenType::ADD => self.push_stmt(Stmt::ADD { lhs_reg: lhs, right_reg_imm: rhs }),
            TokenType::SUB => self.push_stmt(Stmt::SUB { lhs_reg: lhs, right_reg_imm: rhs }),
            TokenType::MUL => self.push_stmt(Stmt::MUL { lhs_reg: lhs, right_reg_imm: rhs }),
            TokenType::DIV => self.push_stmt(Stmt::DIV { lhs_reg: lhs, right_reg_imm: rhs }),
            _ => self.push_stmt(Stmt::MOD { lhs_reg: lhs, right_reg_imm: rhs }),
        }
        Ok(())
    }

    fn bit_wise(&mut self) -> (r: Result<(), AsmError>)
        requires
            wf_token_stream(views_of(old(self).tokens@)),
            0 < old(self).current < old(self).tokens@.len(),
        ensures
            final(self).tokens@ == old(self).tokens@,
            (match parse_two_op(views_of(old(self).tokens@), old(self).current - 1) {
                Ok(o) => {
                    &&& r matches Ok(u)
                    &&& stmt_views(final(self).statements@) == stmt_views(
                        old(self).statements@,
                    ).push(
                        StmtV::AND_OR_XOR {
                            type_op: old(self).tokens@[old(self).current - 1]@.kind,
                            reg: o.lhs,
                            register_or_imm: o.rhs,
                        },
                    )
                    &&& final(self).mapping_table@ == old(self).mapping_table@
                    &&& final(self).current == o.next
                    &&& final(self).current < final(self).tokens@.len()
                },
                Err(e) => r matches Err(ae) && ae@ == e,
            }),
    {
        let type_op = self.previous().token_type;
        let (reg, register_or_imm) = match self.two_op_operands() {
            Ok(p) => p,
            Err(e) => {
                return Err(e);
            },
        };
        self.push_stmt(Stmt::AND_OR_XOR { type_op, reg, register_or_imm });
        Ok(())
    }

    pub fn pop(&mut self) -> (r: Result<(), AsmError>)
        requires
            wf_token_stream(views_of(old(self).tokens@)),
            old(self).current < old(self).tokens@.len(),
        ensures
            final(self).tokens@ == old(self).tokens@,
            ({
                let t = old(self).tokens@[old(self).current as int]@;
                if is_register_kind(t.kind) {
                    &&& r matches Ok(u)
                    &&& stmt_views(final(self).statements@) == stmt_views(
                        old(self).statements@,
                    ).push(StmtV::POP { reg: t })
                    &&& final(self).mapping_table@ == old(self).mapping_table@
                    &&& final(self).current == old(self).current + 1
                    &&& final(self).current < final(self).tokens@.len()
                } else {
                    r matches Err(ae) && ae@ == (AsmErrorV::ParseError {
                        expected: Expected::Register,
                        found: t.kind,
                        line: t.line,
                    })
                }
            }),
    {
        let reg = match self.consume_register() {
            Ok(t) => t,
            Err(e) => {
                return Err(e);
            },
        };
        self.push_stmt(Stmt::POP { reg });
        Ok(())
    }

    pub fn push(&mut self) -> (r: Result<(), AsmError>)
        requires
            wf_token_stream(views_of(old(self).tokens@)),
            old(self).current < old(self).tokens@.len(),
        ensures
            final(self).tokens@ == old(self).tokens@,
            ({
                let t = old(self).tokens@[old(self).current as int]@;
                if is_reg_or_imm(t.kind) {
                    &&& r matches Ok(u)
                    &&& stmt_views(final(self).statements@) == stmt_views(
                        old(self).statements@,
                    ).push(StmtV::PUSH { register_or_imm: t })
                    &&& final(self).mapping_table@ == old(self).mapping_table@
                    &&& final(self).current == old(self).current + 1
                    &&& final(self).current < final(self).tokens@.len()
                } else {
                    r matches Err(ae) && ae@ == (AsmErrorV::ParseError {
                        expected: Expected::RegisterOrImmediate,
                        found: t.kind,
                        line: t.line,
                    })
                }
            }),
    {
        let register_or_imm = match self.consume_reg_or_imm() {
            Ok(t) => t,
            Err(e) => {
                return Err(e);
            },
        };
        self.push_stmt(Stmt::PUSH { register_or_imm });
        Ok(())
    }

    pub fn print_st(&mut self) -> (r: Result<(), AsmError>)
        requires
            wf_token_stream(views_of(old(self).tokens@)),
            old(self).current < old(self).tokens@.len(),
        ensures
            final(self).tokens@ == old(self).tokens@,
            ({
                let t = old(self).tokens@[old(self).current as int]@;
                if is_register_kind(t.kind) {
                    &&& r matches Ok(u)
                    &&& stmt_views(final(self).statements@) == stmt_views(
                        old(self).statements@,
                    ).push(StmtV::Print { reg: t })
                    &&& final(self).mapping_table@ == old(self).mapping_table@
                    &&& final(self).current == old(self).current + 1
                    &&& final(self).current < final(self).tokens@.len()
                } else {
                    r matches Err(ae) && ae@ == (AsmErrorV::ParseError {
                        expected: Expected::Register,
                        found: t.kind,
                        line: t.line,
                    })
                }
            }),
    {
        let reg = match self.consume_register() {
            Ok(t) => t,
            Err(e) => {
                return Err(e);
            },
        };
        self.push_stmt(Stmt::Print { reg });
        Ok(())
    }

    pub fn call(&mut self) -> (r: Result<(), AsmError>)
        requires
            wf_token_stream(views_of(old(self).tokens@)),
            old(self).current < old(self).tokens@.len(),
        ensures
            final(self).tokens@ == old(self).tokens@,
            ({
                let t = old(self).tokens@[old(self).current as int]@;
                if t.kind == TokenType::LabelCall {
                    &&& r matches Ok(u)
                    &&& stmt_views(final(self).statements@) == stmt_views(
                        old(self).statements@,
                    ).push(StmtV::Call { to: t })
                    &&& final(self).mapping_table@ == old(self).mapping_table@
                    &&& final(self).current == old(self).current + 1
                    &&& final(self).current < final(self).tokens@.len()
                } else {
                    r matches Err(ae) && ae@ == (AsmErrorV::ParseError {
                        expected: Expected::LabelName,
                        found: t.kind,
                        line: t.line,
                    })
                }
            }),
    {
        let to = match self.consume_label() {
            Ok(t) => t,
            Err(e) => {
                return Err(e);
            },
        };
        self.push_stmt(Stmt::Call { to });
        Ok(())
    }

    pub fn jump_stmt(&mut self) -> (r: Result<(), AsmError>)
        requires
            wf_token_stream(views_of(old(self).tokens@)),
            old(self).current < old(self).tokens@.len(),
        ensures
            final(self).tokens@ == old(self).tokens@,
            ({
                let t = old(self).tokens@[old(self).current as int]@;
                if t.kind == TokenType::LabelCall {
                    &&& r matches Ok(u)
                    &&& stmt_views(final(self).statements@) == stmt_views(
                        old(self).statements@,
                    ).push(StmtV::JMPG { to: t })
                    &&& final(self).mapping_table@ == old(self).mapping_table@
                    &&& final(self).current == old(self).current + 1
                    &&& final(self).current < final(self).tokens@.len()
                } else {
                    r matches Err(ae) && ae@ == (AsmErrorV::ParseError {
                        expected: Expected::LabelName,
                        found: t.kind,
                        line: t.line,
                    })
                }
            }),
    {
        let to = match self.consume_label() {
            Ok(t) => t,
            Err(e) => {
                return Err(e);
            },
        };
        self.push_stmt(Stmt::JMPG { to });
        Ok(())
    }

    pub fn jump_stmt_2(&mut self) -> (r: Result<(), AsmError>)
        requires
            wf_token_stream(views_of(old(self).tokens@)),
            old(self).current < old(self).tokens@.len(),
        ensures
            final(self).tokens@ == old(self).tokens@,
            ({
                let t = old(self).tokens@[old(self).current as int]@;
                if t.kind == TokenType::LabelCall {
                    &&& r matches Ok(u)
                    &&& stmt_views(final(self).statements@) == stmt_views(
                        old(self).statements@,
                    ).push(StmtV::JMPL { to: t })
                    &&& final(self).mapping_table@ == old(self).mapping_table@
                    &&& final(self).current == old(self).current + 1
                    &&& final(self).current < final(self).tokens@.len()
                } else {
                    r matches Err(ae) && ae@ == (AsmErrorV::ParseError {
                        expected: Expected::LabelName,
                        found: t.kind,
                        line: t.line,
                    })
                }
            }),
    {
        let to = match self.consume_label() {
            Ok(t) => t,
            Err(e) => {
                return Err(e);
            },
        };
        self.push_stmt(Stmt::JMPL { to });
        Ok(())
    }

    /// Emits the no-op placeholder for a label definition and records the
    /// label name against the placeholder's statement index.
    pub fn label_def(&mut self)
        requires
            0 < old(self).current <= old(self).tokens@.len(),
        ensures
            final(self).tokens@ == old(self).tokens@,
            final(self).current == old(self).current,
            stmt_views(final(self).statements@) == stmt_views(old(self).statements@).push(
                StmtV::NOP,
            ),
            sym_views(final(self).mapping_table@) == sym_views(old(self).mapping_table@).push(
                SymEntryV {
                    name: lit_of(old(self).tokens@[old(self).current - 1]@),
                    index: old(self).statements@.len() as int,
                },
            ),
    {
        let token = self.previous();
        self.push_stmt(Stmt::NOP);
        let index = self.statements.len() - 1;
        let name = match token.literal {
            Some(v) => v,
            None => Vec::new(),
        };
        self.mapping_table.push(SymEntry { name, index });
        proof {
            assert(sym_views(self.mapping_table@) =~= sym_views(old(self).mapping_table@).push(
                self.mapping_table@.last()@,
            ));
        }
    }

    fn halt(&mut self)
        requires
            0 < old(self).current <= old(self).tokens@.len(),
        ensures
            final(self).tokens@ == old(self).tokens@,
            final(self).current == old(self).current,
            final(self).mapping_table@ == old(self).mapping_table@,
            stmt_views(final(self).statements@) == stmt_views(old(self).statements@).push(
                StmtV::Halt { token: old(self).tokens@[old(self).current - 1]@ },
            ),
    {
        let token = self.previous();
        self.push_stmt(Stmt::Halt { token });
    }

    /// Parses one statement, dispatching on the current token's mnemonic.
    #[verifier::rlimit(100)]
    pub fn statements(&mut self) -> (r: Result<(), AsmError>)
        requires
            wf_token_stream(views_of(old(self).tokens@)),
            old(self).current < old(self).tokens@.len(),
            old(self).tokens@[old(self).current as int]@.kind != TokenType::EOF,
        ensures
            final(self).tokens@ == old(self).tokens@,
            (match parse_stmt_at(
                views_of(old(self).tokens@),
                old(self).current as int,
                old(self).statements@.len() as int,
            ) {
                Ok(sp) => {
                    &&& r matches Ok(u)
                    &&& stmt_views(final(self).statements@) == stmt_views(
                        old(self).statements@,
                    ).push(sp.stmt)
                    &&& (match sp.entry {
                        Some(ev) => sym_views(final(self).mapping_table@) == sym_views(
                            old(self).mapping_table@,
                        ).push(ev),
                        None => final(self).mapping_table@ == old(self).mapping_table@,
                    })
                    &&& final(self).current == sp.next
                    &&& old(self).current < final(self).current < final(self).tokens@.len()
                },
                Err(e) => r matches Err(ae) && ae@ == e,
            }),
    {
        proof {
            assert(views_of(self.tokens@)[self.current as int] == self.tokens@[self.current as int]@);
            assert(views_of(self.tokens@).last().kind == TokenType::EOF);
        }
        if self.match_(&[TokenType::MOV]) {
            self.mov_statement()
        } else if self.match_(&[TokenType::HALT]) {
            self.halt();
            Ok(())
        } else if self.match_(&[TokenType::CMP]) {
            self.compare_stmt()
        } else if self.match_(&[TokenType::JMPG]) {
            self.jump_stmt()
        } else if self.match_(&[TokenType::ADD]) {
            self.arith_stmt(TokenType::ADD)
        } else if self.match_(&[TokenType::SUB]) {
            self.arith_stmt(TokenType::SUB)
        } else if self.match_(&[TokenType::MUL]) {
            self.arith_stmt(TokenType::MUL)
        } else if self.match_(&[TokenType::DIV]) {
            self.arith_stmt(TokenType::DIV)
        } else if self.match_(&[TokenType::MOD]) {
            self.arith_stmt(TokenType::MOD)
        } else if self.match_(&[TokenType::JUMP]) {
            let to = match self.consume_label() {
                Ok(t) => t,
                Err(e) => {
                    return Err(e);
                },
            };
            self.push_stmt(Stmt::JMP { to });
            Ok(())
        } else if self.match_(&[TokenType::Print]) {
            self.print_st()
        } else if self.match_(&[TokenType::LabelDef]) {
            self.label_def();
            Ok(())
        } else if self.match_(&[TokenType::Call]) {
            self.call()
        } else if self.match_(&[TokenType::Ret]) {
            self.push_stmt(Stmt::RET);
            Ok(())
        } else if self.match_(&[TokenType::JMPL]) {
            self.jump_stmt_2()
        } else if self.match_(&[TokenType::PUSH]) {
            self.push()
        } else if self.match_(&[TokenType::POP]) {
            self.pop()
        } else if self.match_(&[TokenType::AND, TokenType::OR, TokenType::XOR]) {
            self.bit_wise()
        } else if self.match_(&[TokenType::JMPZ]) {
            let to = match self.consume_label() {
                Ok(t) => t,
                Err(e) => {
                    return Err(e);
                },
            };
            self.push_stmt(Stmt::JMPZ { to });
            Ok(())
        } else if self.match_(&[TokenType::JMPNZ]) {
            let to = match self.consume_label() {
                Ok(t) => t,
                Err(e) => {
                    return Err(e);
                },
            };
            self.push_stmt(Stmt::JMPNZ { to });
            Ok(())
        } else if self.match_(&[TokenType::JMPLE]) {
            let to = match self.consume_label() {
                Ok(t) => t,
                Err(e) => {
                    return Err(e);
                },
            };
            self.push_stmt(Stmt::JMPLE { to });
            Ok(())
        } else if self.match_(&[TokenType::JMPGE]) {
            let to = match self.consume_label() {
                Ok(t) => t,
                Err(e) => {
                    return Err(e);
                },
            };
            self.push_stmt(Stmt::JMPGE { to });
            Ok(())
        } else {
            let t = self.peek();
            Err(
                AsmError::ParseError {
                    expected: Expected::Statement,
                    found: t.token_type,
                    line: t.line_number,
                },
            )
        }
    }

    /// Parses the whole token stream into statements and the symbol
    /// table, exactly as `parse_from` describes, or stops at the first
    /// malformed statement with its error.
    pub fn parse(&mut self) -> (r: Result<(), AsmError>)
        requires
            wf_token_stream(views_of(old(self).tokens@)),
            old(self).current < old(self).tokens@.len(),
        ensures
            final(self).tokens@ == old(self).tokens@,
            (match r {
                Ok(u) => parse_from(
                    views_of(old(self).tokens@),
                    old(self).current as int,
                    old(self).statements@.len() as int,
                ) matches Ok(p) && stmt_views(final(self).statements@) == stmt_views(
                    old(self).statements@,
                ) + p.stmts && sym_views(final(self).mapping_table@) == sym_views(
                    old(self).mapping_table@,
                ) + p.entries,
                Err(ae) => parse_from(
                    views_of(old(self).tokens@),
                    old(self).current as int,
                    old(self).statements@.len() as int,
                ) matches Err(e) && ae@ == e,
            }),
    {
        let ghost toksv = views_of(self.tokens@);
        let ghost cur0 = self.current as int;
        let ghost accs0 = stmt_views(self.statements@);
        let ghost acce0 = sym_views(self.mapping_table@);
        loop
            invariant_except_break
                toksv == views_of(old(self).tokens@),
                cur0 == old(self).current as int,
                accs0 == stmt_views(old(self).statements@),
                acce0 == sym_views(old(self).mapping_table@),
                wf_token_stream(toksv),
                self.tokens@ == old(self).tokens@,
                self.current < self.tokens@.len(),
                parse_cont(
                    toksv,
                    self.current as int,
                    stmt_views(self.statements@),
                    sym_views(self.mapping_table@),
                ) == parse_cont(toksv, cur0, accs0, acce0),
            ensures
                self.tokens@ == old(self).tokens@,
                self.current < self.tokens@.len(),
                toksv[self.current as int].kind == TokenType::EOF,
                parse_cont(
                    toksv,
                    self.current as int,
                    stmt_views(self.statements@),
                    sym_views(self.mapping_table@),
                ) == parse_cont(toksv, cur0, accs0, acce0),
            decreases self.tokens@.len() - self.current,
        {
            proof {
                assert(toksv[self.current as int] == self.tokens@[self.current as int]@);
            }
            if self.tokens[self.current].token_type == TokenType::EOF {
                break;
            }
            let ghost pcur = self.current as int;
            let ghost paccs = stmt_views(self.statements@);
            let ghost pacce = sym_views(self.mapping_table@);
            match self.statements() {
                Ok(_) => {
                    proof {
                        match parse_stmt_at(toksv, pcur, paccs.len() as int) {
                            Ok(sp) => {
                                lemma_parse_cont_step(toksv, pcur, paccs, pacce, sp);
                                match sp.entry {
                                    Some(ev) => {
                                        assert(pacce + opt_entry_seq(sp.entry) =~= pacce.push(ev));
                                    },
                                    None => {
                                        assert(pacce + opt_entry_seq(sp.entry) =~= pacce);
                                    },
                                }
                            },
                            Err(_) => {
                                assert(false);
                            },
                        }
                    }
                },
                Err(e) => {
                    return Err(e);
                },
            }
        }
        proof {
            let accs = stmt_views(self.statements@);
            let acce = sym_views(self.mapping_table@);
            assert(parse_from(toksv, self.current as int, accs.len() as int) == Ok::<
                ParsedV,
                AsmErrorV,
            >(ParsedV { stmts: Seq::empty(), entries: Seq::empty() }));
            assert(accs + Seq::<StmtV>::empty() =~= accs);
            assert(acce + Seq::<SymEntryV>::empty() =~= acce);
        }
        Ok(())
    }
}

} // verus!
