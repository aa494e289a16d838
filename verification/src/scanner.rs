//! Lexer: turns assembly source text into a flat token sequence.
//!
//! The meaning of lexing is given by the recursive spec function
//! `lex_from`: whitespace is skipped, newlines count lines, a comma is a
//! token of its own, an alphabetic run is matched case-insensitively
//! against the mnemonic and register keywords (a trailing `:` making it a
//! label definition, anything else a label reference), and a digit run,
//! optionally signed, is an integer literal whose text is kept for later
//! width-checked parsing. Any other character is a lex error naming the
//! character and its line. `Scanner::parse` is proved to return exactly
//! the tokens of `lex_from`.

use vstd::prelude::*;

use crate::errors::{AsmError, AsmErrorV};

verus! {

/// The kind of a token: a mnemonic or register keyword, an integer
/// literal, punctuation, a label definition or reference, or end of input.
#[allow(clippy::upper_case_acronyms)]
#[derive(Debug, Clone, Copy, PartialEq, Eq, Structural)]
pub enum TokenType {
    MOV,
    Print,
    R0,
    R1,
    R2,
    R3,
    R4,
    R5,
    R6,
    R7,
    MUL,
    DIV,
    MOD,
    ADD,
    SUB,
    CMP,
    JMPG,
    JMPL,
    JMPGE,
    JMPLE,
    JMPZ,
    JMPNZ,
    JUMP,
    INT,
    Comma,
    HALT,
    EOF,
    LabelDef,
    LabelCall,
    Call,
    Ret,
    PUSH,
    POP,
    AND,
    OR,
    XOR,
}

pub open spec fn is_register_kind(t: TokenType) -> bool {
    t == TokenType::R0 || t == TokenType::R1 || t == TokenType::R2 || t == TokenType::R3
        || t == TokenType::R4 || t == TokenType::R5 || t == TokenType::R6 || t == TokenType::R7
}

/// The register number a register keyword stands for.
pub open spec fn register_id(t: TokenType) -> u32 {
    match t {
        TokenType::R0 => 0,
        TokenType::R1 => 1,
        TokenType::R2 => 2,
        TokenType::R3 => 3,
        TokenType::R4 => 4,
        TokenType::R5 => 5,
        TokenType::R6 => 6,
        TokenType::R7 => 7,
        _ => 8,
    }
}

impl TokenType {
    pub fn get_reg(&self) -> (r: (u32, TokenType))
        requires
            is_register_kind(*self),
        ensures
            r.0 == register_id(*self),
            r.1 == *self,
            r.0 < 8,
    {
        match self {
            TokenType::R0 => (0, TokenType::R0),
            TokenType::R1 => (1, TokenType::R1),
            TokenType::R2 => (2, TokenType::R2),
            TokenType::R3 => (3, TokenType::R3),
            TokenType::R4 => (4, TokenType::R4),
            TokenType::R5 => (5, TokenType::R5),
            TokenType::R6 => (6, TokenType::R6),
            TokenType::R7 => (7, TokenType::R7),
            _ => (8, TokenType::R0),  // unreachable under the precondition
        }
    }
}

/// One token: its kind, the literal text it carries (label names keep
/// their spelling, integer literals their digits), and its source line.
#[derive(Debug, Clone, PartialEq, Eq)]
pub struct Token {
    pub token_type: TokenType,
    pub literal: Option<Vec<u8>>,
    pub line_number: usize,
}

/// The ghost value of a token.
pub ghost struct TokenView {
    pub kind: TokenType,
    pub lit: Option<Seq<u8>>,
    pub line: int,
}

impl View for Token {
    type V = TokenView;

    open spec fn view(&self) -> TokenView {
        TokenView {
            kind: self.token_type,
            lit: match self.literal {
                Some(ref v) => Some(v@),
                None => None,
            },
            line: self.line_number as int,
        }
    }
}

pub open spec fn views_of(ts: Seq<Token>) -> Seq<TokenView> {
    ts.map_values(|t: Token| t@)
}

// Character classes, over ASCII bytes.

pub open spec fn is_ws(ch: u8) -> bool {
    ch == 32 || ch == 9 || ch == 13 || ch == 0x0c
}

pub open spec fn is_alpha(ch: u8) -> bool {
    (97 <= ch <= 122) || (65 <= ch <= 90)
}

pub open spec fn is_digit(ch: u8) -> bool {
    48 <= ch <= 57
}

/// Characters that may continue a word once it has started: letters,
/// digits, `_`, and `:`.
pub open spec fn is_word_char(ch: u8) -> bool {
    is_alpha(ch) || is_digit(ch) || ch == 95 || ch == 58
}

pub open spec fn to_lower(ch: u8) -> u8 {
    if 65 <= ch <= 90 {
        (ch + 32) as u8
    } else {
        ch
    }
}

pub open spec fn lower_seq(s: Seq<u8>) -> Seq<u8> {
    s.map_values(|ch: u8| to_lower(ch))
}

/// First position at or after `i` that no longer continues a word.
pub open spec fn word_end(s: Seq<u8>, i: int) -> int
    decreases s.len() - i,
{
    if i < s.len() && 0 <= i && is_word_char(s[i]) {
        word_end(s, i + 1)
    } else {
        i
    }
}

pub proof fn lemma_word_end(s: Seq<u8>, i: int)
    requires
        0 <= i <= s.len(),
    ensures
        i <= word_end(s, i) <= s.len(),
        forall|j: int| i <= j < word_end(s, i) ==> is_word_char(#[trigger] s[j]),
        word_end(s, i) == s.len() || !is_word_char(s[word_end(s, i)]),
        i < s.len() && is_word_char(s[i]) ==> word_end(s, i) > i,
    decreases s.len() - i,
{
    if i < s.len() && is_word_char(s[i]) {
        lemma_word_end(s, i + 1);
    }
}

/// First position at or after `i` that is not a digit.
pub open spec fn digits_end(s: Seq<u8>, i: int) -> int
    decreases s.len() - i,
{
    if i < s.len() && 0 <= i && is_digit(s[i]) {
        digits_end(s, i + 1)
    } else {
        i
    }
}

pub proof fn lemma_digits_end(s: Seq<u8>, i: int)
    requires
        0 <= i <= s.len(),
    ensures
        i <= digits_end(s, i) <= s.len(),
        forall|j: int| i <= j < digits_end(s, i) ==> is_digit(#[trigger] s[j]),
        digits_end(s, i) == s.len() || !is_digit(s[digits_end(s, i)]),
        i < s.len() && is_digit(s[i]) ==> digits_end(s, i) > i,
    decreases s.len() - i,
{
    if i < s.len() && is_digit(s[i]) {
        lemma_digits_end(s, i + 1);
    }
}

/// The keyword table, applied to the lowercased spelling of a word.
pub open spec fn keyword_of(w: Seq<u8>) -> Option<TokenType> {
    if w =~= seq![109, 111, 118] {
        Some(TokenType::MOV)
    } else if w =~= seq![112, 114, 105, 110, 116] {
        Some(TokenType::Print)
    } else if w =~= seq![114, 48] {
        Some(TokenType::R0)
    } else if w =~= seq![114, 49] {
        Some(TokenType::R1)
    } else if w =~= seq![114, 50] {
        Some(TokenType::R2)
    } else if w =~= seq![114, 51] {
        Some(TokenType::R3)
    } else if w =~= seq![114, 52] {
        Some(TokenType::R4)
    } else if w =~= seq![114, 53] {
        Some(TokenType::R5)
    } else if w =~= seq![114, 54] {
        Some(TokenType::R6)
    } else if w =~= seq![114, 55] {
        Some(TokenType::R7)
    } else if w =~= seq![109, 117, 108] {
        Some(TokenType::MUL)
    } else if w =~= seq![100, 105, 118] {
        Some(TokenType::DIV)
    } else if w =~= seq![109, 111, 100] {
        Some(TokenType::MOD)
    } else if w =~= seq![97, 100, 100] {
        Some(TokenType::ADD)
    } else if w =~= seq![115, 117, 98] {
        Some(TokenType::SUB)
    } else if w =~= seq![99, 109, 112] {
        Some(TokenType::CMP)
    } else if w =~= seq![106, 109, 112, 103, 101] {
        Some(TokenType::JMPGE)
    } else if w =~= seq![106, 109, 112, 108, 101] {
        Some(TokenType::JMPLE)
    } else if w =~= seq![106, 109, 112, 103] {
        Some(TokenType::JMPG)
    } else if w =~= seq![106, 109, 112, 108] {
        Some(TokenType::JMPL)
    } else if w =~= seq![106, 109, 112, 122] {
        Some(TokenType::JMPZ)
    } else if w =~= seq![106, 109, 112, 110, 122] {
        Some(TokenType::JMPNZ)
    } else if w =~= seq![106, 109, 112] {
        Some(TokenType::JUMP)
    } else if w =~= seq![104, 97, 108, 116] {
        Some(TokenType::HALT)
    } else if w =~= seq![99, 97, 108, 108] {
        Some(TokenType::Call)
    } else if w =~= seq![114, 101, 116] {
        Some(TokenType::Ret)
    } else if w =~= seq![112, 117, 115, 104] {
        Some(TokenType::PUSH)
    } else if w =~= seq![112, 111, 112] {
        Some(TokenType::POP)
    } else if w =~= seq![97, 110, 100] {
        Some(TokenType::AND)
    } else if w =~= seq![111, 114] {
        Some(TokenType::OR)
    } else if w =~= seq![120, 111, 114] {
        Some(TokenType::XOR)
    } else {
        None
    }
}

/// The token an alphabetic word becomes: a keyword match wins, a trailing
/// colon makes a label definition (colon stripped), anything else is a
/// label reference.
pub open spec fn classify_word(w: Seq<u8>, line: int) -> TokenView {
    match keyword_of(lower_seq(w)) {
        Some(k) => TokenView { kind: k, lit: None, line },
        None => {
            if w.len() > 0 && w[w.len() - 1] == 58 {
                TokenView { kind: TokenType::LabelDef, lit: Some(w.take(w.len() - 1)), line }
            } else {
                TokenView { kind: TokenType::LabelCall, lit: Some(w), line }
            }
        },
    }
}

pub open spec fn lex_cons(t: TokenView, rest: Result<Seq<TokenView>, AsmErrorV>) -> Result<
    Seq<TokenView>,
    AsmErrorV,
> {
    match rest {
        Ok(ts) => Ok(seq![t] + ts),
        Err(e) => Err(e),
    }
}

/// The tokens of the source from position `i` onward, with `line` the
/// current line number, ending in an end-of-input token.
pub open spec fn lex_from(s: Seq<u8>, i: int, line: int) -> Result<Seq<TokenView>, AsmErrorV>
    decreases s.len() - i,
    via lex_from_decreases
{
    if !(0 <= i < s.len()) {
        Ok(seq![TokenView { kind: TokenType::EOF, lit: None, line }])
    } else {
        let ch = s[i];
        if ch == 10 {
            lex_from(s, i + 1, line + 1)
        } else if is_ws(ch) {
            lex_from(s, i + 1, line)
        } else if ch == 44 {
            lex_cons(
                TokenView { kind: TokenType::Comma, lit: Some(seq![44]), line },
                lex_from(s, i + 1, line),
            )
        } else if is_alpha(ch) {
            let end = word_end(s, i);
            lex_cons(classify_word(s.subrange(i, end), line), lex_from(s, end, line))
        } else if is_digit(ch) {
            let end = digits_end(s, i);
            lex_cons(
                TokenView { kind: TokenType::INT, lit: Some(s.subrange(i, end)), line },
                lex_from(s, end, line),
            )
        } else if ch == 45 {
            if i + 1 < s.len() && is_digit(s[i + 1]) {
                let end = digits_end(s, i + 1);
                lex_cons(
                    TokenView { kind: TokenType::INT, lit: Some(s.subrange(i, end)), line },
                    lex_from(s, end, line),
                )
            } else {
                Err(AsmErrorV::LexError { ch, line })
            }
        } else {
            Err(AsmErrorV::LexError { ch, line })
        }
    }
}

#[via_fn]
proof fn lex_from_decreases(s: Seq<u8>, i: int, line: int) {
    if 0 <= i < s.len() {
        lemma_word_end(s, i);
        lemma_digits_end(s, i);
        if i + 1 <= s.len() {
            lemma_digits_end(s, i + 1);
        }
    }
}

/// A successful lex always ends with exactly one end-of-input token.
pub proof fn lemma_lex_ends_with_eof(s: Seq<u8>, i: int, line: int)
    requires
        lex_from(s, i, line) is Ok,
    ensures
        lex_from(s, i, line) matches Ok(ts) && ts.len() > 0 && ts.last().kind == TokenType::EOF,
    decreases s.len() - i,
{
    if !(0 <= i < s.len()) {
    } else {
        let ch = s[i];
        if ch == 10 {
            lemma_lex_ends_with_eof(s, i + 1, line + 1);
        } else if is_ws(ch) {
            lemma_lex_ends_with_eof(s, i + 1, line);
        } else if ch == 44 {
            lemma_lex_ends_with_eof(s, i + 1, line);
        } else if is_alpha(ch) {
            lemma_word_end(s, i);
            lemma_lex_ends_with_eof(s, word_end(s, i), line);
        } else if is_digit(ch) {
            lemma_digits_end(s, i);
            lemma_lex_ends_with_eof(s, digits_end(s, i), line);
        } else if ch == 45 {
            if i + 1 < s.len() && is_digit(s[i + 1]) {
                lemma_digits_end(s, i + 1);
                lemma_lex_ends_with_eof(s, digits_end(s, i + 1), line);
            }
        } else {
        }
    }
}

/// `lex_from` with an accumulator of the tokens already produced; the
/// loop invariant of the executable lexer is stated over it.
pub open spec fn lex_cont(s: Seq<u8>, i: int, line: int, acc: Seq<TokenView>) -> Result<
    Seq<TokenView>,
    AsmErrorV,
> {
    match lex_from(s, i, line) {
        Ok(ts) => Ok(acc + ts),
        Err(e) => Err(e),
    }
}

pub open spec fn opt_bytes_view(o: Option<Vec<u8>>) -> Option<Seq<u8>> {
    match o {
        Some(v) => Some(v@),
        None => None,
    }
}

proof fn lemma_cont_step(
    s: Seq<u8>,
    i: int,
    line: int,
    i2: int,
    line2: int,
    acc: Seq<TokenView>,
    t: TokenView,
)
    requires
        lex_from(s, i, line) == lex_cons(t, lex_from(s, i2, line2)),
    ensures
        lex_cont(s, i, line, acc) == lex_cont(s, i2, line2, acc.push(t)),
{
    match lex_from(s, i2, line2) {
        Ok(ts) => {
            assert(acc + (seq![t] + ts) =~= acc.push(t) + ts);
        },
        Err(_) => {},
    }
}

fn digit_at(v: &Vec<u8>, j: usize) -> (r: bool)
    ensures
        r == (j < v@.len() && is_digit(v@[j as int])),
{
    if j < v.len() {
        let ch = v[j];
        48 <= ch && ch <= 57
    } else {
        false
    }
}

/// A copy of the bytes `v[a..b]`.
fn sub_vec(v: &Vec<u8>, a: usize, b: usize) -> (r: Vec<u8>)
    requires
        a <= b <= v@.len(),
    ensures
        r@ == v@.subrange(a as int, b as int),
{
    let mut out: Vec<u8> = Vec::new();
    let mut i: usize = a;
    while i < b
        invariant
            a <= i <= b <= v@.len(),
            out@ == v@.subrange(a as int, i as int),
        decreases b - i,
    {
        out.push(v[i]);
        proof {
            assert(v@.subrange(a as int, i + 1) =~= v@.subrange(a as int, i as int).push(
                v@[i as int],
            ));
        }
        i = i + 1;
    }
    out
}

/// The word with its uppercase letters lowered.
fn lower_vec(v: &Vec<u8>) -> (r: Vec<u8>)
    ensures
        r@ == lower_seq(v@),
{
    let mut out: Vec<u8> = Vec::new();
    let mut i: usize = 0;
    while i < v.len()
        invariant
            i <= v@.len(),
            out@ == lower_seq(v@.take(i as int)),
        decreases v@.len() - i,
    {
        let ch = v[i];
        let low: u8 = if 65 <= ch && ch <= 90 {
            ch + 32
        } else {
            ch
        };
        out.push(low);
        proof {
            assert(lower_seq(v@.take(i + 1)) =~= lower_seq(v@.take(i as int)).push(
                to_lower(v@[i as int]),
            ));
        }
        i = i + 1;
    }
    proof {
        assert(v@.take(v@.len() as int) =~= v@);
    }
    out
}

fn eq2(v: &Vec<u8>, a: u8, b: u8) -> (r: bool)
    ensures
        r == (v@ =~= seq![a, b]),
{
    v.len() == 2 && v[0] == a && v[1] == b
}

fn eq3(v: &Vec<u8>, a: u8, b: u8, c: u8) -> (r: bool)
    ensures
        r == (v@ =~= seq![a, b, c]),
{
    v.len() == 3 && v[0] == a && v[1] == b && v[2] == c
}

fn eq4(v: &Vec<u8>, a: u8, b: u8, c: u8, d: u8) -> (r: bool)
    ensures
        r == (v@ =~= seq![a, b, c, d]),
{
    v.len() == 4 && v[0] == a && v[1] == b && v[2] == c && v[3] == d
}

fn eq5(v: &Vec<u8>, a: u8, b: u8, c: u8, d: u8, e: u8) -> (r: bool)
    ensures
        r == (v@ =~= seq![a, b, c, d, e]),
{
    v.len() == 5 && v[0] == a && v[1] == b && v[2] == c && v[3] == d && v[4] == e
}

/// The keyword table as executable code, applied to a lowercased word.
fn keyword_lookup(w: &Vec<u8>) -> (r: Option<TokenType>)
    ensures
        r == keyword_of(w@),
{
    if eq3(w, 109, 111, 118) {
        Some(TokenType::MOV)
    } else if eq5(w, 112, 114, 105, 110, 116) {
        Some(TokenType::Print)
    } else if eq2(w, 114, 48) {
        Some(TokenType::R0)
    } else if eq2(w, 114, 49) {
        Some(TokenType::R1)
    } else if eq2(w, 114, 50) {
        Some(TokenType::R2)
    } else if eq2(w, 114, 51) {
        Some(TokenType::R3)
    } else if eq2(w, 114, 52) {
        Some(TokenType::R4)
    } else if eq2(w, 114, 53) {
        Some(TokenType::R5)
    } else if eq2(w, 114, 54) {
        Some(TokenType::R6)
    } else if eq2(w, 114, 55) {
        Some(TokenType::R7)
    } else if eq3(w, 109, 117, 108) {
        Some(TokenType::MUL)
    } else if eq3(w, 100, 105, 118) {
        Some(TokenType::DIV)
    } else if eq3(w, 109, 111, 100) {
        Some(TokenType::MOD)
    } else if eq3(w, 97, 100, 100) {
        Some(TokenType::ADD)
    } else if eq3(w, 115, 117, 98) {
        Some(TokenType::SUB)
    } else if eq3(w, 99, 109, 112) {
        Some(TokenType::CMP)
    } else if eq5(w, 106, 109, 112, 103, 101) {
        Some(TokenType::JMPGE)
    } else if eq5(w, 106, 109, 112, 108, 101) {
        Some(TokenType::JMPLE)
    } else if eq4(w, 106, 109, 112, 103) {
        Some(TokenType::JMPG)
    } else if eq4(w, 106, 109, 112, 108) {
        Some(TokenType::JMPL)
    } else if eq4(w, 106, 109, 112, 122) {
        Some(TokenType::JMPZ)
    } else if eq5(w, 106, 109, 112, 110, 122) {
        Some(TokenType::JMPNZ)
    } else if eq3(w, 106, 109, 112) {
        Some(TokenType::JUMP)
    } else if eq4(w, 104, 97, 108, 116) {
        Some(TokenType::HALT)
    } else if eq4(w, 99, 97, 108, 108) {
        Some(TokenType::Call)
    } else if eq3(w, 114, 101, 116) {
        Some(TokenType::Ret)
    } else if eq4(w, 112, 117, 115, 104) {
        Some(TokenType::PUSH)
    } else if eq3(w, 112, 111, 112) {
        Some(TokenType::POP)
    } else if eq3(w, 97, 110, 100) {
        Some(TokenType::AND)
    } else if eq2(w, 111, 114) {
        Some(TokenType::OR)
    } else if eq3(w, 120, 111, 114) {
        Some(TokenType::XOR)
    } else {
        None
    }
}

/// The lexer: owns the source bytes, the position and line reached, and
/// the tokens produced so far.
pub struct Scanner {
    pub data: Vec<u8>,
    pub pos: usize,
    pub line: usize,
    pub tokens: Vec<Token>,
}

impl Scanner {
    pub fn new(source: Vec<u8>) -> (r: Scanner)
        ensures
            r.data@ == source@,
            r.pos == 0,
            r.line == 1,
            r.tokens@.len() == 0,
    {
        Scanner { data: source, pos: 0, line: 1, tokens: Vec::new() }
    }

    pub fn push_token(&mut self, literal: Option<Vec<u8>>, token_type: TokenType)
        ensures
            final(self).data@ == old(self).data@,
            final(self).pos == old(self).pos,
            final(self).line == old(self).line,
            views_of(final(self).tokens@) == views_of(old(self).tokens@).push(
                TokenView {
                    kind: token_type,
                    lit: opt_bytes_view(literal),
                    line: old(self).line as int,
                },
            ),
    {
        let token = Token { token_type, literal, line_number: self.line };
        self.tokens.push(token);
        proof {
            assert(views_of(self.tokens@) =~= views_of(old(self).tokens@).push(
                self.tokens@.last()@,
            ));
        }
    }

    /// Lexes the whole source. On success the returned tokens are exactly
    /// those of `lex_from` (appended to any tokens already held), ending
    /// in an end-of-input token; on failure the offending character and
    /// line are reported and no tokens are handed out.
    pub fn parse(&mut self) -> (r: Result<Vec<Token>, AsmError>)
        requires
            old(self).pos <= old(self).data@.len(),
            old(self).line + old(self).data@.len() <= usize::MAX,
        ensures
            final(self).data@ == old(self).data@,
            (match r {
                Ok(toks) => lex_cont(
                    final(self).data@,
                    old(self).pos as int,
                    old(self).line as int,
                    views_of(old(self).tokens@),
                ) == Ok::<Seq<TokenView>, AsmErrorV>(views_of(toks@)),
                Err(e) => lex_from(final(self).data@, old(self).pos as int, old(self).line as int)
                    == Err::<Seq<TokenView>, AsmErrorV>(e@),
            }),
    {
        let ghost s = self.data@;
        let ghost pos0 = self.pos as int;
        let ghost line0 = self.line as int;
        let ghost acc0 = views_of(self.tokens@);
        while self.pos < self.data.len()
            invariant
                s == old(self).data@,
                pos0 == old(self).pos as int,
                line0 == old(self).line as int,
                acc0 == views_of(old(self).tokens@),
                self.data@ == s,
                self.pos <= s.len(),
                self.line <= line0 + self.pos - pos0,
                pos0 <= self.pos,
                line0 + s.len() <= usize::MAX,
                lex_cont(s, self.pos as int, self.line as int, views_of(self.tokens@))
                    == lex_cont(s, pos0, line0, acc0),
            decreases s.len() - self.pos,
        {
            let ch = self.data[self.pos];
            if ch == 10 {
                self.pos = self.pos + 1;
                self.line = self.line + 1;
            } else if ch == 32 || ch == 9 || ch == 13 || ch == 12 {
                self.pos = self.pos + 1;
            } else if ch == 44 {
                proof {
                    lemma_cont_step(
                        s,
                        self.pos as int,
                        self.line as int,
                        self.pos + 1,
                        self.line as int,
                        views_of(self.tokens@),
                        TokenView {
                            kind: TokenType::Comma,
                            lit: Some(seq![44u8]),
                            line: self.line as int,
                        },
                    );
                }
                let mut comma_lit: Vec<u8> = Vec::new();
                comma_lit.push(44u8);
                proof {
                    assert(comma_lit@ =~= seq![44u8]);
                }
                self.push_token(Some(comma_lit), TokenType::Comma);
                self.pos = self.pos + 1;
            } else if (97 <= ch && ch <= 122) || (65 <= ch && ch <= 90) {
                let start = self.pos;
                let mut j = self.pos + 1;
                while j < self.data.len()
                    invariant_except_break
                        self.data@ == s,
                        start < j <= s.len(),
                        word_end(s, start as int) == word_end(s, j as int),
                    ensures
                        self.data@ == s,
                        start < j <= s.len(),
                        word_end(s, start as int) == j,
                    decreases s.len() - j,
                {
                    let c = self.data[j];
                    if !((97 <= c && c <= 122) || (65 <= c && c <= 90) || (48 <= c && c <= 57)
                        || c == 95 || c == 58) {
                        break;
                    }
                    j = j + 1;
                }
                proof {
                    lemma_word_end(s, start as int);
                }
                let w = sub_vec(&self.data, start, j);
                let low = lower_vec(&w);
                let kw = keyword_lookup(&low);
                proof {
                    lemma_cont_step(
                        s,
                        start as int,
                        self.line as int,
                        j as int,
                        self.line as int,
                        views_of(self.tokens@),
                        classify_word(s.subrange(start as int, j as int), self.line as int),
                    );
                }
                match kw {
                    Some(k) => {
                        self.push_token(None, k);
                    },
                    None => {
                        let wlen = w.len();
                        if w[wlen - 1] == 58 {
                            let name = sub_vec(&w, 0, wlen - 1);
                            proof {
                                assert(name@ =~= s.subrange(start as int, j as int).take(
                                    wlen - 1,
                                ));
                            }
                            self.push_token(Some(name), TokenType::LabelDef);
                        } else {
                            self.push_token(Some(w), TokenType::LabelCall);
                        }
                    },
                }
                self.pos = j;
            } else if 48 <= ch && ch <= 57 {
                let start = self.pos;
                let mut j = self.pos + 1;
                while j < self.data.len()
                    invariant_except_break
                        self.data@ == s,
                        start < j <= s.len(),
                        digits_end(s, start as int) == digits_end(s, j as int),
                    ensures
                        self.data@ == s,
                        start < j <= s.len(),
                        digits_end(s, start as int) == j,
                    decreases s.len() - j,
                {
                    let c = self.data[j];
                    if !(48 <= c && c <= 57) {
                        break;
                    }
                    j = j + 1;
                }
                proof {
                    lemma_digits_end(s, start as int);
                }
                let lit = sub_vec(&self.data, start, j);
                proof {
                    lemma_cont_step(
                        s,
                        start as int,
                        self.line as int,
                        j as int,
                        self.line as int,
                        views_of(self.tokens@),
                        TokenView {
                            kind: TokenType::INT,
                            lit: Some(s.subrange(start as int, j as int)),
                            line: self.line as int,
                        },
                    );
                }
                self.push_token(Some(lit), TokenType::INT);
                self.pos = j;
            } else if ch == 45 {
                if digit_at(&self.data, self.pos + 1) {
                    let start = self.pos;
                    let mut j = self.pos + 2;
                    while j < self.data.len()
                        invariant_except_break
                            self.data@ == s,
                            start + 1 < j <= s.len(),
                            digits_end(s, start + 1) == digits_end(s, j as int),
                        ensures
                            self.data@ == s,
                            start + 1 < j <= s.len(),
                            digits_end(s, start + 1) == j,
                        decreases s.len() - j,
                    {
                        let c = self.data[j];
                        if !(48 <= c && c <= 57) {
                            break;
                        }
                        j = j + 1;
                    }
                    proof {
                        lemma_digits_end(s, start + 1);
                    }
                    let lit = sub_vec(&self.data, start, j);
                    proof {
                        lemma_cont_step(
                            s,
                            start as int,
                            self.line as int,
                            j as int,
                            self.line as int,
                            views_of(self.tokens@),
                            TokenView {
                                kind: TokenType::INT,
                                lit: Some(s.subrange(start as int, j as int)),
                                line: self.line as int,
                            },
                        );
                    }
                    self.push_token(Some(lit), TokenType::INT);
                    self.pos = j;
                } else {
                    return Err(AsmError::LexError { ch: 45, line: self.line });
                }
            } else {
                return Err(AsmError::LexError { ch, line: self.line });
            }
        }
        let ghost acc_end = views_of(self.tokens@);
        let ghost eof_v = TokenView { kind: TokenType::EOF, lit: None, line: self.line as int };
        self.push_token(None, TokenType::EOF);
        let ghost full = self.tokens@;
        let toks = self.tokens.split_off(0);
        proof {
            assert(toks@ =~= full);
            assert(views_of(toks@) =~= views_of(full));
            assert(acc_end.push(eof_v) =~= acc_end + seq![eof_v]);
        }
        Ok(toks)
    }
}

} // verus!
