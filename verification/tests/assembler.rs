use asmvm::backend::CodeGen;
use asmvm::errors::{AsmError, Expected};
use asmvm::parser::Parser;
use asmvm::scanner::{Scanner, TokenType};

fn lex(src: &str) -> Vec<asmvm::scanner::Token> {
    let mut sc = Scanner::new(src.as_bytes().to_vec());
    sc.parse().expect("lexing failed")
}

fn assemble(src: &str) -> Result<Vec<u8>, AsmError> {
    let mut sc = Scanner::new(src.as_bytes().to_vec());
    let tokens = match sc.parse() {
        Ok(t) => t,
        Err(e) => return Err(e),
    };
    let parser = Parser::new(tokens);
    let mut cg = CodeGen::new(parser)?;
    cg.gen_()
}

#[test]
fn lexes_mnemonics_registers_and_immediates() {
    let toks = lex("mov r1, -5");
    let kinds: Vec<TokenType> = toks.iter().map(|t| t.token_type).collect();
    assert_eq!(
        kinds,
        vec![
            TokenType::MOV,
            TokenType::R1,
            TokenType::Comma,
            TokenType::INT,
            TokenType::EOF
        ]
    );
    assert_eq!(toks[3].literal.as_deref(), Some(b"-5".as_slice()));
}

#[test]
fn lexes_keywords_case_insensitively() {
    let toks = lex("MoV R7, 12");
    assert_eq!(toks[0].token_type, TokenType::MOV);
    assert_eq!(toks[1].token_type, TokenType::R7);
}

#[test]
fn lexes_label_definition_and_reference() {
    let toks = lex("start:\njmp start");
    assert_eq!(toks[0].token_type, TokenType::LabelDef);
    assert_eq!(toks[0].literal.as_deref(), Some(b"start".as_slice()));
    assert_eq!(toks[0].line_number, 1);
    assert_eq!(toks[1].token_type, TokenType::JUMP);
    assert_eq!(toks[2].token_type, TokenType::LabelCall);
    assert_eq!(toks[2].literal.as_deref(), Some(b"start".as_slice()));
    assert_eq!(toks[2].line_number, 2);
}

#[test]
fn keyword_with_trailing_colon_is_a_label() {
    let toks = lex("mov:");
    assert_eq!(toks[0].token_type, TokenType::LabelDef);
    assert_eq!(toks[0].literal.as_deref(), Some(b"mov".as_slice()));
}

#[test]
fn rejects_unknown_character_with_line() {
    let mut sc = Scanner::new(b"mov r0, 1\n@".to_vec());
    let err = sc.parse().unwrap_err();
    assert_eq!(err, AsmError::LexError { ch: b'@', line: 2 });
}

#[test]
fn rejects_bare_minus_sign() {
    let mut sc = Scanner::new(b"mov r0, -x".to_vec());
    let err = sc.parse().unwrap_err();
    assert_eq!(err, AsmError::LexError { ch: b'-', line: 1 });
}

#[test]
fn parser_builds_label_table_with_statement_indices() {
    let tokens = lex("mov r0, 1\nhere:\nadd r0, 2\nlater:\nhalt");
    let mut parser = Parser::new(tokens);
    parser.parse().expect("parse failed");
    let table = parser.get_table();
    assert_eq!(table.len(), 2);
    assert_eq!(table[0].name, b"here".to_vec());
    assert_eq!(table[0].index, 1);
    assert_eq!(table[1].name, b"later".to_vec());
    assert_eq!(table[1].index, 3);
    // each label definition occupies one statement slot of its own
    assert_eq!(parser.statements.len(), 5);
}

#[test]
fn parser_reports_missing_comma() {
    let tokens = lex("mov r0 1");
    let mut parser = Parser::new(tokens);
    let err = parser.parse().unwrap_err();
    assert_eq!(
        err,
        AsmError::ParseError { expected: Expected::Comma, found: TokenType::INT, line: 1 }
    );
}

#[test]
fn parser_reports_missing_register() {
    let tokens = lex("add 3, 4");
    let mut parser = Parser::new(tokens);
    let err = parser.parse().unwrap_err();
    assert_eq!(
        err,
        AsmError::ParseError { expected: Expected::Register, found: TokenType::INT, line: 1 }
    );
}

#[test]
fn parser_reports_statement_starting_with_operand() {
    let tokens = lex("r1, 4");
    let mut parser = Parser::new(tokens);
    let err = parser.parse().unwrap_err();
    assert_eq!(
        err,
        AsmError::ParseError { expected: Expected::Statement, found: TokenType::R1, line: 1 }
    );
}

#[test]
fn encodes_mov_immediate() {
    // low immediate byte first, then high, register, opcode
    let code = assemble("mov r1, 5").unwrap();
    assert_eq!(code, vec![0x05, 0x00, 0x01, 0x01]);
}

#[test]
fn encodes_mov_register_register() {
    let code = assemble("mov r2, r1").unwrap();
    assert_eq!(code, vec![0x00, 0x01, 0x02, 0x17]);
}

#[test]
fn encodes_negative_immediate_in_twos_complement() {
    let code = assemble("mov r1, -7").unwrap();
    assert_eq!(code, vec![0xF9, 0xFF, 0x01, 0x01]);
}

#[test]
fn encodes_compare_immediate_signed() {
    // the compare immediate uses the same signed 16-bit form as the rest
    let code = assemble("cmp r1, -1").unwrap();
    assert_eq!(code, vec![0xFF, 0xFF, 0x01, 0x18]);
}

#[test]
fn encodes_arithmetic_and_bitwise_opcodes() {
    let code = assemble("add r0, r1\nsub r0, 2\nmul r3, r4\ndiv r5, 6\nmod r6, r7\nand r0, r1\nor r0, 3\nxor r2, r2")
        .unwrap();
    assert_eq!(code.len(), 8 * 4);
    assert_eq!(&code[0..4], &[0x00, 0x01, 0x00, 0x02]);
    assert_eq!(&code[4..8], &[0x02, 0x00, 0x00, 0x05]);
    assert_eq!(&code[8..12], &[0x00, 0x04, 0x03, 0x31]);
    assert_eq!(&code[12..16], &[0x06, 0x00, 0x05, 0x32]);
    assert_eq!(&code[16..20], &[0x00, 0x07, 0x06, 0x33]);
    assert_eq!(&code[20..24], &[0x00, 0x01, 0x00, 0x24]);
    assert_eq!(&code[24..28], &[0x03, 0x00, 0x00, 0x27]);
    assert_eq!(&code[28..32], &[0x00, 0x02, 0x02, 0x28]);
}

#[test]
fn label_resolves_to_statement_index_times_four() {
    // two statements, then the placeholder at index 2, then the jump
    let code = assemble("mov r0, 1\nmov r1, 2\ntarget:\njmp target").unwrap();
    assert_eq!(code.len(), 4 * 4);
    // placeholder compiles to a no-op instruction
    assert_eq!(&code[8..12], &[0x00, 0x00, 0x00, 0x00]);
    // the jump stores statement index 2; the machine lands on byte 8
    assert_eq!(&code[12..16], &[0x02, 0x00, 0x00, 0x16]);
}

#[test]
fn forward_references_resolve() {
    let code = assemble("jmp ahead\nmov r0, 1\nahead:\nhalt").unwrap();
    assert_eq!(&code[0..4], &[0x02, 0x00, 0x00, 0x16]);
}

#[test]
fn undefined_label_is_reported() {
    let err = assemble("jmp nowhere").unwrap_err();
    assert_eq!(err, AsmError::UndefinedLabel { name: b"nowhere".to_vec() });
}

#[test]
fn immediate_above_sixteen_bits_is_rejected() {
    let err = assemble("mov r1, 70000").unwrap_err();
    assert_eq!(
        err,
        AsmError::ImmediateOutOfRange { lit: b"70000".to_vec(), lo: -32768, hi: 32767 }
    );
}

#[test]
fn immediate_below_sixteen_bits_is_rejected() {
    let err = assemble("mov r1, -32769").unwrap_err();
    assert_eq!(
        err,
        AsmError::ImmediateOutOfRange { lit: b"-32769".to_vec(), lo: -32768, hi: 32767 }
    );
}

#[test]
fn sixteen_bit_boundaries_are_accepted() {
    assert!(assemble("mov r1, 32767").is_ok());
    assert!(assemble("mov r1, -32768").is_ok());
}

#[test]
fn push_accepts_twenty_four_bit_range() {
    let code = assemble("push 8388607").unwrap();
    assert_eq!(code, vec![0xFF, 0xFF, 0x7F, 0x21]);
    let code = assemble("push -8388608").unwrap();
    assert_eq!(code, vec![0x00, 0x00, 0x80, 0x21]);
}

#[test]
fn push_rejects_twenty_four_bit_overflow() {
    let err = assemble("push 8388608").unwrap_err();
    assert_eq!(
        err,
        AsmError::ImmediateOutOfRange { lit: b"8388608".to_vec(), lo: -8388608, hi: 8388607 }
    );
}

#[test]
fn every_statement_takes_exactly_four_bytes() {
    let code = assemble("start:\nmov r0, 1\npush r0\npop r1\nprint r1\ncall start\nret\nhalt")
        .unwrap();
    assert_eq!(code.len(), 8 * 4);
}

#[test]
fn huge_literal_is_rejected_not_misread() {
    let err = assemble("mov r1, 99999999999999999999999").unwrap_err();
    assert!(matches!(err, AsmError::ImmediateOutOfRange { .. }));
}

#[test]
fn one_call_assemble_matches_the_staged_pipeline() {
    let src = "mov r1, 5\nsub r1, 1\nhalt";
    let staged = assemble(src).unwrap();
    let direct = asmvm::backend::assemble(src.as_bytes().to_vec()).unwrap();
    assert_eq!(staged, direct);
}

#[test]
fn one_call_assemble_reports_errors() {
    let err = asmvm::backend::assemble(b"jmp nowhere".to_vec()).unwrap_err();
    assert_eq!(err, AsmError::UndefinedLabel { name: b"nowhere".to_vec() });
}
