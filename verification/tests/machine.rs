use asmvm::backend::CodeGen;
use asmvm::errors::{Region, VmError};
use asmvm::parser::Parser;
use asmvm::scanner::Scanner;
use asmvm::vm::{Outcome, VM};

fn assemble(src: &str) -> Vec<u8> {
    let mut sc = Scanner::new(src.as_bytes().to_vec());
    let tokens = sc.parse().expect("lexing failed");
    let parser = Parser::new(tokens);
    let mut cg = CodeGen::new(parser).expect("parsing failed");
    cg.gen_().expect("encoding failed")
}

fn run(src: &str) -> (VM, Result<Outcome, VmError>) {
    let code = assemble(src);
    run_code(code, Vec::new())
}

fn run_code(code: Vec<u8>, data: Vec<u8>) -> (VM, Result<Outcome, VmError>) {
    let mut vm = VM::default();
    vm.copy(&code, &data).expect("loading failed");
    let r = vm.execute(1_000_000);
    (vm, r)
}

#[test]
fn countdown_prints_five_to_zero_then_halts() {
    let (vm, r) = run(
        "mov r1, 5\nmov r2, 0\nagain:\nprint r1\nsub r1, 1\ncmp r1, r2\njmpge again\nhalt",
    );
    assert_eq!(r, Ok(Outcome::Halted));
    assert_eq!(vm.output(), &vec![5, 4, 3, 2, 1, 0]);
}

#[test]
fn push_pop_pairs_are_lifo_exact() {
    let (vm, r) = run("push 100\npush 7\npop r1\npop r2\nhalt");
    assert_eq!(r, Ok(Outcome::Halted));
    assert_eq!(vm.reg(1), 7);
    assert_eq!(vm.reg(2), 100);
}

#[test]
fn push_register_pop_round_trips() {
    let (vm, r) = run("mov r0, -12345\npush r0\nmov r0, 0\npop r3\nhalt");
    assert_eq!(r, Ok(Outcome::Halted));
    assert_eq!(vm.reg(3), -12345);
}

#[test]
fn push_negative_immediate_sign_extends() {
    let (vm, r) = run("push -8388608\npop r1\npush -1\npop r2\nhalt");
    assert_eq!(r, Ok(Outcome::Halted));
    assert_eq!(vm.reg(1), -8388608);
    assert_eq!(vm.reg(2), -1);
}

#[test]
fn divide_by_zero_register_reports_and_stops() {
    let (vm, r) = run("mov r0, 10\nmov r1, 0\ndiv r0, r1\nhalt");
    assert_eq!(r, Err(VmError::DivideByZero));
    // registers keep their last valid state
    assert_eq!(vm.reg(0), 10);
    assert_eq!(vm.reg(1), 0);
}

#[test]
fn divide_by_zero_immediate_reports_and_stops() {
    let (vm, r) = run("mov r0, 10\ndiv r0, 0\nhalt");
    assert_eq!(r, Err(VmError::DivideByZero));
    assert_eq!(vm.reg(0), 10);
}

#[test]
fn modulo_by_zero_reports_and_stops() {
    let (vm, r) = run("mov r0, 10\nmov r1, 0\nmod r0, r1\nhalt");
    assert_eq!(r, Err(VmError::DivideByZero));
    assert_eq!(vm.reg(0), 10);
}

#[test]
fn add_at_sixteen_bit_boundary_does_not_overflow_thirty_two_bit_registers() {
    // registers are 32 bits wide: 32767 + 1 is an ordinary sum
    let (vm, r) = run("mov r1, 32767\nadd r1, 1\nhalt");
    assert_eq!(r, Ok(Outcome::Halted));
    assert_eq!(vm.reg(1), 32768);
    assert!(!vm.flags().carry);
    assert!(!vm.flags().zero);
}

#[test]
fn add_overflow_wraps_and_sets_carry() {
    // double 16384 seventeen times: the last doubling crosses the
    // 32-bit boundary, wraps to the minimum value and sets carry
    let mut src = String::from("mov r1, 16384\n");
    for _ in 0..17 {
        src.push_str("add r1, r1\n");
    }
    src.push_str("halt");
    let (vm, r) = run(&src);
    assert_eq!(r, Ok(Outcome::Halted));
    assert_eq!(vm.reg(1), i32::MIN);
    assert!(vm.flags().carry);
    assert!(!vm.flags().zero);
}

#[test]
fn sub_overflow_wraps_and_sets_carry() {
    // r1 = i32::MIN, then subtracting 1 wraps to i32::MAX with carry
    let mut src = String::from("mov r1, 16384\n");
    for _ in 0..17 {
        src.push_str("add r1, r1\n");
    }
    src.push_str("sub r1, 1\nhalt");
    let (vm, r) = run(&src);
    assert_eq!(r, Ok(Outcome::Halted));
    assert_eq!(vm.reg(1), i32::MAX);
    assert!(vm.flags().carry);
}

#[test]
fn sub_to_zero_sets_zero_flag_and_clears_carry() {
    let (vm, r) = run("mov r1, 3\nsub r1, 3\nhalt");
    assert_eq!(r, Ok(Outcome::Halted));
    assert_eq!(vm.reg(1), 0);
    assert!(vm.flags().zero);
    assert!(!vm.flags().carry);
}

#[test]
fn compare_sets_exactly_one_flag() {
    let (vm, _) = run("mov r0, 4\nmov r1, 9\ncmp r0, r1\nhalt");
    assert!(vm.flags().lesser);
    assert!(!vm.flags().greater);
    assert!(!vm.flags().zero);
    let (vm, _) = run("mov r0, 9\ncmp r0, 4\nhalt");
    assert!(vm.flags().greater);
    assert!(!vm.flags().lesser);
    assert!(!vm.flags().zero);
    let (vm, _) = run("mov r0, 4\ncmp r0, 4\nhalt");
    assert!(vm.flags().zero);
    assert!(!vm.flags().greater);
    assert!(!vm.flags().lesser);
}

#[test]
fn call_and_ret_resume_after_the_call() {
    let (vm, r) = run("mov r0, 1\ncall sub1\nmov r2, 3\nhalt\nsub1:\nmov r1, 2\nret");
    assert_eq!(r, Ok(Outcome::Halted));
    assert_eq!(vm.reg(0), 1);
    assert_eq!(vm.reg(1), 2);
    // execution resumed at the statement after the call
    assert_eq!(vm.reg(2), 3);
}

#[test]
fn nested_calls_return_in_order() {
    let (vm, r) = run(
        "call outer\nhalt\nouter:\nmov r0, 1\ncall inner\nadd r0, 10\nret\ninner:\nadd r0, 100\nret",
    );
    assert_eq!(r, Ok(Outcome::Halted));
    assert_eq!(vm.reg(0), 111);
}

#[test]
fn unconditional_jump_skips_code() {
    let (vm, r) = run("jmp over\nmov r0, 1\nover:\nmov r1, 2\nhalt");
    assert_eq!(r, Ok(Outcome::Halted));
    assert_eq!(vm.reg(0), 0);
    assert_eq!(vm.reg(1), 2);
}

#[test]
fn conditional_jumps_follow_compare_flags() {
    let (vm, _) = run("mov r0, 1\ncmp r0, 0\njmpg hit\nmov r1, 9\nhit:\nhalt");
    assert_eq!(vm.reg(1), 0);
    let (vm, _) = run("mov r0, 1\ncmp r0, 5\njmpl hit\nmov r1, 9\nhit:\nhalt");
    assert_eq!(vm.reg(1), 0);
    let (vm, _) = run("mov r0, 5\ncmp r0, 5\njmpz hit\nmov r1, 9\nhit:\nhalt");
    assert_eq!(vm.reg(1), 0);
    let (vm, _) = run("mov r0, 5\ncmp r0, 4\njmpnz hit\nmov r1, 9\nhit:\nhalt");
    assert_eq!(vm.reg(1), 0);
    let (vm, _) = run("mov r0, 5\ncmp r0, 5\njmpnz hit\nmov r1, 9\nhit:\nhalt");
    assert_eq!(vm.reg(1), 9);
}

#[test]
fn bitwise_operations_and_zero_flag() {
    let (vm, _) = run("mov r0, 12\nmov r1, 10\nand r0, r1\nhalt");
    assert_eq!(vm.reg(0), 8);
    let (vm, _) = run("mov r0, 12\nor r0, 3\nhalt");
    assert_eq!(vm.reg(0), 15);
    let (vm, _) = run("mov r0, 12\nxor r0, r0\nhalt");
    assert_eq!(vm.reg(0), 0);
    assert!(vm.flags().zero);
}

#[test]
fn multiplication_wraps_and_flags() {
    let (vm, _) = run("mov r0, 1000\nmul r0, 1000\nhalt");
    assert_eq!(vm.reg(0), 1_000_000);
    assert!(!vm.flags().carry);
    let (vm, _) = run("mov r0, 0\nmul r0, 5\nhalt");
    assert_eq!(vm.reg(0), 0);
    assert!(vm.flags().zero);
}

#[test]
fn division_truncates_toward_zero() {
    let (vm, _) = run("mov r0, 7\nmov r1, 2\ndiv r0, r1\nhalt");
    assert_eq!(vm.reg(0), 3);
    let (vm, _) = run("mov r0, -7\ndiv r0, 2\nhalt");
    assert_eq!(vm.reg(0), -3);
    let (vm, _) = run("mov r0, -7\nmod r0, 2\nhalt");
    assert_eq!(vm.reg(0), -1);
}

#[test]
fn stack_underflow_is_fatal() {
    let (_, r) = run("pop r0\nhalt");
    assert_eq!(r, Err(VmError::StackUnderflow));
}

#[test]
fn stack_overflow_is_fatal() {
    let (_, r) = run("again:\npush 1\njmp again");
    assert_eq!(r, Err(VmError::StackOverflow));
}

#[test]
fn ret_with_empty_stack_is_fatal() {
    let (_, r) = run("ret");
    assert_eq!(r, Err(VmError::StackUnderflow));
}

#[test]
fn running_off_the_code_region_is_fatal() {
    // no halt: the machine slides through no-op memory to the region end
    let (_, r) = run("mov r0, 1");
    assert!(matches!(r, Err(VmError::MemoryOutOfBounds { region: Region::Code, .. })));
}

#[test]
fn unknown_opcode_is_reported() {
    let code = vec![0x00, 0x00, 0x00, 0x99];
    let (_, r) = run_code(code, Vec::new());
    assert_eq!(r, Err(VmError::IllegalInstruction { opcode: 0x99 }));
}

#[test]
fn step_budget_runs_out_on_a_spinning_program() {
    let code = assemble("again:\njmp again");
    let mut vm = VM::default();
    vm.copy(&code, &Vec::new()).unwrap();
    assert_eq!(vm.execute(100), Ok(Outcome::StepLimit));
}

#[test]
fn load_from_data_sign_extends_a_byte() {
    // mov r1,[0] ; cmp r2,[1] ; halt -- built by hand, these forms have
    // no assembly spelling
    let code = vec![
        0x00, 0x00, 0x01, 0x35, // load data byte 0 into r1
        0x01, 0x00, 0x02, 0x36, // compare r2 against data byte 1
        0x00, 0x00, 0x00, 0xFF, // halt
    ];
    let data = vec![0xFFu8, 0x05u8];
    let (vm, r) = run_code(code, data);
    assert_eq!(r, Ok(Outcome::Halted));
    assert_eq!(vm.reg(1), -1);
    // r2 == 0, data byte is 5: lesser
    assert!(vm.flags().lesser);
}

#[test]
fn data_access_beyond_region_is_fatal() {
    let code = vec![
        0xFF, 0xFF, 0x01, 0x35, // load from offset 0xFFFF, past the region
    ];
    let (_, r) = run_code(code, Vec::new());
    assert!(matches!(r, Err(VmError::MemoryOutOfBounds { region: Region::Data, .. })));
}

#[test]
fn bitwise_not_complements() {
    let code = vec![
        0x05, 0x00, 0x00, 0x01, // mov r0, 5
        0x00, 0x00, 0x00, 0x30, // not r0
        0x00, 0x00, 0x00, 0xFF, // halt
    ];
    let (vm, r) = run_code(code, Vec::new());
    assert_eq!(r, Ok(Outcome::Halted));
    assert_eq!(vm.reg(0), -6);
}

#[test]
fn loading_an_oversized_program_is_refused() {
    let code = vec![0u8; 0x2000];
    let mut vm = VM::default();
    assert!(vm.copy(&code, &Vec::new()).is_err());
}

#[test]
fn loading_an_oversized_data_segment_is_refused() {
    let data = vec![0u8; 0x1000];
    let mut vm = VM::default();
    assert!(vm.copy(&Vec::new(), &data).is_err());
}

#[test]
fn direct_push_and_pop_methods_round_trip() {
    let mut vm = VM::default();
    let sp0 = vm.sp();
    vm.push(123456).unwrap();
    assert_eq!(vm.sp(), sp0 - 4);
    vm.push(-7).unwrap();
    assert_eq!(vm.pop(), Ok(-7));
    assert_eq!(vm.pop(), Ok(123456));
    assert_eq!(vm.sp(), sp0);
    assert_eq!(vm.pop(), Err(VmError::StackUnderflow));
}

#[test]
fn extract_u32_reads_little_endian_and_advances() {
    let mut vm = VM::default();
    let code = vec![0x78u8, 0x56, 0x34, 0x12];
    vm.copy(&code, &Vec::new()).unwrap();
    assert_eq!(vm.extract_u32(), 0x12345678);
    assert_eq!(vm.pc(), 4);
}

#[test]
fn mov_between_registers_copies_value() {
    let (vm, _) = run("mov r1, 41\nmov r2, r1\nadd r2, 1\nhalt");
    assert_eq!(vm.reg(1), 41);
    assert_eq!(vm.reg(2), 42);
}
