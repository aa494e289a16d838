//! The virtual machine: an 8-register file, four condition flags, a
//! program counter, a downward-growing stack, and a flat byte-addressable
//! memory split into fixed code, data, bss, heap and stack regions.
//!
//! Execution is a fetch-decode-execute loop: read the 4 bytes at `pc`,
//! advance `pc` by 4, dispatch on the opcode byte. Its meaning is the
//! spec function `step_spec`, one transition per instruction, and `run`,
//! its n-fold iteration; `VM::step` and `VM::execute` are proved to
//! follow them exactly. A halt instruction ends execution normally; a
//! zero divisor is a recoverable fault that leaves registers and memory
//! at their last valid state; leaving the code region, stack overflow or
//! underflow, an out-of-range data access, and ill-formed instruction
//! bytes are fatal faults reported without touching any state. The
//! observable print output is collected in order as a value sequence.

use vstd::prelude::*;

use crate::errors::{Region, VmError};
use crate::isa::{
    addr24_val, be_word, i32_as_u32, i32_of_u32, le_word, lemma_be_word_round_trip,
    lemma_i32_u32_round_trip, sign_ext16, sign_ext24, sign_ext8, sign_extend16, sign_extend24,
    sign_extend8, u32_as_i32, u32_be0, u32_be1, u32_be2, u32_be3, u32_of_be_bytes, u32_of_i32,
    OP_ADD_RI, OP_ADD_RR, OP_AND_RI, OP_AND_RR, OP_CALL, OP_CMP_DATA, OP_CMP_RI, OP_CMP_RR,
    OP_DIV_RI, OP_DIV_RR, OP_HALT, OP_JMP, OP_JMPG, OP_JMPGE, OP_JMPL, OP_JMPLE, OP_JMPNZ,
    OP_JMPZ, OP_LOAD_DATA, OP_MOD_RI, OP_MOD_RR, OP_MOV_RI, OP_MOV_RR, OP_MUL_RI, OP_MUL_RR,
    OP_NOP, OP_NOT, OP_OR_RI, OP_OR_RR, OP_POP, OP_PRINT, OP_PUSH_I, OP_PUSH_R, OP_RET,
    OP_SUB_RI, OP_SUB_RR, OP_XOR_RI, OP_XOR_RR,
};

verus! {

pub const MEMORY_SIZE: usize = 65536;
pub const CODE_START: usize = 0x0000;
pub const DATA_START: usize = 0x2000;
pub const BSS_START: usize = 0x3000;
pub const HEAP_START: usize = 0x4000;
/// The stack pointer's initial value, at the top of memory; the stack
/// grows downward toward the heap boundary.
pub const STACK_START: usize = MEMORY_SIZE - 1;
pub const STACK_END: usize = HEAP_START;

/// The four condition bits: zero and carry are set by arithmetic,
/// zero, greater and lesser by compare, and the conditional jumps read
/// them.
#[derive(Debug, Clone, Copy, PartialEq, Eq, Structural)]
pub struct Flags {
    pub zero: bool,
    pub carry: bool,
    pub greater: bool,
    pub lesser: bool,
}

/// The machine's ghost state: flags, program counter, stack pointer,
/// register file, memory, and the values printed so far.
pub ghost struct VmView {
    pub flag: Flags,
    pub pc: int,
    pub sp: int,
    pub regs: Seq<i32>,
    pub mem: Seq<u8>,
    pub out: Seq<i32>,
}

/// Well-formedness: full-size memory, eight registers, a stack pointer
/// inside the stack region moving in whole 4-byte cells, and a program
/// counter that fits 32 bits.
pub open spec fn wf_view(v: VmView) -> bool {
    &&& v.mem.len() == MEMORY_SIZE
    &&& v.regs.len() == 8
    &&& 0 <= v.pc < 0x1_0000_0000
    &&& STACK_END <= v.sp <= STACK_START
    &&& (STACK_START - v.sp) % 4 == 0
}

/// What one fetch-decode-execute step yields: the next state, a normal
/// halt, or a fault together with the state it leaves behind.
pub ghost enum StepOut {
    Next(VmView),
    Halted(VmView),
    Fault(VmView, VmError),
}

// Arithmetic meaning of the opcodes, over mathematical integers.

pub open spec fn add_overflows(x: i32, y: i32) -> bool {
    x + y > i32::MAX || x + y < i32::MIN
}

pub open spec fn sub_overflows(x: i32, y: i32) -> bool {
    x - y > i32::MAX || x - y < i32::MIN
}

pub open spec fn mul_overflows(x: i32, y: i32) -> bool {
    x * y > i32::MAX || x * y < i32::MIN
}

/// Truncated (round-toward-zero) division of the mathematical values.
pub open spec fn trunc_div_val(x: int, d: int) -> int {
    if x == 0 {
        0
    } else if x > 0 && d > 0 {
        x / d
    } else if x < 0 && d < 0 {
        (x * -1) / (d * -1)
    } else if x < 0 {
        ((x * -1) / d) * -1
    } else {
        (x / (d * -1)) * -1
    }
}

/// Truncated remainder: the sign follows the dividend.
pub open spec fn trunc_rem_val(x: int, d: int) -> int {
    if x == 0 {
        0
    } else if x > 0 && d > 0 {
        x % d
    } else if x < 0 && d < 0 {
        ((x * -1) % (d * -1)) * -1
    } else if x < 0 {
        ((x * -1) % d) * -1
    } else {
        x % (d * -1)
    }
}

/// Division as the machine performs it: truncated, and wrapping on the
/// one overflowing pair, like every other arithmetic instruction.
pub open spec fn wrap_div(x: i32, d: i32) -> i32 {
    if x == i32::MIN && d == -1 {
        i32::MIN
    } else {
        trunc_div_val(x as int, d as int) as i32
    }
}

pub open spec fn wrap_rem(x: i32, d: i32) -> i32 {
    if x == i32::MIN && d == -1 {
        0
    } else {
        trunc_rem_val(x as int, d as int) as i32
    }
}

/// Bitwise complement, arithmetically: two's complement negation minus
/// one, always in range.
pub open spec fn not_val(x: i32) -> i32 {
    (-x - 1) as i32
}

// State-update helpers shared by the opcode arms.

pub open spec fn upd_reg(t: VmView, n: int, v: i32) -> VmView {
    VmView { regs: t.regs.update(n, v), ..t }
}

/// An arithmetic instruction's result: the destination register takes
/// `res`, carry becomes `ovf`, zero becomes `res == 0`; greater and
/// lesser keep their values.
pub open spec fn arith_step(t: VmView, n: int, res: i32, ovf: bool) -> VmView {
    VmView {
        regs: t.regs.update(n, res),
        flag: Flags { carry: ovf, zero: res == 0, ..t.flag },
        ..t
    }
}

/// A compare against difference `d`: exactly one of zero, greater and
/// lesser is set, zero taking precedence; carry keeps its value.
pub open spec fn cmp_step(t: VmView, d: i32) -> VmView {
    VmView { flag: Flags { zero: d == 0, greater: d > 0, lesser: d < 0, carry: t.flag.carry }, ..t }
}

/// A bitwise instruction's result: only the zero flag is touched.
pub open spec fn bit_step(t: VmView, n: int, res: i32) -> VmView {
    VmView { regs: t.regs.update(n, res), flag: Flags { zero: res == 0, ..t.flag }, ..t }
}

pub open spec fn jump_step(t: VmView, cond: bool, a: u8, b: u8, c: u8) -> VmView {
    if cond {
        VmView { pc: 4 * addr24_val(a, b, c), ..t }
    } else {
        t
    }
}

/// Room for one more 4-byte stack cell.
pub open spec fn can_push(t: VmView) -> bool {
    t.sp - 4 >= STACK_END
}

/// A push: the stack pointer moves down one cell and the cell takes the
/// value's four bytes, most significant first.
pub open spec fn push_spec(t: VmView, v: i32) -> VmView {
    let u = i32_as_u32(v);
    let sp2 = t.sp - 4;
    VmView {
        sp: sp2,
        mem: t.mem.update(sp2, u32_be0(u)).update(sp2 + 1, u32_be1(u)).update(
            sp2 + 2,
            u32_be2(u),
        ).update(sp2 + 3, u32_be3(u)),
        ..t
    }
}

/// The value the cell at the stack pointer holds.
pub open spec fn pop_val(t: VmView) -> i32 {
    u32_as_i32(be_word(t.mem[t.sp], t.mem[t.sp + 1], t.mem[t.sp + 2], t.mem[t.sp + 3]))
}

/// Pushing a value and reading the top cell back yields the value: the
/// stack is exact, bit for bit.
pub proof fn lemma_push_then_pop(t: VmView, v: i32)
    requires
        wf_view(t),
        can_push(t),
    ensures
        pop_val(push_spec(t, v)) == v,
        push_spec(t, v).sp == t.sp - 4,
{
    lemma_be_word_round_trip(i32_as_u32(v));
    lemma_i32_u32_round_trip(v);
}

/// One fetch-decode-execute transition from state `s`.
pub open spec fn step_spec(s: VmView) -> StepOut {
    if s.pc + 4 > DATA_START {
        StepOut::Fault(
            s,
            VmError::MemoryOutOfBounds { region: Region::Code, offset: s.pc as usize },
        )
    } else {
        let op = s.mem[s.pc + 3];
        let a = s.mem[s.pc + 2];
        let b = s.mem[s.pc + 1];
        let c = s.mem[s.pc];
        let t = VmView { pc: s.pc + 4, ..s };
        let illegal = StepOut::Fault(s, VmError::IllegalInstruction { opcode: op });
        if op == OP_NOP {
            StepOut::Next(t)
        } else if op == OP_HALT {
            StepOut::Halted(t)
        } else if op == OP_MOV_RI {
            if a < 8 {
                StepOut::Next(upd_reg(t, a as int, sign_ext16(b, c)))
            } else {
                illegal
            }
        } else if op == OP_MOV_RR {
            if a < 8 && b < 8 {
                StepOut::Next(upd_reg(t, a as int, t.regs[b as int]))
            } else {
                illegal
            }
        } else if op == OP_ADD_RR {
            if a < 8 && b < 8 {
                let x = t.regs[a as int];
                let y = t.regs[b as int];
                StepOut::Next(
                    arith_step(
                        t,
                        a as int,
                        vstd::wrapping::i32_specs::wrapping_add(x, y),
                        add_overflows(x, y),
                    ),
                )
            } else {
                illegal
            }
        } else if op == OP_ADD_RI {
            if a < 8 {
                let x = t.regs[a as int];
                let y = sign_ext16(b, c);
                StepOut::Next(
                    arith_step(
                        t,
                        a as int,
                        vstd::wrapping::i32_specs::wrapping_add(x, y),
                        add_overflows(x, y),
                    ),
                )
            } else {
                illegal
            }
        } else if op == OP_SUB_RR {
            if a < 8 && b < 8 {
                let x = t.regs[a as int];
                let y = t.regs[b as int];
                StepOut::Next(
                    arith_step(
                        t,
                        a as int,
                        vstd::wrapping::i32_specs::wrapping_sub(x, y),
                        sub_overflows(x, y),
                    ),
                )
            } else {
                illegal
            }
        } else if op == OP_SUB_RI {
            if a < 8 {
                let x = t.regs[a as int];
                let y = sign_ext16(b, c);
                StepOut::Next(
                    arith_step(
                        t,
                        a as int,
                        vstd::wrapping::i32_specs::wrapping_sub(x, y),
                        sub_overflows(x, y),
                    ),
                )
            } else {
                illegal
            }
        } else if op == OP_CMP_RR {
            if a < 8 && b < 8 {
                StepOut::Next(
                    cmp_step(
                        t,
                        vstd::wrapping::i32_specs::wrapping_sub(
                            t.regs[a as int],
                            t.regs[b as int],
                        ),
                    ),
                )
            } else {
                illegal
            }
        } else if op == OP_CMP_RI {
            if a < 8 {
                StepOut::Next(
                    cmp_step(
                        t,
                        vstd::wrapping::i32_specs::wrapping_sub(
                            t.regs[a as int],
                            sign_ext16(b, c),
                        ),
                    ),
                )
            } else {
                illegal
            }
        } else if op == OP_JMPG {
            StepOut::Next(jump_step(t, t.flag.greater, a, b, c))
        } else if op == OP_JMPL {
            StepOut::Next(jump_step(t, t.flag.lesser, a, b, c))
        } else if op == OP_JMPGE {
            StepOut::Next(jump_step(t, t.flag.greater || t.flag.zero, a, b, c))
        } else if op == OP_JMPLE {
            StepOut::Next(jump_step(t, t.flag.lesser || t.flag.zero, a, b, c))
        } else if op == OP_JMPZ {
            StepOut::Next(jump_step(t, t.flag.zero, a, b, c))
        } else if op == OP_JMPNZ {
            StepOut::Next(jump_step(t, !t.flag.zero, a, b, c))
        } else if op == OP_JMP {
            StepOut::Next(jump_step(t, true, a, b, c))
        } else if op == OP_PRINT {
            if a < 8 {
                StepOut::Next(VmView { out: t.out.push(t.regs[a as int]), ..t })
            } else {
                illegal
            }
        } else if op == OP_MUL_RI {
            if a < 8 {
                let x = t.regs[a as int];
                let y = sign_ext16(b, c);
                StepOut::Next(
                    arith_step(
                        t,
                        a as int,
                        vstd::wrapping::i32_specs::wrapping_mul(x, y),
                        mul_overflows(x, y),
                    ),
                )
            } else {
                illegal
            }
        } else if op == OP_MUL_RR {
            if a < 8 && b < 8 {
                let x = t.regs[a as int];
                let y = t.regs[b as int];
                StepOut::Next(
                    arith_step(
                        t,
                        a as int,
                        vstd::wrapping::i32_specs::wrapping_mul(x, y),
                        mul_overflows(x, y),
                    ),
                )
            } else {
                illegal
            }
        } else if op == OP_DIV_RR {
            if a < 8 && b < 8 {
                let d = t.regs[b as int];
                if d == 0 {
                    StepOut::Fault(
                        VmView { flag: Flags { zero: false, ..t.flag }, ..t },
                        VmError::DivideByZero,
                    )
                } else {
                    let q = wrap_div(t.regs[a as int], d);
                    StepOut::Next(
                        VmView {
                            regs: t.regs.update(a as int, q),
                            flag: Flags { zero: q == 0, ..t.flag },
                            ..t
                        },
                    )
                }
            } else {
                illegal
            }
        } else if op == OP_DIV_RI {
            if a < 8 {
                let d = sign_ext16(b, c);
                if d == 0 {
                    StepOut::Fault(
                        VmView { flag: Flags { zero: false, ..t.flag }, ..t },
                        VmError::DivideByZero,
                    )
                } else {
                    let q = wrap_div(t.regs[a as int], d);
                    StepOut::Next(
                        VmView {
                            regs: t.regs.update(a as int, q),
                            flag: Flags { zero: q == 0, ..t.flag },
                            ..t
                        },
                    )
                }
            } else {
                illegal
            }
        } else if op == OP_MOD_RR {
            if a < 8 && b < 8 {
                let d = t.regs[b as int];
                if d == 0 {
                    StepOut::Fault(
                        VmView { flag: Flags { zero: false, carry: false, ..t.flag }, ..t },
                        VmError::DivideByZero,
                    )
                } else {
                    let q = wrap_rem(t.regs[a as int], d);
                    StepOut::Next(
                        VmView {
                            regs: t.regs.update(a as int, q),
                            flag: Flags { zero: q == 0, carry: false, ..t.flag },
                            ..t
                        },
                    )
                }
            } else {
                illegal
            }
        } else if op == OP_MOD_RI {
            if a < 8 {
                let d = sign_ext16(b, c);
                if d == 0 {
                    StepOut::Fault(
                        VmView { flag: Flags { zero: false, ..t.flag }, ..t },
                        VmError::DivideByZero,
                    )
                } else {
                    let q = wrap_rem(t.regs[a as int], d);
                    StepOut::Next(
                        VmView {
                            regs: t.regs.update(a as int, q),
                            flag: Flags { zero: q == 0, ..t.flag },
                            ..t
                        },
                    )
                }
            } else {
                illegal
            }
        } else if op == OP_CALL {
            if !can_push(t) {
                StepOut::Fault(s, VmError::StackOverflow)
            } else {
                let t2 = push_spec(t, t.pc as i32);
                StepOut::Next(VmView { pc: 4 * addr24_val(a, b, c), ..t2 })
            }
        } else if op == OP_RET {
            if t.sp >= STACK_START {
                StepOut::Fault(s, VmError::StackUnderflow)
            } else {
                StepOut::Next(
                    VmView { pc: i32_as_u32(pop_val(t)) as int, sp: t.sp + 4, ..t },
                )
            }
        } else if op == OP_PUSH_I {
            if !can_push(t) {
                StepOut::Fault(s, VmError::StackOverflow)
            } else {
                StepOut::Next(push_spec(t, sign_ext24(a, b, c)))
            }
        } else if op == OP_POP {
            if a >= 8 {
                illegal
            } else if t.sp >= STACK_START {
                StepOut::Fault(s, VmError::StackUnderflow)
            } else {
                StepOut::Next(
                    VmView { regs: t.regs.update(a as int, pop_val(t)), sp: t.sp + 4, ..t },
                )
            }
        } else if op == OP_PUSH_R {
            if a >= 8 {
                illegal
            } else if !can_push(t) {
                StepOut::Fault(s, VmError::StackOverflow)
            } else {
                StepOut::Next(push_spec(t, t.regs[a as int]))
            }
        } else if op == OP_AND_RR {
            if a < 8 && b < 8 {
                StepOut::Next(bit_step(t, a as int, t.regs[a as int] & t.regs[b as int]))
            } else {
                illegal
            }
        } else if op == OP_AND_RI {
            if a < 8 {
                StepOut::Next(bit_step(t, a as int, t.regs[a as int] & sign_ext16(b, c)))
            } else {
                illegal
            }
        } else if op == OP_OR_RR {
            if a < 8 && b < 8 {
                StepOut::Next(bit_step(t, a as int, t.regs[a as int] | t.regs[b as int]))
            } else {
                illegal
            }
        } else if op == OP_OR_RI {
            if a < 8 {
                StepOut::Next(bit_step(t, a as int, t.regs[a as int] | sign_ext16(b, c)))
            } else {
                illegal
            }
        } else if op == OP_XOR_RR {
            if a < 8 && b < 8 {
                StepOut::Next(bit_step(t, a as int, t.regs[a as int] ^ t.regs[b as int]))
            } else {
                illegal
            }
        } else if op == OP_XOR_RI {
            if a < 8 {
                StepOut::Next(bit_step(t, a as int, t.regs[a as int] ^ sign_ext16(b, c)))
            } else {
                illegal
            }
        } else if op == OP_NOT {
            if a < 8 {
                StepOut::Next(bit_step(t, a as int, not_val(t.regs[a as int])))
            } else {
                illegal
            }
        } else if op == OP_LOAD_DATA {
            if a < 8 {
                let off = DATA_START + b * 256 + c;
                if off >= BSS_START {
                    StepOut::Fault(
                        s,
                        VmError::MemoryOutOfBounds { region: Region::Data, offset: off as usize },
                    )
                } else {
                    StepOut::Next(upd_reg(t, a as int, sign_ext8(t.mem[off])))
                }
            } else {
                illegal
            }
        } else if op == OP_CMP_DATA {
            if a < 8 {
                let off = DATA_START + b * 256 + c;
                if off >= BSS_START {
                    StepOut::Fault(
                        s,
                        VmError::MemoryOutOfBounds { region: Region::Data, offset: off as usize },
                    )
                } else {
                    StepOut::Next(
                        cmp_step(
                            t,
                            vstd::wrapping::i32_specs::wrapping_sub(
                                t.regs[a as int],
                                sign_ext8(t.mem[off]),
                            ),
                        ),
                    )
                }
            } else {
                illegal
            }
        } else {
            illegal
        }
    }
}

/// Up to `n` transitions from `s`: the state reached, or the halt or
/// fault met on the way.
pub open spec fn run(s: VmView, n: nat) -> StepOut
    decreases n,
{
    if n == 0 {
        StepOut::Next(s)
    } else {
        match step_spec(s) {
            StepOut::Next(s2) => run(s2, (n - 1) as nat),
            other => other,
        }
    }
}

/// Extending a run that reached `m` by one transition applies
/// `step_spec` to `m`.
pub proof fn lemma_run_extend(s: VmView, n: nat)
    requires
        run(s, n) matches StepOut::Next(m),
    ensures
        (match run(s, n) {
            StepOut::Next(m) => run(s, n + 1) == step_spec(m),
            _ => true,
        }),
    decreases n,
{
    reveal_with_fuel(run, 2);
    if n > 0 {
        match step_spec(s) {
            StepOut::Next(s2) => {
                lemma_run_extend(s2, (n - 1) as nat);
            },
            _ => {},
        }
    }
}

/// Truncated division stays in the 32-bit range for every pair but the
/// minimum value divided by minus one.
proof fn lemma_trunc_div_bounds(x: i32, d: i32)
    requires
        d != 0,
        !(x == i32::MIN && d == -1),
    ensures
        i32::MIN <= trunc_div_val(x as int, d as int) <= i32::MAX,
{
    let xi = x as int;
    let di = d as int;
    if xi == 0 {
    } else if xi > 0 && di > 0 {
        vstd::arithmetic::div_mod::lemma_div_pos_is_pos(xi, di);
        vstd::arithmetic::div_mod::lemma_div_nonincreasing(xi, di);
    } else if xi < 0 && di < 0 {
        let nx = xi * -1;
        let nd = di * -1;
        vstd::arithmetic::div_mod::lemma_div_pos_is_pos(nx, nd);
        if nd == 1 {
            vstd::arithmetic::div_mod::lemma_div_basics(nx);
        } else {
            vstd::arithmetic::div_mod::lemma_div_is_ordered_by_denominator(nx, 2, nd);
            vstd::arithmetic::div_mod::lemma_div_is_ordered(nx, 0x8000_0000, 2);
        }
    } else if xi < 0 {
        let nx = xi * -1;
        vstd::arithmetic::div_mod::lemma_div_pos_is_pos(nx, di);
        vstd::arithmetic::div_mod::lemma_div_nonincreasing(nx, di);
    } else {
        let nd = di * -1;
        vstd::arithmetic::div_mod::lemma_div_pos_is_pos(xi, nd);
        vstd::arithmetic::div_mod::lemma_div_nonincreasing(xi, nd);
    }
}

/// The truncated remainder's magnitude stays under the divisor's.
proof fn lemma_trunc_rem_bounds(x: i32, d: i32)
    requires
        d != 0,
        !(x == i32::MIN && d == -1),
    ensures
        i32::MIN <= trunc_rem_val(x as int, d as int) <= i32::MAX,
{
    let xi = x as int;
    let di = d as int;
    if xi == 0 {
    } else if xi > 0 && di > 0 {
        vstd::arithmetic::div_mod::lemma_mod_division_less_than_divisor(xi, di);
    } else if xi < 0 && di < 0 {
        vstd::arithmetic::div_mod::lemma_mod_division_less_than_divisor(xi * -1, di * -1);
    } else if xi < 0 {
        vstd::arithmetic::div_mod::lemma_mod_division_less_than_divisor(xi * -1, di);
    } else {
        vstd::arithmetic::div_mod::lemma_mod_division_less_than_divisor(xi, di * -1);
    }
}

/// Division following the machine's rule: truncated, wrapping on the
/// one overflowing pair. The divisor has been checked already.
fn div_i32(x: i32, d: i32) -> (r: i32)
    requires
        d != 0,
    ensures
        r == wrap_div(x, d),
{
    if x == i32::MIN && d == -1 {
        i32::MIN
    } else {
        proof {
            lemma_trunc_div_bounds(x, d);
        }
        match x.checked_div(d) {
            Some(q) => q,
            None => {
                proof {
                    assert(false);
                }
                0
            },
        }
    }
}

fn rem_i32(x: i32, d: i32) -> (r: i32)
    requires
        d != 0,
    ensures
        r == wrap_rem(x, d),
{
    if x == i32::MIN && d == -1 {
        0
    } else {
        proof {
            lemma_trunc_rem_bounds(x, d);
        }
        match x.checked_rem(d) {
            Some(q) => q,
            None => {
                proof {
                    assert(false);
                }
                0
            },
        }
    }
}

fn not_i32(x: i32) -> (r: i32)
    ensures
        r == not_val(x),
{
    ((-(x as i64)) - 1) as i32
}

/// The machine: flags, program counter, stack pointer, registers, flat
/// memory, and the print output collected so far.
pub struct VM {
    flag: Flags,
    pc: u32,
    sp: usize,
    reg: Vec<i32>,
    memory: Vec<u8>,
    output: Vec<i32>,
}

impl View for VM {
    type V = VmView;

    closed spec fn view(&self) -> VmView {
        VmView {
            flag: self.flag,
            pc: self.pc as int,
            sp: self.sp as int,
            regs: self.reg@,
            mem: self.memory@,
            out: self.output@,
        }
    }
}

impl VM {
    pub open spec fn wf(&self) -> bool {
        wf_view(self@)
    }
}

impl Default for VM {
    /// A fresh machine: zeroed flags, registers and memory, the program
    /// counter at the start of the code region, the stack pointer at the
    /// top of memory, nothing printed yet.
    fn default() -> (r: VM)
        ensures
            r.wf(),
            r@.flag == (Flags { zero: false, carry: false, greater: false, lesser: false }),
            r@.pc == CODE_START,
            r@.sp == STACK_START,
            r@.regs.len() == 8,
            forall|i: int| 0 <= i < 8 ==> r@.regs[i] == 0,
            r@.mem.len() == MEMORY_SIZE,
            forall|i: int| 0 <= i < MEMORY_SIZE ==> r@.mem[i] == 0,
            r@.out.len() == 0,
    {
        VM {
            flag: Flags { zero: false, carry: false, greater: false, lesser: false },
            pc: 0,
            sp: STACK_START,
            reg: vec![0i32; 8],
            memory: vec![0u8; MEMORY_SIZE],
            output: Vec::new(),
        }
    }
}

impl VM {
    pub fn reg(&self, i: usize) -> (r: i32)
        requires
            self.wf(),
            i < 8,
        ensures
            r == self@.regs[i as int],
    {
        self.reg[i]
    }

    pub fn flags(&self) -> (r: Flags)
        ensures
            r == self@.flag,
    {
        self.flag
    }

    pub fn output(&self) -> (r: &Vec<i32>)
        ensures
            r@ == self@.out,
    {
        &self.output
    }

    pub fn pc(&self) -> (r: u32)
        ensures
            r as int == self@.pc,
    {
        self.pc
    }

    pub fn sp(&self) -> (r: usize)
        ensures
            r as int == self@.sp,
    {
        self.sp
    }

    pub fn mem_at(&self, i: usize) -> (r: u8)
        requires
            self.wf(),
            i < MEMORY_SIZE,
        ensures
            r == self@.mem[i as int],
    {
        self.memory[i]
    }

    /// Pushes a 32-bit value onto the stack, most significant byte at
    /// the new stack pointer, or reports overflow with nothing changed.
    pub fn push(&mut self, value: i32) -> (r: Result<(), VmError>)
        requires
            old(self).wf(),
        ensures
            final(self).wf(),
            (if can_push(old(self)@) {
                r matches Ok(u) && final(self)@ == push_spec(old(self)@, value)
            } else {
                r == Err::<(), VmError>(VmError::StackOverflow) && final(self)@ == old(self)@
            }),
    {
        if self.sp < STACK_END + 4 {
            return Err(VmError::StackOverflow);
        }
        let u = u32_of_i32(value);
        let (b0, b1, b2, b3) = crate::isa::be_bytes_of_u32(u);
        let sp2 = self.sp - 4;
        self.memory[sp2] = b0;
        self.memory[sp2 + 1] = b1;
        self.memory[sp2 + 2] = b2;
        self.memory[sp2 + 3] = b3;
        self.sp = sp2;
        Ok(())
    }

    /// Pops the 32-bit value at the stack pointer, or reports underflow
    /// with nothing changed.
    pub fn pop(&mut self) -> (r: Result<i32, VmError>)
        requires
            old(self).wf(),
        ensures
            final(self).wf(),
            (if old(self)@.sp < STACK_START {
                r matches Ok(v) && v == pop_val(old(self)@) && final(self)@ == (VmView {
                    sp: old(self)@.sp + 4,
                    ..old(self)@
                })
            } else {
                r == Err::<i32, VmError>(VmError::StackUnderflow) && final(self)@ == old(self)@
            }),
    {
        if self.sp >= STACK_START {
            return Err(VmError::StackUnderflow);
        }
        proof {
            assert(self.sp + 4 <= STACK_START);
        }
        let b0 = self.memory[self.sp];
        let b1 = self.memory[self.sp + 1];
        let b2 = self.memory[self.sp + 2];
        let b3 = self.memory[self.sp + 3];
        let u = u32_of_be_bytes(b0, b1, b2, b3);
        self.sp = self.sp + 4;
        Ok(i32_of_u32(u))
    }

    /// Reads the 4 bytes at the program counter as one little-endian
    /// word and advances the counter; the caller keeps the counter
    /// inside the code region.
    pub fn extract_u32(&mut self) -> (r: u32)
        requires
            old(self).wf(),
            old(self)@.pc + 4 <= DATA_START,
        ensures
            final(self).wf(),
            final(self)@ == (VmView { pc: old(self)@.pc + 4, ..old(self)@ }),
            r == le_word(
                old(self)@.mem[old(self)@.pc],
                old(self)@.mem[old(self)@.pc + 1],
                old(self)@.mem[old(self)@.pc + 2],
                old(self)@.mem[old(self)@.pc + 3],
            ),
    {
        let base = self.pc as usize;
        let b0 = self.memory[base];
        let b1 = self.memory[base + 1];
        let b2 = self.memory[base + 2];
        let b3 = self.memory[base + 3];
        self.pc = self.pc + 4;
        (b0 as u32) + (b1 as u32) * 0x100 + (b2 as u32) * 0x1_0000 + (b3 as u32) * 0x100_0000
    }
}

/// Memory after a program and a data segment are loaded: the program's
/// bytes from the start of the code region, the data bytes from the
/// start of the data region, everything else untouched.
pub open spec fn load_mem(mem: Seq<u8>, program: Seq<u8>, data: Seq<u8>) -> Seq<u8> {
    Seq::new(
        mem.len(),
        |i: int|
            if 0 <= i < program.len() {
                program[i]
            } else if DATA_START <= i < DATA_START + data.len() {
                data[i - DATA_START]
            } else {
                mem[i]
            },
    )
}

impl VM {
    /// Loads a program and a data segment, after validating that each
    /// fits within its region.
    pub fn copy(&mut self, program: &Vec<u8>, data: &Vec<u8>) -> (r: Result<(), VmError>)
        requires
            old(self).wf(),
        ensures
            final(self).wf(),
            (if program@.len() < DATA_START && data@.len() < BSS_START - DATA_START {
                r matches Ok(u) && final(self)@ == (VmView {
                    mem: load_mem(old(self)@.mem, program@, data@),
                    ..old(self)@
                })
            } else {
                r is Err && final(self)@ == old(self)@
            }),
    {
        if program.len() >= DATA_START {
            return Err(
                VmError::MemoryOutOfBounds { region: Region::Code, offset: program.len() },
            );
        }
        if data.len() >= BSS_START - DATA_START {
            return Err(
                VmError::MemoryOutOfBounds { region: Region::Data, offset: data.len() },
            );
        }
        let ghost mem0 = self.memory@;
        let mut i: usize = 0;
        while i < program.len()
            invariant
                self.flag == old(self).flag,
                self.pc == old(self).pc,
                self.sp == old(self).sp,
                self.reg@ == old(self).reg@,
                self.output@ == old(self).output@,
                mem0 == old(self).memory@,
                i <= program@.len(),
                program@.len() < DATA_START,
                self.memory@.len() == mem0.len(),
                mem0.len() == MEMORY_SIZE,
                forall|j: int|
                    0 <= j < mem0.len() ==> self.memory@[j] == (if 0 <= j < i {
                        program@[j]
                    } else {
                        mem0[j]
                    }),
            decreases program@.len() - i,
        {
            self.memory[i] = program[i];
            i = i + 1;
        }
        let mut k: usize = 0;
        while k < data.len()
            invariant
                self.flag == old(self).flag,
                self.pc == old(self).pc,
                self.sp == old(self).sp,
                self.reg@ == old(self).reg@,
                self.output@ == old(self).output@,
                mem0 == old(self).memory@,
                k <= data@.len(),
                program@.len() < DATA_START,
                data@.len() < BSS_START - DATA_START,
                self.memory@.len() == mem0.len(),
                mem0.len() == MEMORY_SIZE,
                forall|j: int|
                    0 <= j < mem0.len() ==> self.memory@[j] == (if 0 <= j < program@.len() {
                        program@[j]
                    } else if DATA_START <= j < DATA_START + k {
                        data@[j - DATA_START]
                    } else {
                        mem0[j]
                    }),
            decreases data@.len() - k,
        {
            self.memory[DATA_START + k] = data[k];
            k = k + 1;
        }
        proof {
            assert(self.memory@ =~= load_mem(mem0, program@, data@));
        }
        Ok(())
    }
}

/// What one executed step reported: keep going, a normal halt, or a
/// fault.
#[derive(Debug, Clone, Copy, PartialEq, Eq, Structural)]
pub enum StepResult {
    Continue,
    Halted,
    Fault(VmError),
}

impl VM {
    /// The handlers below each execute one group of opcodes; `step`
    /// fetches the instruction bytes and dispatches. Every handler's
    /// contract is the same: the machine moves exactly as `step_spec`
    /// says for the fetched instruction.
    #[verifier::spinoff_prover]
    fn step_basic(&mut self, op: u8, a: u8, b: u8, c: u8) -> (r: StepResult)
        requires
            old(self).wf(),
            old(self)@.pc + 4 <= DATA_START,
            op == old(self)@.mem[old(self)@.pc + 3],
            a == old(self)@.mem[old(self)@.pc + 2],
            b == old(self)@.mem[old(self)@.pc + 1],
            c == old(self)@.mem[old(self)@.pc],
            op == OP_NOP || op == OP_HALT || op == OP_MOV_RI || op == OP_MOV_RR || op == OP_PRINT,
        ensures
            final(self).wf(),
            (match r {
                StepResult::Continue => step_spec(old(self)@) == StepOut::Next(final(self)@),
                StepResult::Halted => step_spec(old(self)@) == StepOut::Halted(final(self)@),
                StepResult::Fault(e) => step_spec(old(self)@) == StepOut::Fault(final(self)@, e),
            }),
    {
        if op == OP_NOP {
            self.pc = self.pc + 4;
            StepResult::Continue
        } else if op == OP_HALT {
            self.pc = self.pc + 4;
            StepResult::Halted
        } else if op == OP_MOV_RI {
            if a >= 8 {
                return StepResult::Fault(VmError::IllegalInstruction { opcode: op });
            }
            self.pc = self.pc + 4;
            let v = sign_extend16(b, c);
            self.reg[a as usize] = v;
            StepResult::Continue
        } else if op == OP_MOV_RR {
            if a >= 8 || b >= 8 {
                return StepResult::Fault(VmError::IllegalInstruction { opcode: op });
            }
            self.pc = self.pc + 4;
            let v = self.reg[b as usize];
            self.reg[a as usize] = v;
            StepResult::Continue
        } else {
            if a >= 8 {
                return StepResult::Fault(VmError::IllegalInstruction { opcode: op });
            }
            self.pc = self.pc + 4;
            let v = self.reg[a as usize];
            self.output.push(v);
            StepResult::Continue
        }
    }

    #[verifier::spinoff_prover]
    fn step_arith(&mut self, op: u8, a: u8, b: u8, c: u8) -> (r: StepResult)
        requires
            old(self).wf(),
            old(self)@.pc + 4 <= DATA_START,
            op == old(self)@.mem[old(self)@.pc + 3],
            a == old(self)@.mem[old(self)@.pc + 2],
            b == old(self)@.mem[old(self)@.pc + 1],
            c == old(self)@.mem[old(self)@.pc],
            op == OP_ADD_RR || op == OP_ADD_RI || op == OP_SUB_RR || op == OP_SUB_RI || op
                == OP_MUL_RR || op == OP_MUL_RI,
        ensures
            final(self).wf(),
            (match r {
                StepResult::Continue => step_spec(old(self)@) == StepOut::Next(final(self)@),
                StepResult::Halted => step_spec(old(self)@) == StepOut::Halted(final(self)@),
                StepResult::Fault(e) => step_spec(old(self)@) == StepOut::Fault(final(self)@, e),
            }),
    {
        let uses_reg = op == OP_ADD_RR || op == OP_SUB_RR || op == OP_MUL_RR;
        if a >= 8 || (uses_reg && b >= 8) {
            return StepResult::Fault(VmError::IllegalInstruction { opcode: op });
        }
        self.pc = self.pc + 4;
        let x = self.reg[a as usize];
        let y = if uses_reg {
            self.reg[b as usize]
        } else {
            sign_extend16(b, c)
        };
        let res: i32;
        let ovf: bool;
        if op == OP_ADD_RR || op == OP_ADD_RI {
            res = x.wrapping_add(y);
            ovf = x.checked_add(y).is_none();
        } else if op == OP_SUB_RR || op == OP_SUB_RI {
            res = x.wrapping_sub(y);
            ovf = x.checked_sub(y).is_none();
        } else {
            res = x.wrapping_mul(y);
            ovf = x.checked_mul(y).is_none();
        }
        self.reg[a as usize] = res;
        self.flag = Flags { carry: ovf, zero: res == 0, ..self.flag };
        StepResult::Continue
    }

    #[verifier::spinoff_prover]
    fn step_cmp(&mut self, op: u8, a: u8, b: u8, c: u8) -> (r: StepResult)
        requires
            old(self).wf(),
            old(self)@.pc + 4 <= DATA_START,
            op == old(self)@.mem[old(self)@.pc + 3],
            a == old(self)@.mem[old(self)@.pc + 2],
            b == old(self)@.mem[old(self)@.pc + 1],
            c == old(self)@.mem[old(self)@.pc],
            op == OP_CMP_RR || op == OP_CMP_RI,
        ensures
            final(self).wf(),
            (match r {
                StepResult::Continue => step_spec(old(self)@) == StepOut::Next(final(self)@),
                StepResult::Halted => step_spec(old(self)@) == StepOut::Halted(final(self)@),
                StepResult::Fault(e) => step_spec(old(self)@) == StepOut::Fault(final(self)@, e),
            }),
    {
        if a >= 8 || (op == OP_CMP_RR && b >= 8) {
            return StepResult::Fault(VmError::IllegalInstruction { opcode: op });
        }
        self.pc = self.pc + 4;
        let x = self.reg[a as usize];
        let y = if op == OP_CMP_RR {
            self.reg[b as usize]
        } else {
            sign_extend16(b, c)
        };
        let d = x.wrapping_sub(y);
        self.flag = Flags { zero: d == 0, greater: d > 0, lesser: d < 0, carry: self.flag.carry };
        StepResult::Continue
    }

    #[verifier::spinoff_prover]
    fn step_jump(&mut self, op: u8, a: u8, b: u8, c: u8) -> (r: StepResult)
        requires
            old(self).wf(),
            old(self)@.pc + 4 <= DATA_START,
            op == old(self)@.mem[old(self)@.pc + 3],
            a == old(self)@.mem[old(self)@.pc + 2],
            b == old(self)@.mem[old(self)@.pc + 1],
            c == old(self)@.mem[old(self)@.pc],
            op == OP_JMPG || op == OP_JMPL || op == OP_JMPGE || op == OP_JMPLE || op == OP_JMPZ
                || op == OP_JMPNZ || op == OP_JMP,
        ensures
            final(self).wf(),
            (match r {
                StepResult::Continue => step_spec(old(self)@) == StepOut::Next(final(self)@),
                StepResult::Halted => step_spec(old(self)@) == StepOut::Halted(final(self)@),
                StepResult::Fault(e) => step_spec(old(self)@) == StepOut::Fault(final(self)@, e),
            }),
    {
        self.pc = self.pc + 4;
        let cond: bool = if op == OP_JMPG {
            self.flag.greater
        } else if op == OP_JMPL {
            self.flag.lesser
        } else if op == OP_JMPGE {
            self.flag.greater || self.flag.zero
        } else if op == OP_JMPLE {
            self.flag.lesser || self.flag.zero
        } else if op == OP_JMPZ {
            self.flag.zero
        } else if op == OP_JMPNZ {
            !self.flag.zero
        } else {
            true
        };
        if cond {
            self.pc = ((a as u32) * 0x1_0000 + (b as u32) * 0x100 + (c as u32)) * 4;
        }
        StepResult::Continue
    }

    #[verifier::spinoff_prover]
    fn step_divmod(&mut self, op: u8, a: u8, b: u8, c: u8) -> (r: StepResult)
        requires
            old(self).wf(),
            old(self)@.pc + 4 <= DATA_START,
            op == old(self)@.mem[old(self)@.pc + 3],
            a == old(self)@.mem[old(self)@.pc + 2],
            b == old(self)@.mem[old(self)@.pc + 1],
            c == old(self)@.mem[old(self)@.pc],
            op == OP_DIV_RR || op == OP_DIV_RI || op == OP_MOD_RR || op == OP_MOD_RI,
        ensures
            final(self).wf(),
            (match r {
                StepResult::Continue => step_spec(old(self)@) == StepOut::Next(final(self)@),
                StepResult::Halted => step_spec(old(self)@) == StepOut::Halted(final(self)@),
                StepResult::Fault(e) => step_spec(old(self)@) == StepOut::Fault(final(self)@, e),
            }),
    {
        if op == OP_DIV_RR || op == OP_DIV_RI {
            if a >= 8 || (op == OP_DIV_RR && b >= 8) {
                return StepResult::Fault(VmError::IllegalInstruction { opcode: op });
            }
            self.pc = self.pc + 4;
            let d = if op == OP_DIV_RR {
                self.reg[b as usize]
            } else {
                sign_extend16(b, c)
            };
            if d == 0 {
                self.flag = Flags { zero: false, ..self.flag };
                return StepResult::Fault(VmError::DivideByZero);
            }
            let q = div_i32(self.reg[a as usize], d);
            self.reg[a as usize] = q;
            self.flag = Flags { zero: q == 0, ..self.flag };
            StepResult::Continue
        } else if op == OP_MOD_RR {
            if a >= 8 || b >= 8 {
                return StepResult::Fault(VmError::IllegalInstruction { opcode: op });
            }
            self.pc = self.pc + 4;
            let d = self.reg[b as usize];
            if d == 0 {
                self.flag = Flags { zero: false, carry: false, ..self.flag };
                return StepResult::Fault(VmError::DivideByZero);
            }
            let q = rem_i32(self.reg[a as usize], d);
            self.reg[a as usize] = q;
            self.flag = Flags { zero: q == 0, carry: false, ..self.flag };
            StepResult::Continue
        } else {
            if a >= 8 {
                return StepResult::Fault(VmError::IllegalInstruction { opcode: op });
            }
            self.pc = self.pc + 4;
            let d = sign_extend16(b, c);
            if d == 0 {
                self.flag = Flags { zero: false, ..self.flag };
                return StepResult::Fault(VmError::DivideByZero);
            }
            let q = rem_i32(self.reg[a as usize], d);
            self.reg[a as usize] = q;
            self.flag = Flags { zero: q == 0, ..self.flag };
            StepResult::Continue
        }
    }

    #[verifier::spinoff_prover]
    fn step_stack(&mut self, op: u8, a: u8, b: u8, c: u8) -> (r: StepResult)
        requires
            old(self).wf(),
            old(self)@.pc + 4 <= DATA_START,
            op == old(self)@.mem[old(self)@.pc + 3],
            a == old(self)@.mem[old(self)@.pc + 2],
            b == old(self)@.mem[old(self)@.pc + 1],
            c == old(self)@.mem[old(self)@.pc],
            op == OP_CALL || op == OP_RET || op == OP_PUSH_I || op == OP_POP || op == OP_PUSH_R,
        ensures
            final(self).wf(),
            (match r {
                StepResult::Continue => step_spec(old(self)@) == StepOut::Next(final(self)@),
                StepResult::Halted => step_spec(old(self)@) == StepOut::Halted(final(self)@),
                StepResult::Fault(e) => step_spec(old(self)@) == StepOut::Fault(final(self)@, e),
            }),
    {
        if op == OP_CALL {
            if self.sp < STACK_END + 4 {
                return StepResult::Fault(VmError::StackOverflow);
            }
            self.pc = self.pc + 4;
            let ret = self.pc as i32;
            match self.push(ret) {
                Ok(u) => {},
                Err(_) => {
                    proof {
                        assert(false);
                    }
                },
            }
            self.pc = ((a as u32) * 0x1_0000 + (b as u32) * 0x100 + (c as u32)) * 4;
            StepResult::Continue
        } else if op == OP_RET {
            if self.sp >= STACK_START {
                return StepResult::Fault(VmError::StackUnderflow);
            }
            self.pc = self.pc + 4;
            match self.pop() {
                Ok(v) => {
                    self.pc = u32_of_i32(v);
                    StepResult::Continue
                },
                Err(e) => {
                    proof {
                        assert(false);
                    }
                    StepResult::Fault(e)
                },
            }
        } else if op == OP_PUSH_I {
            if self.sp < STACK_END + 4 {
                return StepResult::Fault(VmError::StackOverflow);
            }
            self.pc = self.pc + 4;
            let v = sign_extend24(a, b, c);
            match self.push(v) {
                Ok(u) => {},
                Err(_) => {
                    proof {
                        assert(false);
                    }
                },
            }
            StepResult::Continue
        } else if op == OP_POP {
            if a >= 8 {
                return StepResult::Fault(VmError::IllegalInstruction { opcode: op });
            }
            if self.sp >= STACK_START {
                return StepResult::Fault(VmError::StackUnderflow);
            }
            self.pc = self.pc + 4;
            match self.pop() {
                Ok(v) => {
                    self.reg[a as usize] = v;
                    StepResult::Continue
                },
                Err(e) => {
                    proof {
                        assert(false);
                    }
                    StepResult::Fault(e)
                },
            }
        } else {
            if a >= 8 {
                return StepResult::Fault(VmError::IllegalInstruction { opcode: op });
            }
            if self.sp < STACK_END + 4 {
                return StepResult::Fault(VmError::StackOverflow);
            }
            self.pc = self.pc + 4;
            let v = self.reg[a as usize];
            match self.push(v) {
                Ok(u) => {},
                Err(_) => {
                    proof {
                        assert(false);
                    }
                },
            }
            StepResult::Continue
        }
    }

    #[verifier::spinoff_prover]
    fn step_bit(&mut self, op: u8, a: u8, b: u8, c: u8) -> (r: StepResult)
        requires
            old(self).wf(),
            old(self)@.pc + 4 <= DATA_START,
            op == old(self)@.mem[old(self)@.pc + 3],
            a == old(self)@.mem[old(self)@.pc + 2],
            b == old(self)@.mem[old(self)@.pc + 1],
            c == old(self)@.mem[old(self)@.pc],
            op == OP_AND_RR || op == OP_AND_RI || op == OP_OR_RR || op == OP_OR_RI || op
                == OP_XOR_RR || op == OP_XOR_RI || op == OP_NOT,
        ensures
            final(self).wf(),
            (match r {
                StepResult::Continue => step_spec(old(self)@) == StepOut::Next(final(self)@),
                StepResult::Halted => step_spec(old(self)@) == StepOut::Halted(final(self)@),
                StepResult::Fault(e) => step_spec(old(self)@) == StepOut::Fault(final(self)@, e),
            }),
    {
        if op == OP_NOT {
            if a >= 8 {
                return StepResult::Fault(VmError::IllegalInstruction { opcode: op });
            }
            self.pc = self.pc + 4;
            let res = not_i32(self.reg[a as usize]);
            self.reg[a as usize] = res;
            self.flag = Flags { zero: res == 0, ..self.flag };
            return StepResult::Continue;
        }
        let uses_reg = op == OP_AND_RR || op == OP_OR_RR || op == OP_XOR_RR;
        if a >= 8 || (uses_reg && b >= 8) {
            return StepResult::Fault(VmError::IllegalInstruction { opcode: op });
        }
        self.pc = self.pc + 4;
        let x = self.reg[a as usize];
        let y = if uses_reg {
            self.reg[b as usize]
        } else {
            sign_extend16(b, c)
        };
        let res: i32 = if op == OP_AND_RR || op == OP_AND_RI {
            x & y
        } else if op == OP_OR_RR || op == OP_OR_RI {
            x | y
        } else {
            x ^ y
        };
        self.reg[a as usize] = res;
        self.flag = Flags { zero: res == 0, ..self.flag };
        StepResult::Continue
    }

    #[verifier::spinoff_prover]
    fn step_data(&mut self, op: u8, a: u8, b: u8, c: u8) -> (r: StepResult)
        requires
            old(self).wf(),
            old(self)@.pc + 4 <= DATA_START,
            op == old(self)@.mem[old(self)@.pc + 3],
            a == old(self)@.mem[old(self)@.pc + 2],
            b == old(self)@.mem[old(self)@.pc + 1],
            c == old(self)@.mem[old(self)@.pc],
            op == OP_LOAD_DATA || op == OP_CMP_DATA,
        ensures
            final(self).wf(),
            (match r {
                StepResult::Continue => step_spec(old(self)@) == StepOut::Next(final(self)@),
                StepResult::Halted => step_spec(old(self)@) == StepOut::Halted(final(self)@),
                StepResult::Fault(e) => step_spec(old(self)@) == StepOut::Fault(final(self)@, e),
            }),
    {
        if a >= 8 {
            return StepResult::Fault(VmError::IllegalInstruction { opcode: op });
        }
        let off = DATA_START + (b as usize) * 0x100 + (c as usize);
        if off >= BSS_START {
            return StepResult::Fault(
                VmError::MemoryOutOfBounds { region: Region::Data, offset: off },
            );
        }
        self.pc = self.pc + 4;
        if op == OP_LOAD_DATA {
            let v = sign_extend8(self.memory[off]);
            self.reg[a as usize] = v;
            StepResult::Continue
        } else {
            let x = self.reg[a as usize];
            let y = sign_extend8(self.memory[off]);
            let d = x.wrapping_sub(y);
            self.flag = Flags { zero: d == 0, greater: d > 0, lesser: d < 0, carry: self.flag.carry };
            StepResult::Continue
        }
    }

    /// One fetch-decode-execute step, following `step_spec` exactly.
    #[verifier::spinoff_prover]
    pub fn step(&mut self) -> (r: StepResult)
        requires
            old(self).wf(),
        ensures
            final(self).wf(),
            (match r {
                StepResult::Continue => step_spec(old(self)@) == StepOut::Next(final(self)@),
                StepResult::Halted => step_spec(old(self)@) == StepOut::Halted(final(self)@),
                StepResult::Fault(e) => step_spec(old(self)@) == StepOut::Fault(final(self)@, e),
            }),
    {
        if (self.pc as u64) + 4 > (DATA_START as u64) {
            return StepResult::Fault(
                VmError::MemoryOutOfBounds { region: Region::Code, offset: self.pc as usize },
            );
        }
        let base = self.pc as usize;
        let op = self.memory[base + 3];
        let a = self.memory[base + 2];
        let b = self.memory[base + 1];
        let c = self.memory[base];
        if op == OP_NOP || op == OP_HALT || op == OP_MOV_RI || op == OP_MOV_RR || op == OP_PRINT {
            self.step_basic(op, a, b, c)
        } else if op == OP_ADD_RR || op == OP_ADD_RI || op == OP_SUB_RR || op == OP_SUB_RI || op
            == OP_MUL_RR || op == OP_MUL_RI {
            self.step_arith(op, a, b, c)
        } else if op == OP_CMP_RR || op == OP_CMP_RI {
            self.step_cmp(op, a, b, c)
        } else if op == OP_JMPG || op == OP_JMPL || op == OP_JMPGE || op == OP_JMPLE || op
            == OP_JMPZ || op == OP_JMPNZ || op == OP_JMP {
            self.step_jump(op, a, b, c)
        } else if op == OP_DIV_RR || op == OP_DIV_RI || op == OP_MOD_RR || op == OP_MOD_RI {
            self.step_divmod(op, a, b, c)
        } else if op == OP_CALL || op == OP_RET || op == OP_PUSH_I || op == OP_POP || op
            == OP_PUSH_R {
            self.step_stack(op, a, b, c)
        } else if op == OP_AND_RR || op == OP_AND_RI || op == OP_OR_RR || op == OP_OR_RI || op
            == OP_XOR_RR || op == OP_XOR_RI || op == OP_NOT {
            self.step_bit(op, a, b, c)
        } else if op == OP_LOAD_DATA || op == OP_CMP_DATA {
            self.step_data(op, a, b, c)
        } else {
            StepResult::Fault(VmError::IllegalInstruction { opcode: op })
        }
    }
}


/// How a bounded execution ended: the program halted, or the step
/// budget ran out first.
#[derive(Debug, Clone, Copy, PartialEq, Eq, Structural)]
pub enum Outcome {
    Halted,
    StepLimit,
}

impl VM {
    /// Runs the fetch-decode-execute loop until a halt instruction, a
    /// fault, or `max_steps` steps. The machine ends exactly where some
    /// `run` of at most `max_steps` transitions says: halted there,
    /// faulted there with the reported error, or still running after
    /// the full budget. The budget is a safety bound of this interface,
    /// not part of the instruction set: a program that never halts nor
    /// faults runs until the budget ends.
    pub fn execute(&mut self, max_steps: u64) -> (r: Result<Outcome, VmError>)
        requires
            old(self).wf(),
        ensures
            final(self).wf(),
            exists|n: int|
                0 <= n <= max_steps && (#[trigger] run(old(self)@, n as nat)) == (match r {
                    Ok(Outcome::Halted) => StepOut::Halted(final(self)@),
                    Ok(Outcome::StepLimit) => StepOut::Next(final(self)@),
                    Err(e) => StepOut::Fault(final(self)@, e),
                }) && (r == Ok::<Outcome, VmError>(Outcome::StepLimit) ==> n == max_steps),
    {
        let ghost s0 = self@;
        let mut i: u64 = 0;
        while i < max_steps
            invariant
                s0 == old(self)@,
                self.wf(),
                i <= max_steps,
                run(s0, i as nat) == StepOut::Next(self@),
            decreases max_steps - i,
        {
            proof {
                lemma_run_extend(s0, i as nat);
            }
            match self.step() {
                StepResult::Continue => {},
                StepResult::Halted => {
                    proof {
                        assert(run(s0, (i + 1) as nat) == StepOut::Halted(self@));
                    }
                    return Ok(Outcome::Halted);
                },
                StepResult::Fault(e) => {
                    proof {
                        assert(run(s0, (i + 1) as nat) == StepOut::Fault(self@, e));
                    }
                    return Err(e);
                },
            }
            i = i + 1;
        }
        proof {
            let w: int = max_steps as int;
            assert(run(old(self)@, w as nat) == StepOut::Next(self@));
            assert(exists|n: int|
                0 <= n <= max_steps && (#[trigger] run(old(self)@, n as nat)) == StepOut::Next(
                    self@,
                ) && n == max_steps);
        }
        Ok(Outcome::StepLimit)
    }
}

// Laws of the machine, stated against the step semantics.

/// Signed addition and subtraction wrap on overflow; the carry flag is
/// set exactly when two's-complement overflow occurred, and the zero
/// flag exactly when the wrapped result is zero. Stated here for an
/// add or sub instruction with either operand form.
pub proof fn lemma_add_sub_wrap_and_flags(s: VmView, x: i32, y: i32)
    requires
        wf_view(s),
        s.pc + 4 <= DATA_START,
        s.mem[s.pc + 2] < 8,
        x == s.regs[s.mem[s.pc + 2] as int],
        ({
            let op = s.mem[s.pc + 3];
            let b = s.mem[s.pc + 1];
            ||| (op == OP_ADD_RR || op == OP_SUB_RR) && b < 8 && y == s.regs[b as int]
            ||| (op == OP_ADD_RI || op == OP_SUB_RI) && y == sign_ext16(b, s.mem[s.pc])
        }),
    ensures
        step_spec(s) matches StepOut::Next(s1) && {
            let adds = s.mem[s.pc + 3] == OP_ADD_RR || s.mem[s.pc + 3] == OP_ADD_RI;
            let exact: int = if adds {
                x + y
            } else {
                x - y
            };
            let res = s1.regs[s.mem[s.pc + 2] as int];
            &&& res == (if exact > i32::MAX {
                exact - 0x1_0000_0000
            } else if exact < i32::MIN {
                exact + 0x1_0000_0000
            } else {
                exact
            })
            &&& s1.flag.carry == (exact > i32::MAX || exact < i32::MIN)
            &&& s1.flag.zero == (res == 0)
        },
{
}

/// A push followed by a pop with no stack operation between them hands
/// the pushed value back and restores the stack pointer: the stack is
/// last-in-first-out exact. `v` is the pushed value: the sign-extended
/// 24-bit immediate of a push-immediate, or the source register's value
/// of a push-register.
pub proof fn lemma_push_pop_lifo(s: VmView, v: i32)
    requires
        wf_view(s),
        can_push(s),
        s.pc + 8 <= DATA_START,
        ({
            let op = s.mem[s.pc + 3];
            let a = s.mem[s.pc + 2];
            ||| op == OP_PUSH_I && v == sign_ext24(a, s.mem[s.pc + 1], s.mem[s.pc])
            ||| op == OP_PUSH_R && a < 8 && v == s.regs[a as int]
        }),
        s.mem[s.pc + 7] == OP_POP,
        s.mem[s.pc + 6] < 8,
    ensures
        step_spec(s) matches StepOut::Next(s1) && step_spec(s1) matches StepOut::Next(s2) && {
            &&& s2.regs[s.mem[s.pc + 6] as int] == v
            &&& s2.sp == s.sp
            &&& s2.pc == s.pc + 8
        },
{
    let t = VmView { pc: s.pc + 4, ..s };
    lemma_push_then_pop(t, v);
    let s1 = push_spec(t, v);
    assert(s1.mem[s.pc + 7] == OP_POP);
    assert(s1.mem[s.pc + 6] == s.mem[s.pc + 6]);
    assert(s1.mem[s.pc + 5] == s.mem[s.pc + 5]);
    assert(s1.mem[s.pc + 4] == s.mem[s.pc + 4]);
}

/// A call pushes the address of the instruction after it and jumps to
/// the target statement's byte address, the stored statement index
/// times four.
pub proof fn lemma_call_pushes_return(s: VmView)
    requires
        wf_view(s),
        s.pc + 4 <= DATA_START,
        s.mem[s.pc + 3] == OP_CALL,
        can_push(s),
    ensures
        step_spec(s) matches StepOut::Next(s1) && {
            &&& s1.pc == 4 * addr24_val(s.mem[s.pc + 2], s.mem[s.pc + 1], s.mem[s.pc])
            &&& s1.sp == s.sp - 4
            &&& pop_val(s1) == (s.pc + 4) as i32
        },
{
    let t = VmView { pc: s.pc + 4, ..s };
    lemma_push_then_pop(t, (s.pc + 4) as i32);
}

/// A ret pops the return address into the program counter.
pub proof fn lemma_ret_returns(m: VmView)
    requires
        wf_view(m),
        m.pc + 4 <= DATA_START,
        m.mem[m.pc + 3] == OP_RET,
        m.sp < STACK_START,
    ensures
        step_spec(m) matches StepOut::Next(m2) && {
            &&& m2.pc == i32_as_u32(pop_val(m)) as int
            &&& m2.sp == m.sp + 4
        },
{
}

/// A call, then any execution that preserves the return cell and the
/// stack level, then a ret: execution resumes at the instruction
/// immediately following the call.
pub proof fn lemma_call_ret_resumes(s: VmView, m: VmView)
    requires
        wf_view(s),
        s.pc + 4 <= DATA_START,
        s.mem[s.pc + 3] == OP_CALL,
        can_push(s),
        wf_view(m),
        m.pc + 4 <= DATA_START,
        m.mem[m.pc + 3] == OP_RET,
        m.sp == s.sp - 4,
        // the return cell written by the call is still intact
        m.mem[m.sp] == push_spec(VmView { pc: s.pc + 4, ..s }, (s.pc + 4) as i32).mem[m.sp],
        m.mem[m.sp + 1] == push_spec(VmView { pc: s.pc + 4, ..s }, (s.pc + 4) as i32).mem[m.sp
            + 1],
        m.mem[m.sp + 2] == push_spec(VmView { pc: s.pc + 4, ..s }, (s.pc + 4) as i32).mem[m.sp
            + 2],
        m.mem[m.sp + 3] == push_spec(VmView { pc: s.pc + 4, ..s }, (s.pc + 4) as i32).mem[m.sp
            + 3],
    ensures
        step_spec(m) matches StepOut::Next(m2) && m2.pc == s.pc + 4,
{
    let t = VmView { pc: s.pc + 4, ..s };
    let s1 = push_spec(t, (s.pc + 4) as i32);
    lemma_push_then_pop(t, (s.pc + 4) as i32);
    assert(pop_val(m) == pop_val(s1));
    lemma_ret_returns(m);
}

} // verus!
