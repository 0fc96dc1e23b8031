//! The virtual machine: a fixed bank of 32 signed 32-bit registers, a program
//! counter, a byte program, and a remainder register written by division.
//!
//! The whole semantics of one execution step is the spec function [`step`]:
//! `execute_instruction` is proved to perform exactly that step, and `run` to
//! iterate it until a stopping outcome.

use vstd::prelude::*;
use vstd::arithmetic::div_mod::lemma_div_is_ordered;
use vstd::arithmetic::div_mod::lemma_div_is_ordered_by_denominator;
use vstd::arithmetic::div_mod::lemma_div_nonincreasing;
use vstd::arithmetic::div_mod::lemma_div_of0;
use vstd::arithmetic::div_mod::lemma_div_pos_is_pos;
use vstd::arithmetic::div_mod::lemma_mod_division_less_than_divisor;

use crate::instructions::Opcode;
use crate::instructions::opcode_of;

verus! {

/// Why a single execution step stopped — or `Continue` when it did not.
///
/// `Halted`, `Unrecognized` and `EndOfProgram` are ordinary stop signals;
/// `Overrun`, `RegisterOutOfRange` and `ArithmeticFault` are abnormal faults.
/// A fault applies no register mutation and leaves the program counter just
/// past the opcode byte of the faulting instruction.
#[derive(Debug, PartialEq, Eq, Structural, Clone, Copy)]
pub enum StepOutcome {
    /// The instruction completed; execution may continue.
    Continue,
    /// A halt instruction was executed.
    Halted,
    /// The opcode byte does not name any operation.
    Unrecognized,
    /// The program counter stood at or past the end of the program.
    EndOfProgram,
    /// An operand byte would lie past the end of the program.
    Overrun,
    /// An operand byte names a register outside the range of the file.
    RegisterOutOfRange,
    /// Division by zero, or a quotient that no register can hold.
    ArithmeticFault,
}

impl StepOutcome {
    /// Whether this outcome stops a run.
    pub open spec fn is_stop(self) -> bool {
        self != StepOutcome::Continue
    }
}

/// The mathematical state of a machine: everything a step reads or writes.
pub struct VmState {
    pub registers: Seq<i32>,
    pub pc: nat,
    pub program: Seq<u8>,
    pub remainder: u32,
}

/// How many registers every machine has.
pub open spec fn reg_count() -> int {
    32
}

/// A well-formed machine state: the register file has its fixed size.
pub open spec fn vm_wf(s: VmState) -> bool {
    s.registers.len() == reg_count()
}

/// One more than the largest value the program counter can hold.
pub open spec fn pc_modulus() -> int {
    usize::MAX as int + 1
}

/// The program-counter value that a register's signed value converts to:
/// its two's-complement reading as an unsigned machine word.
pub open spec fn reg_as_pc(v: i32) -> nat {
    if v >= 0 {
        v as nat
    } else {
        (v + pc_modulus()) as nat
    }
}

/// `x` brought back into the program counter's range by one wrap-around,
/// for `-pc_modulus() < x < 2 * pc_modulus()`.
pub open spec fn wrap_pc(x: int) -> nat {
    if x >= pc_modulus() {
        (x - pc_modulus()) as nat
    } else if x < 0 {
        (x + pc_modulus()) as nat
    } else {
        x as nat
    }
}

/// The 16-bit immediate value built from two bytes, high byte first.
pub open spec fn imm_value(hi: u8, lo: u8) -> i32 {
    (hi as int * 256 + lo as int) as i32
}

/// The truncating quotient of two registers, as Rust's `/` computes it.
pub open spec fn trunc_div(a: i32, b: i32) -> int
    recommends
        b != 0,
{
    let x = a as int;
    let d = b as int;
    if x >= 0 && d > 0 {
        x / d
    } else if x < 0 && d < 0 {
        (x * -1) / (d * -1)
    } else if x < 0 {
        ((x * -1) / d) * -1
    } else {
        (x / (d * -1)) * -1
    }
}

/// The truncating remainder of two registers, as Rust's `%` computes it.
pub open spec fn trunc_rem(a: i32, b: i32) -> int
    recommends
        b != 0,
{
    let x = a as int;
    let d = b as int;
    if x >= 0 && d > 0 {
        x % d
    } else if x < 0 && d < 0 {
        ((x * -1) % (d * -1)) * -1
    } else if x < 0 {
        ((x * -1) % d) * -1
    } else {
        x % (d * -1)
    }
}

/// The remainder register's reading of a truncating remainder: its
/// two's-complement image as an unsigned 32-bit word.
pub open spec fn rem_as_u32(r: int) -> u32
    recommends
        -0x8000_0000 < r < 0x8000_0000,
{
    if r >= 0 {
        r as u32
    } else {
        (r + 0x1_0000_0000) as u32
    }
}

/// The quotient and remainder of a division that is not the arithmetic
/// fault fit in a register: the quotient's magnitude never exceeds the
/// dividend's, and the remainder's is below the divisor's.
pub proof fn lemma_div_fits(a: i32, b: i32)
    requires
        b != 0,
        !(a == i32::MIN && b == -1),
    ensures
        i32::MIN <= trunc_div(a, b) <= i32::MAX,
        -0x8000_0000 < trunc_rem(a, b) < 0x8000_0000,
{
    let x = a as int;
    let d = b as int;
    if x >= 0 && d > 0 {
        lemma_div_pos_is_pos(x, d);
        lemma_div_nonincreasing(x, d);
        lemma_mod_division_less_than_divisor(x, d);
    } else if x < 0 && d < 0 {
        lemma_div_pos_is_pos(x * -1, d * -1);
        lemma_mod_division_less_than_divisor(x * -1, d * -1);
        if d == -1 {
            lemma_div_nonincreasing(x * -1, 1);
        } else {
            lemma_div_is_ordered_by_denominator(x * -1, 2, d * -1);
            lemma_div_is_ordered(x * -1, 0x8000_0000, 2);
        }
    } else if x < 0 {
        lemma_div_pos_is_pos(x * -1, d);
        lemma_div_nonincreasing(x * -1, d);
        lemma_mod_division_less_than_divisor(x * -1, d);
    } else {
        lemma_div_pos_is_pos(x, d * -1);
        lemma_div_nonincreasing(x, d * -1);
        lemma_mod_division_less_than_divisor(x, d * -1);
    }
}

/// What Rust's checked division and remainder return is exactly the
/// truncating quotient and remainder, whenever they do not overflow.
pub proof fn lemma_checked_div_rem(a: i32, b: i32)
    requires
        b != 0,
        !(a == i32::MIN && b == -1),
    ensures
        a.checked_div(b) == Some(trunc_div(a, b) as i32),
        a.checked_rem(b) == Some(trunc_rem(a, b) as i32),
{
    lemma_div_fits(a, b);
    if a == 0 {
        lemma_div_of0(if b > 0 { b as int } else { b as int * -1 });
        vstd::arithmetic::div_mod::lemma_small_mod(0nat, (if b > 0 { b as int } else { b as int * -1 }) as nat);
    }
}

/// The step of a load instruction, given the state just past the opcode byte.
pub open spec fn step_load(t: VmState) -> (VmState, StepOutcome) {
    if t.pc + 3 > t.program.len() {
        (t, StepOutcome::Overrun)
    } else {
        let d = t.program[t.pc as int];
        let hi = t.program[t.pc as int + 1];
        let lo = t.program[t.pc as int + 2];
        if d >= reg_count() {
            (t, StepOutcome::RegisterOutOfRange)
        } else {
            (
                VmState {
                    registers: t.registers.update(d as int, imm_value(hi, lo)),
                    pc: (t.pc + 3) as nat,
                    ..t
                },
                StepOutcome::Continue,
            )
        }
    }
}

/// The value an arithmetic instruction writes: the wrapped sum, difference or
/// product of its sources. Division is separate ([`step_div`]).
pub open spec fn arith_result(op: Opcode, a: i32, b: i32) -> i32
    recommends
        op == Opcode::ADD || op == Opcode::SUB || op == Opcode::MUL,
{
    match op {
        Opcode::ADD => vstd::wrapping::i32_specs::wrapping_add(a, b),
        Opcode::SUB => vstd::wrapping::i32_specs::wrapping_sub(a, b),
        _ => vstd::wrapping::i32_specs::wrapping_mul(a, b),
    }
}

/// The step of an add, subtract or multiply instruction, given the state just
/// past the opcode byte.
pub open spec fn step_arith(t: VmState, op: Opcode) -> (VmState, StepOutcome) {
    if t.pc + 3 > t.program.len() {
        (t, StepOutcome::Overrun)
    } else {
        let i1 = t.program[t.pc as int];
        let i2 = t.program[t.pc as int + 1];
        let i3 = t.program[t.pc as int + 2];
        if i1 >= reg_count() || i2 >= reg_count() || i3 >= reg_count() {
            (t, StepOutcome::RegisterOutOfRange)
        } else {
            let a = t.registers[i1 as int];
            let b = t.registers[i2 as int];
            (
                VmState {
                    registers: t.registers.update(i3 as int, arith_result(op, a, b)),
                    pc: (t.pc + 3) as nat,
                    ..t
                },
                StepOutcome::Continue,
            )
        }
    }
}

/// The step of a divide instruction, given the state just past the opcode
/// byte. A divisor of zero, or the one quotient that overflows a register
/// (`i32::MIN / -1`), is the arithmetic fault.
pub open spec fn step_div(t: VmState) -> (VmState, StepOutcome) {
    if t.pc + 3 > t.program.len() {
        (t, StepOutcome::Overrun)
    } else {
        let i1 = t.program[t.pc as int];
        let i2 = t.program[t.pc as int + 1];
        let i3 = t.program[t.pc as int + 2];
        if i1 >= reg_count() || i2 >= reg_count() || i3 >= reg_count() {
            (t, StepOutcome::RegisterOutOfRange)
        } else {
            let a = t.registers[i1 as int];
            let b = t.registers[i2 as int];
            if b == 0 || (a == i32::MIN && b == -1) {
                (t, StepOutcome::ArithmeticFault)
            } else {
                (
                    VmState {
                        registers: t.registers.update(i3 as int, trunc_div(a, b) as i32),
                        pc: (t.pc + 3) as nat,
                        remainder: rem_as_u32(trunc_rem(a, b)),
                        ..t
                    },
                    StepOutcome::Continue,
                )
            }
        }
    }
}

/// Whether a comparison opcode holds of two register values.
pub open spec fn cmp_holds(op: Opcode, a: i32, b: i32) -> bool
    recommends
        op == Opcode::EQ || op == Opcode::GT || op == Opcode::LT || op == Opcode::GQT
            || op == Opcode::LQT,
{
    match op {
        Opcode::EQ => a == b,
        Opcode::GT => a > b,
        Opcode::LT => a < b,
        Opcode::GQT => a >= b,
        _ => a <= b,
    }
}

/// The step of a comparison instruction, given the state just past the opcode
/// byte: the destination register receives 1 when the comparison holds, 0
/// otherwise.
pub open spec fn step_cmp(t: VmState, op: Opcode) -> (VmState, StepOutcome) {
    if t.pc + 3 > t.program.len() {
        (t, StepOutcome::Overrun)
    } else {
        let i1 = t.program[t.pc as int];
        let i2 = t.program[t.pc as int + 1];
        let i3 = t.program[t.pc as int + 2];
        if i1 >= reg_count() || i2 >= reg_count() || i3 >= reg_count() {
            (t, StepOutcome::RegisterOutOfRange)
        } else {
            let a = t.registers[i1 as int];
            let b = t.registers[i2 as int];
            let v: i32 = if cmp_holds(op, a, b) {
                1
            } else {
                0
            };
            (
                VmState {
                    registers: t.registers.update(i3 as int, v),
                    pc: (t.pc + 3) as nat,
                    ..t
                },
                StepOutcome::Continue,
            )
        }
    }
}

/// The step of an absolute jump, given the state just past the opcode byte:
/// the program counter becomes the target register's value.
pub open spec fn step_jmp(t: VmState) -> (VmState, StepOutcome) {
    if t.pc + 1 > t.program.len() {
        (t, StepOutcome::Overrun)
    } else {
        let i = t.program[t.pc as int];
        if i >= reg_count() {
            (t, StepOutcome::RegisterOutOfRange)
        } else {
            (
                VmState { pc: reg_as_pc(t.registers[i as int]), ..t },
                StepOutcome::Continue,
            )
        }
    }
}

/// The step of a relative jump, given the state just past the opcode byte:
/// the offset register's value is added to (or subtracted from) the program
/// counter as it stands after the operand byte, wrapping as the machine word
/// does.
pub open spec fn step_jmp_rel(t: VmState, forward: bool) -> (VmState, StepOutcome) {
    if t.pc + 1 > t.program.len() {
        (t, StepOutcome::Overrun)
    } else {
        let i = t.program[t.pc as int];
        if i >= reg_count() {
            (t, StepOutcome::RegisterOutOfRange)
        } else {
            let off = reg_as_pc(t.registers[i as int]);
            let base = t.pc + 1;
            let target = if forward {
                wrap_pc(base as int + off)
            } else {
                wrap_pc(base as int - off)
            };
            (VmState { pc: target, ..t }, StepOutcome::Continue)
        }
    }
}

/// The step of a conditional jump, given the state just past the opcode byte.
/// When the condition register holds `want` the program counter becomes the
/// target register's value and the trailing padding byte is left unread;
/// otherwise the padding byte is consumed, so the instruction fills a uniform
/// four-byte slot.
pub open spec fn step_cond_jmp(t: VmState, want: i32) -> (VmState, StepOutcome) {
    if t.pc + 2 > t.program.len() {
        (t, StepOutcome::Overrun)
    } else {
        let ci = t.program[t.pc as int];
        let ji = t.program[t.pc as int + 1];
        if ci >= reg_count() || ji >= reg_count() {
            (t, StepOutcome::RegisterOutOfRange)
        } else {
            if t.registers[ci as int] == want {
                (
                    VmState { pc: reg_as_pc(t.registers[ji as int]), ..t },
                    StepOutcome::Continue,
                )
            } else {
                if t.pc + 3 > t.program.len() {
                    (t, StepOutcome::Overrun)
                } else {
                    (VmState { pc: (t.pc + 3) as nat, ..t }, StepOutcome::Continue)
                }
            }
        }
    }
}

/// One full execution step: decode the byte at the program counter and apply
/// the operation it names. Total: every state steps to exactly one successor
/// state and outcome.
pub open spec fn step(s: VmState) -> (VmState, StepOutcome) {
    if s.pc >= s.program.len() {
        (s, StepOutcome::EndOfProgram)
    } else {
        let op = opcode_of(s.program[s.pc as int]);
        let t = VmState { pc: (s.pc + 1) as nat, ..s };
        match op {
            Opcode::HLT => (t, StepOutcome::Halted),
            Opcode::LOAD => step_load(t),
            Opcode::ADD => step_arith(t, op),
            Opcode::SUB => step_arith(t, op),
            Opcode::MUL => step_arith(t, op),
            Opcode::DIV => step_div(t),
            Opcode::EQ => step_cmp(t, op),
            Opcode::GT => step_cmp(t, op),
            Opcode::LT => step_cmp(t, op),
            Opcode::GQT => step_cmp(t, op),
            Opcode::LQT => step_cmp(t, op),
            Opcode::JMP => step_jmp(t),
            Opcode::JMPF => step_jmp_rel(t, true),
            Opcode::JMPB => step_jmp_rel(t, false),
            Opcode::JEQ => step_cond_jmp(t, 1),
            Opcode::JNEQ => step_cond_jmp(t, 0),
            _ => (t, StepOutcome::Unrecognized),
        }
    }
}

/// The state after `n` execution steps.
pub open spec fn run_n(s: VmState, n: nat) -> VmState
    decreases n,
{
    if n == 0 {
        s
    } else {
        step(run_n(s, (n - 1) as nat)).0
    }
}

/// A completed run: from `s0`, the first `n` steps continue, the step after
/// them stops with outcome `r`, and `s1` is the state that stopping step
/// leaves behind.
pub open spec fn runs_to(s0: VmState, s1: VmState, n: nat, r: StepOutcome) -> bool {
    &&& forall|i: nat| i < n ==> (#[trigger] step(run_n(s0, i))).1 == StepOutcome::Continue
    &&& step(run_n(s0, n)).1 == r
    &&& r != StepOutcome::Continue
    &&& s1 == run_n(s0, (n + 1) as nat)
}

/// Whether the step taken after `n` steps from `s` signals a stop.
pub open spec fn stops_within(s: VmState, n: nat) -> bool {
    step(run_n(s, n)).1 != StepOutcome::Continue
}

/// Whether a run from `s` ever stops. A program that keeps jumping backward
/// never does.
pub open spec fn terminates(s: VmState) -> bool {
    exists|n: nat| stops_within(s, n)
}

/// `n` is the number of continuing steps a run from `s` takes before the
/// stopping one.
pub open spec fn is_min_stop(s: VmState, n: nat) -> bool {
    stops_within(s, n) && (forall|i: nat| i < n ==> !(#[trigger] stops_within(s, i)))
}

/// Every terminating run has a first stopping step.
pub proof fn lemma_min_stop_below(s: VmState, w: nat)
    requires
        stops_within(s, w),
    ensures
        exists|n: nat| #[trigger] is_min_stop(s, n),
    decreases w,
{
    if forall|i: nat| i < w ==> !(#[trigger] stops_within(s, i)) {
        assert(is_min_stop(s, w));
    } else {
        let i = choose|i: nat| i < w && stops_within(s, i);
        lemma_min_stop_below(s, i);
    }
}

/// A wrapped product equals the plain product whenever that product fits in
/// a register.
pub proof fn lemma_wrap_mul_in_range(a: i32, b: i32)
    requires
        i32::MIN <= a * b <= i32::MAX,
    ensures
        vstd::wrapping::i32_specs::wrapping_mul(a, b) == (a * b) as i32,
{
    let x = a as int * b as int;
    let m = 0x1_0000_0000int;
    if x >= 0 {
        vstd::arithmetic::div_mod::lemma_small_mod(x as nat, m as nat);
    } else {
        vstd::arithmetic::div_mod::lemma_mod_add_multiples_vanish(x, m);
        vstd::arithmetic::div_mod::lemma_small_mod((x + m) as nat, m as nat);
    }
}

/// Law: a load instruction writes its immediate value — the 16-bit quantity
/// of its two trailing bytes, high byte first — into its destination
/// register, advances the program counter by the four-byte slot, and touches
/// nothing else.
pub proof fn lemma_step_load(s: VmState, d: u8, v: u16)
    requires
        vm_wf(s),
        s.pc + 4 <= s.program.len(),
        s.program[s.pc as int] == 1,
        s.program[s.pc as int + 1] == d,
        d < reg_count(),
        v == s.program[s.pc as int + 2] * 256 + s.program[s.pc as int + 3],
    ensures
        step(s).1 == StepOutcome::Continue,
        step(s).0.registers == s.registers.update(d as int, v as i32),
        step(s).0.pc == s.pc + 4,
        step(s).0.program == s.program,
        step(s).0.remainder == s.remainder,
{
}

/// Law: an add, subtract or multiply instruction whose true result fits in a
/// register writes exactly the sum, difference or product of the two source
/// registers into the destination register and advances the program counter
/// by the four-byte slot. A difference may be negative.
pub proof fn lemma_step_arith(s: VmState, r1: u8, r2: u8, rd: u8)
    requires
        vm_wf(s),
        s.pc + 4 <= s.program.len(),
        s.program[s.pc as int] == 2 || s.program[s.pc as int] == 3 || s.program[s.pc as int]
            == 4,
        s.program[s.pc as int + 1] == r1,
        s.program[s.pc as int + 2] == r2,
        s.program[s.pc as int + 3] == rd,
        r1 < reg_count() && r2 < reg_count() && rd < reg_count(),
        s.program[s.pc as int] == 2 ==> i32::MIN <= s.registers[r1 as int] + s.registers[
            r2 as int
        ] <= i32::MAX,
        s.program[s.pc as int] == 3 ==> i32::MIN <= s.registers[r1 as int] - s.registers[
            r2 as int
        ] <= i32::MAX,
        s.program[s.pc as int] == 4 ==> i32::MIN <= s.registers[r1 as int] * s.registers[
            r2 as int
        ] <= i32::MAX,
    ensures
        step(s).1 == StepOutcome::Continue,
        step(s).0.pc == s.pc + 4,
        step(s).0.program == s.program,
        step(s).0.remainder == s.remainder,
        s.program[s.pc as int] == 2 ==> step(s).0.registers == s.registers.update(
            rd as int,
            (s.registers[r1 as int] + s.registers[r2 as int]) as i32,
        ),
        s.program[s.pc as int] == 3 ==> step(s).0.registers == s.registers.update(
            rd as int,
            (s.registers[r1 as int] - s.registers[r2 as int]) as i32,
        ),
        s.program[s.pc as int] == 4 ==> step(s).0.registers == s.registers.update(
            rd as int,
            (s.registers[r1 as int] * s.registers[r2 as int]) as i32,
        ),
{
    if s.program[s.pc as int] == 4 {
        lemma_wrap_mul_in_range(s.registers[r1 as int], s.registers[r2 as int]);
    }
}

/// Law: a divide instruction with a nonzero divisor writes the truncating
/// quotient into the destination register and the remainder register, and
/// advances the program counter by the four-byte slot; with nonnegative
/// operands quotient and remainder are the plain `/` and `%`. A divisor of
/// zero is the arithmetic fault and mutates neither the destination register
/// nor the remainder register. (The one quotient no register can hold,
/// `i32::MIN / -1`, is the arithmetic fault as well.)
pub proof fn lemma_step_div(s: VmState, r1: u8, r2: u8, rd: u8)
    requires
        vm_wf(s),
        s.pc + 4 <= s.program.len(),
        s.program[s.pc as int] == 5,
        s.program[s.pc as int + 1] == r1,
        s.program[s.pc as int + 2] == r2,
        s.program[s.pc as int + 3] == rd,
        r1 < reg_count() && r2 < reg_count() && rd < reg_count(),
    ensures
        s.registers[r2 as int] == 0 || (s.registers[r1 as int] == i32::MIN && s.registers[
            r2 as int
        ] == -1) ==> step(s) == (
            VmState { pc: (s.pc + 1) as nat, ..s },
            StepOutcome::ArithmeticFault,
        ),
        s.registers[r2 as int] != 0 && !(s.registers[r1 as int] == i32::MIN && s.registers[
            r2 as int
        ] == -1) ==> {
            &&& step(s).1 == StepOutcome::Continue
            &&& step(s).0.registers == s.registers.update(
                rd as int,
                trunc_div(s.registers[r1 as int], s.registers[r2 as int]) as i32,
            )
            &&& step(s).0.remainder == rem_as_u32(
                trunc_rem(s.registers[r1 as int], s.registers[r2 as int]),
            )
            &&& step(s).0.pc == s.pc + 4
            &&& step(s).0.program == s.program
        },
        s.registers[r1 as int] >= 0 && s.registers[r2 as int] > 0 ==> {
            &&& trunc_div(s.registers[r1 as int], s.registers[r2 as int]) == s.registers[
                r1 as int
            ] as int / s.registers[r2 as int] as int
            &&& rem_as_u32(trunc_rem(s.registers[r1 as int], s.registers[r2 as int]))
                == s.registers[r1 as int] as int % s.registers[r2 as int] as int
        },
{
    let a = s.registers[r1 as int];
    let b = s.registers[r2 as int];
    if a >= 0 && b > 0 {
        lemma_mod_division_less_than_divisor(a as int, b as int);
    }
}

/// Law: every comparison instruction writes exactly 1 to the destination
/// register when the native comparison of the two source values holds, and
/// exactly 0 when it does not, advancing the program counter by the
/// four-byte slot.
pub proof fn lemma_step_cmp(s: VmState, r1: u8, r2: u8, rd: u8)
    requires
        vm_wf(s),
        s.pc + 4 <= s.program.len(),
        9 <= s.program[s.pc as int] <= 13,
        s.program[s.pc as int + 1] == r1,
        s.program[s.pc as int + 2] == r2,
        s.program[s.pc as int + 3] == rd,
        r1 < reg_count() && r2 < reg_count() && rd < reg_count(),
    ensures
        step(s).1 == StepOutcome::Continue,
        step(s).0.pc == s.pc + 4,
        step(s).0.program == s.program,
        step(s).0.remainder == s.remainder,
        step(s).0.registers == s.registers.update(
            rd as int,
            if cmp_holds(
                opcode_of(s.program[s.pc as int]),
                s.registers[r1 as int],
                s.registers[r2 as int],
            ) {
                1i32
            } else {
                0i32
            },
        ),
        cmp_holds(Opcode::EQ, s.registers[r1 as int], s.registers[r2 as int]) == (s.registers[
            r1 as int
        ] == s.registers[r2 as int]),
        cmp_holds(Opcode::GT, s.registers[r1 as int], s.registers[r2 as int]) == (s.registers[
            r1 as int
        ] > s.registers[r2 as int]),
        cmp_holds(Opcode::LT, s.registers[r1 as int], s.registers[r2 as int]) == (s.registers[
            r1 as int
        ] < s.registers[r2 as int]),
        cmp_holds(Opcode::GQT, s.registers[r1 as int], s.registers[r2 as int]) == (s.registers[
            r1 as int
        ] >= s.registers[r2 as int]),
        cmp_holds(Opcode::LQT, s.registers[r1 as int], s.registers[r2 as int]) == (s.registers[
            r1 as int
        ] <= s.registers[r2 as int]),
{
}

/// Law: a conditional jump whose condition register holds the watched value
/// — 1 for jump-if-equal, 0 for jump-if-not-equal — sets the program counter
/// to the target register's value; otherwise the program counter advances by
/// the full four-byte slot. Registers are never mutated.
pub proof fn lemma_step_cond_jmp(s: VmState, c: u8, j: u8)
    requires
        vm_wf(s),
        s.pc + 4 <= s.program.len(),
        s.program[s.pc as int] == 14 || s.program[s.pc as int] == 15,
        s.program[s.pc as int + 1] == c,
        s.program[s.pc as int + 2] == j,
        c < reg_count() && j < reg_count(),
    ensures
        step(s).1 == StepOutcome::Continue,
        step(s).0.registers == s.registers,
        step(s).0.program == s.program,
        step(s).0.remainder == s.remainder,
        s.program[s.pc as int] == 14 && s.registers[c as int] == 1 ==> step(s).0.pc == reg_as_pc(
            s.registers[j as int],
        ),
        s.program[s.pc as int] == 14 && s.registers[c as int] == 1 && s.registers[j as int] >= 0
            ==> step(s).0.pc == s.registers[j as int],
        s.program[s.pc as int] == 14 && s.registers[c as int] != 1 ==> step(s).0.pc == s.pc + 4,
        s.program[s.pc as int] == 15 && s.registers[c as int] == 0 ==> step(s).0.pc == reg_as_pc(
            s.registers[j as int],
        ),
        s.program[s.pc as int] == 15 && s.registers[c as int] == 0 && s.registers[j as int] >= 0
            ==> step(s).0.pc == s.registers[j as int],
        s.program[s.pc as int] == 15 && s.registers[c as int] != 0 ==> step(s).0.pc == s.pc + 4,
{
}

/// Law: an absolute jump sets the program counter to the target register's
/// value, and a relative jump adds the offset register's value to — or
/// subtracts it from — the program counter as it stands past the opcode and
/// operand bytes, wrapping as the machine word does. Registers are never
/// mutated.
pub proof fn lemma_step_jmp(s: VmState, j: u8)
    requires
        vm_wf(s),
        s.pc + 2 <= s.program.len(),
        s.program[s.pc as int] == 6 || s.program[s.pc as int] == 7 || s.program[s.pc as int]
            == 8,
        s.program[s.pc as int + 1] == j,
        j < reg_count(),
        s.pc + 2 < pc_modulus(),
    ensures
        step(s).1 == StepOutcome::Continue,
        step(s).0.registers == s.registers,
        step(s).0.program == s.program,
        step(s).0.remainder == s.remainder,
        s.program[s.pc as int] == 6 ==> step(s).0.pc == reg_as_pc(s.registers[j as int]),
        s.program[s.pc as int] == 6 && s.registers[j as int] >= 0 ==> step(s).0.pc == s.registers[
            j as int
        ],
        s.program[s.pc as int] == 7 ==> step(s).0.pc == wrap_pc(
            s.pc as int + 2 + reg_as_pc(s.registers[j as int]),
        ),
        s.program[s.pc as int] == 7 && s.registers[j as int] >= 0 && s.pc + 2 + s.registers[
            j as int
        ] < pc_modulus() ==> step(s).0.pc == s.pc + 2 + s.registers[j as int],
        s.program[s.pc as int] == 8 ==> step(s).0.pc == wrap_pc(
            s.pc + 2 - reg_as_pc(s.registers[j as int]),
        ),
        s.program[s.pc as int] == 8 && 0 <= s.registers[j as int] <= s.pc + 2 ==> step(s).0.pc
            == s.pc + 2 - s.registers[j as int],
{
}

/// Law: a program of halt bytes alone stops after a single step, as a halt,
/// with the program counter one past the opcode byte.
pub proof fn lemma_halt_program(s: VmState)
    requires
        vm_wf(s),
        s.pc == 0,
        s.program.len() >= 1,
        forall|i: int| 0 <= i < s.program.len() ==> s.program[i] == 0,
    ensures
        step(s).1 == StepOutcome::Halted,
        step(s).0.pc == 1,
        step(s).0.registers == s.registers,
        runs_to(s, step(s).0, 0, StepOutcome::Halted),
{
    assert(run_n(s, 0) == s);
    assert(run_n(s, 1) == step(s).0);
}

/// Law: a program byte outside the recognized range stops the run as
/// unrecognized, leaving the program counter one past that byte and every
/// register untouched.
pub proof fn lemma_step_unrecognized(s: VmState)
    requires
        vm_wf(s),
        s.pc < s.program.len(),
        s.program[s.pc as int] > 15,
    ensures
        step(s).1 == StepOutcome::Unrecognized,
        step(s).0 == (VmState { pc: (s.pc + 1) as nat, ..s }),
        runs_to(s, step(s).0, 0, StepOutcome::Unrecognized),
{
    assert(run_n(s, 0) == s);
    assert(run_n(s, 1) == step(s).0);
}

/// The state of a machine that was just created.
pub open spec fn init_state() -> VmState {
    VmState {
        registers: Seq::new(reg_count() as nat, |i: int| 0i32),
        pc: 0,
        program: Seq::empty(),
        remainder: 0,
    }
}

/// The virtual machine.
pub struct VM {
    /// The register file; its size is fixed for the lifetime of the machine.
    pub registers: [i32; 32],
    /// The program counter: the offset of the next byte to decode.
    pub pc: usize,
    /// The program bytecode.
    pub program: Vec<u8>,
    /// The remainder of the most recent division instruction.
    pub remainder: u32,
}

impl View for VM {
    type V = VmState;

    open spec fn view(&self) -> VmState {
        VmState {
            registers: self.registers@,
            pc: self.pc as nat,
            program: self.program@,
            remainder: self.remainder,
        }
    }
}

/// The usize a register's signed value converts to, two's-complement.
fn reg_to_usize(v: i32) -> (r: usize)
    ensures
        r as nat == reg_as_pc(v),
{
    if v >= 0 {
        v as usize
    } else {
        (usize::MAX - ((-(v as i64)) as usize)) + 1
    }
}

impl VM {
    /// A fresh machine: every register 0, the program counter 0, no program.
    pub fn new() -> (vm: VM)
        ensures
            vm@ == init_state(),
            forall|r: int| 0 <= r < reg_count() ==> vm@.registers[r] == 0,
            vm@.pc == 0,
            vm@.remainder == 0,
            vm@.program.len() == 0,
    {
        let vm = VM { registers: [0; 32], pc: 0, program: vec![], remainder: 0 };
        proof {
            assert(vm@.registers =~= init_state().registers);
            assert(vm@.program =~= init_state().program);
            assert(vm@ == init_state());
        }
        vm
    }

    /// Appends one byte to the program bytecode.
    pub fn add_byte(&mut self, byte: u8)
        ensures
            final(self)@ == (VmState { program: old(self)@.program.push(byte), ..old(self)@ }),
    {
        self.program.push(byte);
    }

    /// Runs instructions until a step signals a stop, and returns that
    /// stopping outcome. A program that keeps jumping backward never stops,
    /// so a stop must be owed before the loop is entered.
    pub fn run(&mut self) -> (r: StepOutcome)
        requires
            terminates(old(self)@),
        ensures
            r.is_stop(),
            exists|n: nat| runs_to(old(self)@, final(self)@, n, r),
    {
        let ghost s0 = old(self)@;
        proof {
            lemma_min_stop_below(s0, choose|n: nat| stops_within(s0, n));
        }
        let ghost fuel: nat = choose|n: nat| is_min_stop(s0, n);
        let ghost mut steps: nat = 0nat;
        loop
            invariant
                s0 == old(self)@,
                is_min_stop(s0, fuel),
                steps <= fuel,
                self@ == run_n(s0, steps),
                forall|i: nat| i < steps ==> (#[trigger] step(run_n(s0, i))).1
                    == StepOutcome::Continue,
            decreases fuel - steps,
        {
            let outcome = self.execute_instruction();
            proof {
                assert(run_n(s0, (steps + 1) as nat) == step(run_n(s0, steps)).0);
            }
            if outcome != StepOutcome::Continue {
                proof {
                    assert(runs_to(s0, self@, steps, outcome));
                }
                return outcome;
            }
            proof {
                assert(!stops_within(s0, steps));
                steps = (steps + 1) as nat;
            }
        }
    }

    /// Executes exactly one instruction and returns the step's outcome.
    pub fn run_once(&mut self) -> (r: StepOutcome)
        ensures
            final(self)@ == step(old(self)@).0,
            r == step(old(self)@).1,
    {
        self.execute_instruction()
    }

    /// Executes the next instruction of the program: exactly the step that
    /// the spec function [`step`] gives.
    fn execute_instruction(&mut self) -> (r: StepOutcome)
        ensures
            final(self)@ == step(old(self)@).0,
            r == step(old(self)@).1,
    {
        if self.pc >= self.program.len() {
            return StepOutcome::EndOfProgram;
        }
        let pc0 = self.pc;
        match self.decode_opcode() {
            Opcode::HLT => {
                return StepOutcome::Halted;
            },
            Opcode::LOAD => {
                if self.program.len() - self.pc < 3 {
                    return StepOutcome::Overrun;
                }
                let register = self.next_8_bits() as usize;
                let number: u16 = self.next_16_bits();
                if register >= 32 {
                    self.pc = pc0 + 1;
                    return StepOutcome::RegisterOutOfRange;
                }
                self.registers[register] = number as i32;
            },
            Opcode::ADD => {
                if self.program.len() - self.pc < 3 {
                    return StepOutcome::Overrun;
                }
                let i1 = self.next_8_bits() as usize;
                let i2 = self.next_8_bits() as usize;
                let i3 = self.next_8_bits() as usize;
                if i1 >= 32 || i2 >= 32 || i3 >= 32 {
                    self.pc = pc0 + 1;
                    return StepOutcome::RegisterOutOfRange;
                }
                let register1 = self.registers[i1];
                let register2 = self.registers[i2];
                self.registers[i3] = register1.wrapping_add(register2);
            },
            Opcode::SUB => {
                if self.program.len() - self.pc < 3 {
                    return StepOutcome::Overrun;
                }
                let i1 = self.next_8_bits() as usize;
                let i2 = self.next_8_bits() as usize;
                let i3 = self.next_8_bits() as usize;
                if i1 >= 32 || i2 >= 32 || i3 >= 32 {
                    self.pc = pc0 + 1;
                    return StepOutcome::RegisterOutOfRange;
                }
                let register1 = self.registers[i1];
                let register2 = self.registers[i2];
                self.registers[i3] = register1.wrapping_sub(register2);
            },
            Opcode::MUL => {
                if self.program.len() - self.pc < 3 {
                    return StepOutcome::Overrun;
                }
                let i1 = self.next_8_bits() as usize;
                let i2 = self.next_8_bits() as usize;
                let i3 = self.next_8_bits() as usize;
                if i1 >= 32 || i2 >= 32 || i3 >= 32 {
                    self.pc = pc0 + 1;
                    return StepOutcome::RegisterOutOfRange;
                }
                let register1 = self.registers[i1];
                let register2 = self.registers[i2];
                self.registers[i3] = register1.wrapping_mul(register2);
            },
            Opcode::DIV => {
                if self.program.len() - self.pc < 3 {
                    return StepOutcome::Overrun;
                }
                let i1 = self.next_8_bits() as usize;
                let i2 = self.next_8_bits() as usize;
                let i3 = self.next_8_bits() as usize;
                if i1 >= 32 || i2 >= 32 || i3 >= 32 {
                    self.pc = pc0 + 1;
                    return StepOutcome::RegisterOutOfRange;
                }
                let register1 = self.registers[i1];
                let register2 = self.registers[i2];
                proof {
                    if register1 == i32::MIN && register2 == -1i32 {
                        vstd::arithmetic::div_mod::lemma_div_basics(0x8000_0000int);
                    } else if register2 != 0 {
                        lemma_checked_div_rem(register1, register2);
                    }
                }
                match register1.checked_div(register2) {
                    Some(quotient) => {
                        let rem = register1.checked_rem(register2).unwrap();
                        let remainder: u32 = if rem >= 0 {
                            rem as u32
                        } else {
                            ((rem as i64) + 0x1_0000_0000i64) as u32
                        };
                        self.registers[i3] = quotient;
                        self.remainder = remainder;
                    },
                    None => {
                        self.pc = pc0 + 1;
                        return StepOutcome::ArithmeticFault;
                    },
                }
            },
            Opcode::EQ => {
                if self.program.len() - self.pc < 3 {
                    return StepOutcome::Overrun;
                }
                let i1 = self.next_8_bits() as usize;
                let i2 = self.next_8_bits() as usize;
                let i3 = self.next_8_bits() as usize;
                if i1 >= 32 || i2 >= 32 || i3 >= 32 {
                    self.pc = pc0 + 1;
                    return StepOutcome::RegisterOutOfRange;
                }
                let register1 = self.registers[i1];
                let register2 = self.registers[i2];
                self.registers[i3] = if register1 == register2 {
                    1
                } else {
                    0
                };
            },
            Opcode::GT => {
                if self.program.len() - self.pc < 3 {
                    return StepOutcome::Overrun;
                }
                let i1 = self.next_8_bits() as usize;
                let i2 = self.next_8_bits() as usize;
                let i3 = self.next_8_bits() as usize;
                if i1 >= 32 || i2 >= 32 || i3 >= 32 {
                    self.pc = pc0 + 1;
                    return StepOutcome::RegisterOutOfRange;
                }
                let register1 = self.registers[i1];
                let register2 = self.registers[i2];
                self.registers[i3] = if register1 > register2 {
                    1
                } else {
                    0
                };
            },
            Opcode::LT => {
                if self.program.len() - self.pc < 3 {
                    return StepOutcome::Overrun;
                }
                let i1 = self.next_8_bits() as usize;
                let i2 = self.next_8_bits() as usize;
                let i3 = self.next_8_bits() as usize;
                if i1 >= 32 || i2 >= 32 || i3 >= 32 {
                    self.pc = pc0 + 1;
                    return StepOutcome::RegisterOutOfRange;
                }
                let register1 = self.registers[i1];
                let register2 = self.registers[i2];
                self.registers[i3] = if register1 < register2 {
                    1
                } else {
                    0
                };
            },
            Opcode::GQT => {
                if self.program.len() - self.pc < 3 {
                    return StepOutcome::Overrun;
                }
                let i1 = self.next_8_bits() as usize;
                let i2 = self.next_8_bits() as usize;
                let i3 = self.next_8_bits() as usize;
                if i1 >= 32 || i2 >= 32 || i3 >= 32 {
                    self.pc = pc0 + 1;
                    return StepOutcome::RegisterOutOfRange;
                }
                let register1 = self.registers[i1];
                let register2 = self.registers[i2];
                self.registers[i3] = if register1 >= register2 {
                    1
                } else {
                    0
                };
            },
            Opcode::LQT => {
                if self.program.len() - self.pc < 3 {
                    return StepOutcome::Overrun;
                }
                let i1 = self.next_8_bits() as usize;
                let i2 = self.next_8_bits() as usize;
                let i3 = self.next_8_bits() as usize;
                if i1 >= 32 || i2 >= 32 || i3 >= 32 {
                    self.pc = pc0 + 1;
                    return StepOutcome::RegisterOutOfRange;
                }
                let register1 = self.registers[i1];
                let register2 = self.registers[i2];
                self.registers[i3] = if register1 <= register2 {
                    1
                } else {
                    0
                };
            },
            Opcode::JMP => {
                if self.program.len() - self.pc < 1 {
                    return StepOutcome::Overrun;
                }
                let i = self.next_8_bits() as usize;
                if i >= 32 {
                    self.pc = pc0 + 1;
                    return StepOutcome::RegisterOutOfRange;
                }
                let target = self.registers[i];
                self.pc = reg_to_usize(target);
            },
            Opcode::JMPF => {
                if self.program.len() - self.pc < 1 {
                    return StepOutcome::Overrun;
                }
                let i = self.next_8_bits() as usize;
                if i >= 32 {
                    self.pc = pc0 + 1;
                    return StepOutcome::RegisterOutOfRange;
                }
                let jump_value = self.registers[i];
                self.pc = self.pc.wrapping_add(reg_to_usize(jump_value));
            },
            Opcode::JMPB => {
                if self.program.len() - self.pc < 1 {
                    return StepOutcome::Overrun;
                }
                let i = self.next_8_bits() as usize;
                if i >= 32 {
                    self.pc = pc0 + 1;
                    return StepOutcome::RegisterOutOfRange;
                }
                let jump_value = self.registers[i];
                self.pc = self.pc.wrapping_sub(reg_to_usize(jump_value));
            },
            Opcode::JEQ => {
                if self.program.len() - self.pc < 2 {
                    return StepOutcome::Overrun;
                }
                let ci = self.next_8_bits() as usize;
                let ji = self.next_8_bits() as usize;
                if ci >= 32 || ji >= 32 {
                    self.pc = pc0 + 1;
                    return StepOutcome::RegisterOutOfRange;
                }
                let is_equal = self.registers[ci];
                let jump_register = self.registers[ji];
                if is_equal == 1 {
                    self.pc = reg_to_usize(jump_register);
                } else {
                    if self.pc >= self.program.len() {
                        self.pc = pc0 + 1;
                        return StepOutcome::Overrun;
                    }
                    let _ = self.next_8_bits();
                }
            },
            Opcode::JNEQ => {
                if self.program.len() - self.pc < 2 {
                    return StepOutcome::Overrun;
                }
                let ci = self.next_8_bits() as usize;
                let ji = self.next_8_bits() as usize;
                if ci >= 32 || ji >= 32 {
                    self.pc = pc0 + 1;
                    return StepOutcome::RegisterOutOfRange;
                }
                let is_equal = self.registers[ci];
                let jump_register = self.registers[ji];
                if is_equal == 0 {
                    self.pc = reg_to_usize(jump_register);
                } else {
                    if self.pc >= self.program.len() {
                        self.pc = pc0 + 1;
                        return StepOutcome::Overrun;
                    }
                    let _ = self.next_8_bits();
                }
            },
            _ => {
                return StepOutcome::Unrecognized;
            },
        }
        StepOutcome::Continue
    }

    /// Decodes the byte at the program counter and advances past it.
    fn decode_opcode(&mut self) -> (op: Opcode)
        requires
            old(self)@.pc < old(self)@.program.len(),
        ensures
            op == opcode_of(old(self)@.program[old(self)@.pc as int]),
            final(self)@ == (VmState { pc: (old(self)@.pc + 1) as nat, ..old(self)@ }),
    {
        proof {
            assert(self.program@.len() == self.program.len());
        }
        let opcode = Opcode::from(self.program[self.pc]);
        self.pc += 1;
        opcode
    }

    /// Reads the byte at the program counter and advances past it.
    fn next_8_bits(&mut self) -> (b: u8)
        requires
            old(self)@.pc < old(self)@.program.len(),
        ensures
            b == old(self)@.program[old(self)@.pc as int],
            final(self)@ == (VmState { pc: (old(self)@.pc + 1) as nat, ..old(self)@ }),
    {
        proof {
            assert(self.program@.len() == self.program.len());
        }
        let result = self.program[self.pc];
        self.pc += 1;
        result
    }

    /// Reads a 16-bit value from two consecutive bytes, high byte first, and
    /// advances past them.
    fn next_16_bits(&mut self) -> (v: u16)
        requires
            old(self)@.pc + 1 < old(self)@.program.len(),
        ensures
            v as int == old(self)@.program[old(self)@.pc as int] * 256 + old(self)@.program[
                old(self)@.pc as int + 1
            ],
            final(self)@ == (VmState { pc: (old(self)@.pc + 2) as nat, ..old(self)@ }),
    {
        proof {
            assert(self.program@.len() == self.program.len());
        }
        let hi = self.program[self.pc];
        let lo = self.program[self.pc + 1];
        proof {
            assert(((hi as u16) << 8u16 | lo as u16) == hi as u16 * 256 + lo as u16)
                by (bit_vector);
        }
        let result = ((hi as u16) << 8) | lo as u16;
        self.pc += 2;
        result
    }
}

} // verus!

