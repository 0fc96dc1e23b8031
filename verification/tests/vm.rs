use teflon::instructions::Instruction;
use teflon::instructions::Opcode;
use teflon::vm::StepOutcome;
use teflon::vm::VM;

#[test]
fn create_hlt() {
    let opcode = Opcode::HLT;
    assert_eq!(opcode, Opcode::HLT);
}

#[test]
fn create_instruction() {
    let instruction = Instruction::new(Opcode::HLT);

    assert_eq!(instruction.opcode, Opcode::HLT);
}

#[test]
fn test_create_vm() {
    let test_vm = VM::new();
    assert_eq!(test_vm.registers[0], 0)
}

#[test]
fn test_opcode_hlt() {
    let mut test_vm = VM::new();
    let test_bytes = vec![0, 0, 0, 0];
    test_vm.program = test_bytes;
    test_vm.run();
    assert_eq!(test_vm.pc, 1);
}

#[test]
fn test_opcode_igl() {
    let mut test_vm = VM::new();
    let test_bytes = vec![200, 0, 0, 0];
    test_vm.program = test_bytes;
    test_vm.run();
    assert_eq!(test_vm.pc, 1);
}

#[test]
fn test_load_opcode() {
    let mut test_vm = VM::new();
    test_vm.program = vec![1, 0, 1, 244];
    test_vm.run();
    assert_eq!(test_vm.registers[0], 500);
}

#[test]
fn test_load_opcode2() {
    let mut test_vm = VM::new();
    test_vm.program = vec![1, 0, 0, 15];
    test_vm.run();
    assert_eq!(test_vm.registers[0], 15);
}

#[test]
fn test_add_opcode() {
    let mut test_vm = VM::new();
    // bytes 0-3: load 15 into register 0
    // bytes 4-7: load 5 into register 1
    // bytes 8-11: add registers 0 and 1 into register 3
    test_vm.program = vec![1, 0, 0, 15, 1, 1, 0, 5, 2, 0, 1, 3];
    test_vm.run();
    assert_eq!(test_vm.registers[3], 20);
}

#[test]
fn test_subtract_opcode() {
    let mut test_vm = VM::new();
    test_vm.program = vec![1, 0, 0, 15, 1, 1, 0, 5, 3, 0, 1, 3];
    test_vm.run();
    assert_eq!(test_vm.registers[3], 10);
}

#[test]
fn test_subtract_opcode_negative_number() {
    let mut test_vm = VM::new();
    test_vm.program = vec![1, 0, 0, 5, 1, 1, 0, 15, 3, 0, 1, 3];
    test_vm.run();
    assert_eq!(test_vm.registers[3], -10);
}

#[test]
fn test_multiply_opcode() {
    let mut test_vm = VM::new();
    test_vm.program = vec![1, 0, 0, 15, 1, 1, 0, 5, 4, 0, 1, 3];
    test_vm.run();
    assert_eq!(test_vm.registers[3], 75);
}

#[test]
fn test_divide_opcode_ans_as_whole_number() {
    let mut test_vm = VM::new();
    test_vm.program = vec![1, 0, 0, 10, 1, 1, 0, 2, 5, 0, 1, 3];
    test_vm.run();
    assert_eq!(test_vm.registers[3], 5);
    assert_eq!(test_vm.remainder, 0);
}

#[test]
fn test_divide_opcode_ans_as_float() {
    let mut test_vm = VM::new();
    test_vm.program = vec![1, 0, 0, 15, 1, 1, 0, 2, 5, 0, 1, 3];
    test_vm.run();
    assert_eq!(test_vm.registers[3], 7);
    assert_eq!(test_vm.remainder, 1);
}

#[test]
fn test_jmp_opcode() {
    let mut test_vm = VM::new();
    test_vm.registers[0] = 1;
    test_vm.program = vec![6, 0, 0, 0];
    test_vm.run_once();
    assert_eq!(test_vm.pc, 1);
}

#[test]
fn test_jmpf_opcode() {
    let mut test_vm = VM::new();
    test_vm.registers[0] = 2;
    test_vm.program = vec![7, 0, 0, 0, 6, 0, 0, 0];
    test_vm.run_once();
    assert_eq!(test_vm.pc, 4);
}

#[test]
fn test_jmpb_opcode() {
    let mut test_vm = VM::new();
    test_vm.registers[0] = 2;
    test_vm.program = vec![8, 0, 0, 0, 6, 0, 0, 0];
    test_vm.run_once();
    assert_eq!(test_vm.pc, 0);
}

#[test]
fn test_eq_opcode_not_eq() {
    let mut test_vm = VM::new();
    test_vm.registers[0] = 10;
    test_vm.registers[1] = 8;
    test_vm.program = vec![9, 0, 1, 3];
    test_vm.run();
    assert_eq!(test_vm.registers[3], 0);
}

#[test]
fn test_eq_opcode_equal() {
    let mut test_vm = VM::new();
    test_vm.registers[0] = 10;
    test_vm.registers[1] = 10;
    test_vm.program = vec![9, 0, 1, 3];
    test_vm.run();
    assert_eq!(test_vm.registers[3], 1);
}

#[test]
fn test_gt_opcode_not_greater() {
    let mut test_vm = VM::new();
    test_vm.registers[0] = 10;
    test_vm.registers[1] = 90;
    test_vm.program = vec![10, 0, 1, 3];
    test_vm.run();
    assert_eq!(test_vm.registers[3], 0);
}

#[test]
fn test_gt_opcode_greater() {
    let mut test_vm = VM::new();
    test_vm.registers[0] = 12;
    test_vm.registers[1] = 8;
    test_vm.program = vec![10, 0, 1, 3];
    test_vm.run();
    assert_eq!(test_vm.registers[3], 1);
}

#[test]
fn test_lt_opcode_not_lesser() {
    let mut test_vm = VM::new();
    test_vm.registers[0] = 10;
    test_vm.registers[1] = 9;
    test_vm.program = vec![11, 0, 1, 3];
    test_vm.run();
    assert_eq!(test_vm.registers[3], 0);
}

#[test]
fn test_lt_opcode_lesser() {
    let mut test_vm = VM::new();
    test_vm.registers[0] = 8;
    test_vm.registers[1] = 9;
    test_vm.program = vec![11, 0, 1, 3];
    test_vm.run();
    assert_eq!(test_vm.registers[3], 1);
}

#[test]
fn test_gqt_opcode_greater_or_equal() {
    let mut test_vm = VM::new();
    test_vm.registers[0] = 10;
    test_vm.registers[1] = 9;
    test_vm.registers[2] = 10;
    test_vm.program = vec![12, 0, 1, 3, 12, 0, 2, 4];
    test_vm.run();
    assert_eq!(test_vm.registers[3], 1);
    assert_eq!(test_vm.registers[4], 1);
}

#[test]
fn test_gqt_opcode_not_greater_or_equal() {
    let mut test_vm = VM::new();
    test_vm.registers[0] = 8;
    test_vm.registers[1] = 9;
    test_vm.program = vec![12, 0, 1, 3];
    test_vm.run();
    assert_eq!(test_vm.registers[3], 0);
}

#[test]
fn test_lqt_opcode_less_or_equal() {
    let mut test_vm = VM::new();
    test_vm.registers[0] = 8;
    test_vm.registers[1] = 9;
    test_vm.registers[2] = 8;
    test_vm.program = vec![13, 0, 1, 3, 13, 0, 2, 4];
    test_vm.run();
    assert_eq!(test_vm.registers[3], 1);
    assert_eq!(test_vm.registers[4], 1);
}

#[test]
fn test_lqt_opcode_not_less_or_equal() {
    let mut test_vm = VM::new();
    test_vm.registers[0] = 10;
    test_vm.registers[1] = 9;
    test_vm.program = vec![13, 0, 1, 3];
    test_vm.run();
    assert_eq!(test_vm.registers[3], 0);
}

#[test]
fn test_jeq_opcode_is_equal() {
    let mut test_vm = VM::new();
    test_vm.registers[0] = 0;
    test_vm.registers[3] = 1;
    test_vm.program = vec![14, 3, 0, 0, 9, 0, 1, 3];
    test_vm.run_once();
    assert_eq!(test_vm.pc, 0);
}

#[test]
fn test_jeq_opcode_is_not_equal() {
    let mut test_vm = VM::new();
    test_vm.registers[0] = 0;
    test_vm.registers[3] = 0;
    test_vm.program = vec![14, 3, 1, 0, 9, 0, 1, 3];
    test_vm.run_once();
    assert_eq!(test_vm.pc, 4);
}

#[test]
fn test_jneq_opcode_is_equal() {
    let mut test_vm = VM::new();
    test_vm.registers[0] = 0;
    test_vm.registers[3] = 1;
    test_vm.program = vec![15, 3, 0, 0, 9, 0, 1, 3];
    test_vm.run_once();
    assert_eq!(test_vm.pc, 4);
}

#[test]
fn test_jneq_opcode_is_not_equal() {
    let mut test_vm = VM::new();
    test_vm.registers[0] = 0;
    test_vm.registers[3] = 0;
    test_vm.program = vec![15, 3, 1, 0, 9, 0, 1, 3];
    test_vm.run_once();
    assert_eq!(test_vm.pc, 0);
}

#[test]
fn fresh_vm_is_all_zero() {
    let test_vm = VM::new();
    for r in 0..32 {
        assert_eq!(test_vm.registers[r], 0);
    }
    assert_eq!(test_vm.pc, 0);
    assert_eq!(test_vm.remainder, 0);
    assert!(test_vm.program.is_empty());
}

#[test]
fn decode_covers_every_byte() {
    assert_eq!(Opcode::from(0u8), Opcode::HLT);
    assert_eq!(Opcode::from(1u8), Opcode::LOAD);
    assert_eq!(Opcode::from(2u8), Opcode::ADD);
    assert_eq!(Opcode::from(3u8), Opcode::SUB);
    assert_eq!(Opcode::from(4u8), Opcode::MUL);
    assert_eq!(Opcode::from(5u8), Opcode::DIV);
    assert_eq!(Opcode::from(6u8), Opcode::JMP);
    assert_eq!(Opcode::from(7u8), Opcode::JMPF);
    assert_eq!(Opcode::from(8u8), Opcode::JMPB);
    assert_eq!(Opcode::from(9u8), Opcode::EQ);
    assert_eq!(Opcode::from(10u8), Opcode::GT);
    assert_eq!(Opcode::from(11u8), Opcode::LT);
    assert_eq!(Opcode::from(12u8), Opcode::GQT);
    assert_eq!(Opcode::from(13u8), Opcode::LQT);
    assert_eq!(Opcode::from(14u8), Opcode::JEQ);
    assert_eq!(Opcode::from(15u8), Opcode::JNEQ);
    assert_eq!(Opcode::from(16u8), Opcode::IGL);
    assert_eq!(Opcode::from(255u8), Opcode::IGL);
}

#[test]
fn load_largest_immediate() {
    let mut test_vm = VM::new();
    test_vm.program = vec![1, 0, 255, 255];
    let outcome = test_vm.run_once();
    assert_eq!(outcome, StepOutcome::Continue);
    assert_eq!(test_vm.registers[0], 65535);
    assert_eq!(test_vm.pc, 4);
}

#[test]
fn single_halt_byte_stops_after_one_step() {
    let mut test_vm = VM::new();
    test_vm.program = vec![0];
    let outcome = test_vm.run();
    assert_eq!(outcome, StepOutcome::Halted);
    assert_eq!(test_vm.pc, 1);
}

#[test]
fn unrecognized_byte_reported_with_pc_one_past() {
    let mut test_vm = VM::new();
    test_vm.registers[0] = 7;
    test_vm.program = vec![16];
    let outcome = test_vm.run();
    assert_eq!(outcome, StepOutcome::Unrecognized);
    assert_eq!(test_vm.pc, 1);
    assert_eq!(test_vm.registers[0], 7);
}

#[test]
fn empty_program_is_end_of_program() {
    let mut test_vm = VM::new();
    let outcome = test_vm.run();
    assert_eq!(outcome, StepOutcome::EndOfProgram);
    assert_eq!(test_vm.pc, 0);
}

#[test]
fn load_then_add_example_program() {
    let mut test_vm = VM::new();
    test_vm.program = vec![1, 0, 0, 15, 1, 1, 0, 5, 2, 0, 1, 3];
    test_vm.run();
    assert_eq!(test_vm.registers[0], 15);
    assert_eq!(test_vm.registers[1], 5);
    assert_eq!(test_vm.registers[3], 20);
}

#[test]
fn divide_by_zero_is_a_fault_and_mutates_nothing() {
    let mut test_vm = VM::new();
    test_vm.registers[0] = 10;
    test_vm.registers[3] = 99;
    test_vm.remainder = 5;
    test_vm.program = vec![5, 0, 1, 3];
    let outcome = test_vm.run();
    assert_eq!(outcome, StepOutcome::ArithmeticFault);
    assert_eq!(test_vm.registers[3], 99);
    assert_eq!(test_vm.remainder, 5);
    assert_eq!(test_vm.pc, 1);
}

#[test]
fn divide_min_by_minus_one_is_a_fault() {
    let mut test_vm = VM::new();
    test_vm.registers[0] = i32::MIN;
    test_vm.registers[1] = -1;
    test_vm.program = vec![5, 0, 1, 3];
    let outcome = test_vm.run();
    assert_eq!(outcome, StepOutcome::ArithmeticFault);
    assert_eq!(test_vm.registers[3], 0);
}

#[test]
fn divide_negative_dividend_truncates() {
    let mut test_vm = VM::new();
    test_vm.registers[0] = -7;
    test_vm.registers[1] = 2;
    test_vm.program = vec![5, 0, 1, 3];
    test_vm.run();
    assert_eq!(test_vm.registers[3], -3);
    // The remainder register reads a negative remainder as an unsigned word.
    assert_eq!(test_vm.remainder, (-1i32) as u32);
}

#[test]
fn register_index_out_of_range_is_a_fault() {
    let mut test_vm = VM::new();
    test_vm.program = vec![2, 40, 0, 3];
    let outcome = test_vm.run();
    assert_eq!(outcome, StepOutcome::RegisterOutOfRange);
    assert_eq!(test_vm.pc, 1);
    assert_eq!(test_vm.registers[3], 0);
}

#[test]
fn truncated_operands_are_an_overrun() {
    let mut test_vm = VM::new();
    test_vm.program = vec![1, 0];
    let outcome = test_vm.run();
    assert_eq!(outcome, StepOutcome::Overrun);
    assert_eq!(test_vm.pc, 1);
    assert_eq!(test_vm.registers[0], 0);
}

#[test]
fn jeq_taken_needs_no_padding_byte() {
    let mut test_vm = VM::new();
    test_vm.registers[0] = 1;
    test_vm.registers[1] = 0;
    test_vm.program = vec![14, 0, 1];
    let outcome = test_vm.run_once();
    assert_eq!(outcome, StepOutcome::Continue);
    assert_eq!(test_vm.pc, 0);
}

#[test]
fn jeq_not_taken_without_padding_byte_is_an_overrun() {
    let mut test_vm = VM::new();
    test_vm.registers[0] = 0;
    test_vm.registers[1] = 0;
    test_vm.program = vec![14, 0, 1];
    let outcome = test_vm.run_once();
    assert_eq!(outcome, StepOutcome::Overrun);
    assert_eq!(test_vm.pc, 1);
}

#[test]
fn jmpb_below_zero_wraps_the_counter() {
    let mut test_vm = VM::new();
    test_vm.registers[0] = 5;
    test_vm.program = vec![8, 0, 0, 0];
    let outcome = test_vm.run_once();
    assert_eq!(outcome, StepOutcome::Continue);
    assert_eq!(test_vm.pc, usize::MAX - 2);
    let outcome = test_vm.run_once();
    assert_eq!(outcome, StepOutcome::EndOfProgram);
}

#[test]
fn add_byte_appends_to_the_program() {
    let mut test_vm = VM::new();
    test_vm.add_byte(1);
    test_vm.add_byte(0);
    test_vm.add_byte(0);
    test_vm.add_byte(42);
    assert_eq!(test_vm.program, vec![1, 0, 0, 42]);
    test_vm.run();
    assert_eq!(test_vm.registers[0], 42);
}

#[test]
fn comparison_chain_writes_exactly_one_or_zero() {
    let mut test_vm = VM::new();
    test_vm.registers[0] = -3;
    test_vm.registers[1] = -3;
    test_vm.program = vec![9, 0, 1, 2, 10, 0, 1, 3, 11, 0, 1, 4, 12, 0, 1, 5, 13, 0, 1, 6];
    test_vm.run();
    assert_eq!(test_vm.registers[2], 1);
    assert_eq!(test_vm.registers[3], 0);
    assert_eq!(test_vm.registers[4], 0);
    assert_eq!(test_vm.registers[5], 1);
    assert_eq!(test_vm.registers[6], 1);
}
