use rpd::vm::RuntimeError;
use rpd::vm::VM;

const FUEL: usize = 1000;

#[test]
fn test_creation() {
    let test_vm = VM::new();
    assert_eq!(test_vm.registers, [0; 32])
}

#[test]
fn test_load_inst() {
    let mut test_vm = VM::new();
    let test_bytes = vec![1, 10, 1, 1, 0];
    test_vm.program = test_bytes;
    let _ = test_vm.run(FUEL);
    assert_eq!(test_vm.registers[10], 257);
}

#[test]
fn test_add_inst() {
    let mut test_vm = VM::new();
    let test_bytes = vec![1, 1, 0, 1, 1, 2, 0, 1, 2, 3, 1, 2];
    test_vm.program = test_bytes;
    let _ = test_vm.run(FUEL);
    assert_eq!(test_vm.registers[3], 2);
}

#[test]
fn test_sub_inst() {
    let mut test_vm = VM::new();
    let test_bytes = vec![1, 1, 0, 2, 1, 2, 0, 1, 3, 3, 1, 2];
    test_vm.program = test_bytes;
    let _ = test_vm.run(FUEL);
    assert_eq!(test_vm.registers[3], 1);
}

#[test]
fn test_mult_inst() {
    let mut test_vm = VM::new();
    let test_bytes = vec![1, 1, 0, 10, 1, 2, 0, 2, 4, 3, 1, 2];
    test_vm.program = test_bytes;
    let _ = test_vm.run(FUEL);
    assert_eq!(test_vm.registers[3], 20);
}

#[test]
fn test_div_inst() {
    let mut test_vm = VM::new();
    let test_bytes = vec![1, 1, 0, 10, 1, 2, 0, 3, 5, 3, 1, 2];
    test_vm.program = test_bytes;
    let _ = test_vm.run(FUEL);
    assert_eq!(test_vm.registers[3], 3);
    assert_eq!(test_vm.remainder, 1);
}

#[test]
fn test_jump_inst() {
    let mut test_vm = VM::new();
    let test_bytes = vec![6, 0, 0, 0, 0];
    test_vm.program = test_bytes;
    let _ = test_vm.execute_instrunction();
    assert_eq!(test_vm.program_counter, 0);
}

#[test]
fn test_eq_inst() {
    let mut test_vm = VM::new();
    test_vm.registers[0] = 69;
    test_vm.registers[1] = 69;
    let test_bytes = vec![7, 0, 1, 0];
    test_vm.program = test_bytes;
    let _ = test_vm.run(FUEL);
    assert_eq!(test_vm.equality_flag, true);
}

#[test]
fn test_jeq_inst() {
    let mut test_vm = VM::new();
    test_vm.equality_flag = true;
    let test_bytes = vec![8, 1, 0];
    test_vm.program = test_bytes;
    let _ = test_vm.execute_instrunction();
    assert_eq!(test_vm.program_counter, 1);
}

#[test]
fn test_alloc_inst() {
    let mut test_vm = VM::new();
    test_vm.registers[0] = 32;
    test_vm.program = [9, 0, 0].to_vec();
    let _ = test_vm.run(FUEL);
    assert_eq!(test_vm.heap.len(), 32);
}

#[test]
fn test_inc_inst() {
    let mut test_vm = VM::new();
    test_vm.registers[0] = 68;
    test_vm.program = [10, 0, 0].to_vec();
    let _ = test_vm.run(FUEL);
    assert_eq!(test_vm.registers[0], 69);
}

#[test]
fn test_dec_inst() {
    let mut test_vm = VM::new();
    test_vm.registers[0] = 70;
    test_vm.program = [11, 0, 0].to_vec();
    let _ = test_vm.run(FUEL);
    assert_eq!(test_vm.registers[0], 69);
}

#[test]
fn test_heap_is_zero_filled() {
    let mut test_vm = VM::new();
    test_vm.registers[0] = 32;
    test_vm.program = [9, 0, 0].to_vec();
    let outcome = test_vm.run(FUEL);
    assert_eq!(outcome, Ok(true));
    assert_eq!(test_vm.heap.len(), 32);
    assert!(test_vm.heap.iter().all(|b| *b == 0));
}

#[test]
fn test_division_by_zero_is_fatal() {
    let mut test_vm = VM::new();
    test_vm.registers[1] = 10;
    test_vm.program = vec![5, 3, 1, 2];
    let outcome = test_vm.run(FUEL);
    assert_eq!(outcome, Err(RuntimeError::DivisionByZero));
    assert_eq!(test_vm.registers[3], 0);
}

#[test]
fn test_division_overflow_is_fatal() {
    let mut test_vm = VM::new();
    test_vm.registers[1] = i32::MIN;
    test_vm.registers[2] = -1;
    test_vm.program = vec![5, 3, 1, 2];
    let outcome = test_vm.run(FUEL);
    assert_eq!(outcome, Err(RuntimeError::DivisionOverflow));
}

#[test]
fn test_illegal_opcode_is_fatal() {
    let mut test_vm = VM::new();
    test_vm.program = vec![255, 0, 0, 0];
    let outcome = test_vm.run(FUEL);
    assert_eq!(outcome, Err(RuntimeError::IllegalInstruction { byte: 255 }));
}

#[test]
fn test_register_out_of_range_is_fatal() {
    let mut test_vm = VM::new();
    test_vm.program = vec![10, 40, 0, 0];
    let outcome = test_vm.run(FUEL);
    assert_eq!(outcome, Err(RuntimeError::RegisterOutOfRange { index: 40 }));
}

#[test]
fn test_truncated_instruction_is_fatal() {
    let mut test_vm = VM::new();
    test_vm.program = vec![1, 1];
    let outcome = test_vm.run(FUEL);
    assert_eq!(outcome, Err(RuntimeError::TruncatedInstruction));
}

#[test]
fn test_negative_allocation_is_fatal() {
    let mut test_vm = VM::new();
    test_vm.registers[0] = -5;
    test_vm.program = vec![9, 0, 0, 0];
    let outcome = test_vm.run(FUEL);
    assert_eq!(outcome, Err(RuntimeError::NegativeAllocation));
    assert_eq!(test_vm.heap.len(), 0);
}

#[test]
fn test_inc_wraps_at_register_width() {
    let mut test_vm = VM::new();
    test_vm.registers[0] = i32::MAX;
    test_vm.program = vec![10, 0, 0, 0];
    let outcome = test_vm.run(FUEL);
    assert_eq!(outcome, Ok(true));
    assert_eq!(test_vm.registers[0], i32::MIN);
}

#[test]
fn test_zero_opcode_is_a_no_op() {
    let mut test_vm = VM::new();
    test_vm.registers[0] = 68;
    test_vm.program = vec![0, 0, 0, 0, 10, 0, 0, 0];
    let outcome = test_vm.run(FUEL);
    assert_eq!(outcome, Ok(true));
    assert_eq!(test_vm.registers[0], 69);
}

#[test]
fn test_run_budget_reports_still_running() {
    let mut test_vm = VM::new();
    test_vm.program = vec![6, 0, 0, 0];
    let outcome = test_vm.run(10);
    assert_eq!(outcome, Ok(false));
}

#[test]
fn test_append_to_program() {
    let mut test_vm = VM::new();
    test_vm.program = vec![1, 1, 0, 1];
    test_vm.append_to_program(vec![10, 1, 0, 0]);
    assert_eq!(test_vm.program, vec![1, 1, 0, 1, 10, 1, 0, 0]);
    let outcome = test_vm.run(FUEL);
    assert_eq!(outcome, Ok(true));
    assert_eq!(test_vm.registers[1], 2);
}
