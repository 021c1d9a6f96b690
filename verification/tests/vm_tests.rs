use rlox::chunk::Chunk;
use rlox::chunk::OpCode;
use rlox::value::Value;
use rlox::vm::InterpretResult;
use rlox::vm::VirtualMachine;
use rlox::vm::VmStack;

fn run_source(source: &str) -> (InterpretResult, Option<Value>) {
    let mut vm = VirtualMachine::new();
    vm.interpret(source)
}

fn expect_value(source: &str, num: i64, den: i64) {
    let (result, value) = run_source(source);
    assert_eq!(result, InterpretResult::Success);
    let value = value.expect("a value");
    assert!(value.eq_rat(&Value::from_parts(num, den)));
}

#[test]
fn run_literal_integer() {
    expect_value("42", 42, 1);
}

#[test]
fn run_literal_fraction() {
    expect_value("3.5", 35, 10);
}

#[test]
fn run_literal_zero() {
    expect_value("0", 0, 1);
}

#[test]
fn run_addition() {
    expect_value("1 + 2", 3, 1);
}

#[test]
fn run_subtraction_left_to_right() {
    // 10 - 4 is 6, not -6: the operand order is part of the contract.
    expect_value("10 - 4", 6, 1);
}

#[test]
fn run_division() {
    expect_value("6 / 3", 2, 1);
}

#[test]
fn run_multiplication_with_fraction() {
    expect_value("2 * 3.5", 7, 1);
}

#[test]
fn run_negated_group() {
    expect_value("-(1+2)", -3, 1);
}

#[test]
fn run_subtraction_right_association_forced_by_parens() {
    expect_value("1 - (2 - 3)", 2, 1);
}

#[test]
fn run_subtraction_left_associative() {
    expect_value("(1 - 2) - 3", -4, 1);
    expect_value("1 - 2 - 3", -4, 1);
}

#[test]
fn run_factor_binds_tighter_than_term() {
    expect_value("1 + 2 * 3", 7, 1);
}

#[test]
fn run_repeated_negation() {
    expect_value("--5", 5, 1);
}

#[test]
fn run_unary_binds_tighter_than_term() {
    // the '-' negates only its operand: (-1) + 2, not -(1 + 2)
    expect_value("-1 + 2", 1, 1);
    expect_value("-2 * 3", -6, 1);
}

#[test]
fn compile_error_runs_nothing() {
    let (result, value) = run_source("");
    assert_eq!(result, InterpretResult::CompileError);
    assert!(value.is_none());
}

#[test]
fn division_by_zero_is_runtime_error() {
    let (result, value) = run_source("1 / 0");
    assert_eq!(result, InterpretResult::RuntimeError);
    assert!(value.is_none());
}

#[test]
fn machine_is_reusable_after_errors() {
    let mut vm = VirtualMachine::new();
    let (r1, _) = vm.interpret("1 / 0");
    assert_eq!(r1, InterpretResult::RuntimeError);
    let (r2, _) = vm.interpret("(");
    assert_eq!(r2, InterpretResult::CompileError);
    let (r3, v3) = vm.interpret("1 + 1");
    assert_eq!(r3, InterpretResult::Success);
    assert!(v3.expect("a value").eq_rat(&Value::from_int(2)));
}

fn tiny_stack_machine(chunk: Chunk, capacity: usize) -> VirtualMachine {
    VirtualMachine { chunks: chunk, stack: VmStack::new(capacity), ip: 0 }
}

fn two_constant_add_chunk() -> Chunk {
    let mut chunk = Chunk::new();
    chunk.push_op_code(OpCode::Constant, 1);
    chunk.push_chunk(0, 1);
    chunk.push_op_code(OpCode::Constant, 1);
    chunk.push_chunk(1, 1);
    chunk.push_op_code(OpCode::Add, 1);
    chunk.push_op_code(OpCode::Return, 1);
    chunk.push_constant(Value::from_int(1));
    chunk.push_constant(Value::from_int(2));
    chunk
}

#[test]
fn stack_overflow_is_a_runtime_error() {
    // Two operands need two slots; a one-slot stack must refuse the
    // second push and halt, leaving memory intact.
    let mut vm = tiny_stack_machine(two_constant_add_chunk(), 1);
    let (result, value) = vm.run();
    assert_eq!(result, InterpretResult::RuntimeError);
    assert!(value.is_none());
}

#[test]
fn stack_overflow_outcome_is_deterministic() {
    let (r1, v1) = tiny_stack_machine(two_constant_add_chunk(), 1).run();
    let (r2, v2) = tiny_stack_machine(two_constant_add_chunk(), 1).run();
    assert_eq!(r1, r2);
    assert_eq!(v1.is_none(), v2.is_none());
    let (r3, _) = tiny_stack_machine(two_constant_add_chunk(), 2).run();
    assert_eq!(r3, InterpretResult::Success);
}

#[test]
fn constant_index_out_of_range_is_runtime_error() {
    let mut chunk = Chunk::new();
    chunk.push_op_code(OpCode::Constant, 1);
    chunk.push_chunk(5, 1);
    chunk.push_op_code(OpCode::Return, 1);
    let mut vm = tiny_stack_machine(chunk, 8);
    let (result, _) = vm.run();
    assert_eq!(result, InterpretResult::RuntimeError);
}

#[test]
fn empty_pop_is_runtime_error() {
    let mut chunk = Chunk::new();
    chunk.push_op_code(OpCode::Add, 1);
    chunk.push_op_code(OpCode::Return, 1);
    let mut vm = tiny_stack_machine(chunk, 8);
    let (result, _) = vm.run();
    assert_eq!(result, InterpretResult::RuntimeError);
}

#[test]
fn return_on_empty_stack_is_runtime_error() {
    let mut chunk = Chunk::new();
    chunk.push_op_code(OpCode::Return, 1);
    let mut vm = tiny_stack_machine(chunk, 8);
    let (result, _) = vm.run();
    assert_eq!(result, InterpretResult::RuntimeError);
}

#[test]
fn empty_chunk_halts_with_sentinel() {
    let mut vm = tiny_stack_machine(Chunk::new(), 8);
    let (result, value) = vm.run();
    assert_eq!(result, InterpretResult::Success);
    assert!(value.is_none());
}

#[test]
fn unknown_byte_decodes_to_sentinel_and_halts() {
    let mut chunk = Chunk::new();
    chunk.push_chunk(200, 1);
    chunk.push_op_code(OpCode::Return, 1);
    assert_eq!(chunk.get_op_code(0), OpCode::EOP);
    assert_eq!(chunk.get_op_code(7), OpCode::EOP);
    let mut vm = tiny_stack_machine(chunk, 8);
    let (result, value) = vm.run();
    assert_eq!(result, InterpretResult::Success);
    assert!(value.is_none());
}
