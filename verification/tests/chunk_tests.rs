use rlox::chunk::Chunk;
use rlox::chunk::OpCode;
use rlox::value::Value;

#[test]
fn disassemble_constant_and_return() {
    // A chunk holding [load-constant 0][return] over the pool [1.2]:
    // the report names a constant instruction at offset 0 referring to
    // the value 1.2, and a return instruction at offset 2.
    let mut chunk = Chunk::new();
    chunk.push_op_code(OpCode::Constant, 1);
    chunk.push_chunk(0, 1);
    chunk.push_op_code(OpCode::Return, 1);
    chunk.push_constant(Value::from_parts(12, 10));

    let listing = chunk.disassemble();
    assert_eq!(listing.len(), 2);

    assert_eq!(listing[0].offset, 0);
    assert_eq!(listing[0].op, OpCode::Constant);
    assert_eq!(listing[0].operand, Some(0));
    let pooled = listing[0].constant.expect("a pool value");
    assert!(pooled.eq_rat(&Value::from_parts(12, 10)));

    assert_eq!(listing[1].offset, 2);
    assert_eq!(listing[1].op, OpCode::Return);
    assert_eq!(listing[1].operand, None);
}

#[test]
fn disassemble_marks_repeated_lines() {
    let mut chunk = Chunk::new();
    chunk.push_op_code(OpCode::Negate, 3);
    chunk.push_op_code(OpCode::Negate, 3);
    chunk.push_op_code(OpCode::Return, 4);

    let listing = chunk.disassemble();
    assert_eq!(listing.len(), 3);
    assert_eq!(listing[0].line, 3);
    assert!(!listing[0].line_repeated);
    assert_eq!(listing[1].line, 3);
    assert!(listing[1].line_repeated);
    assert_eq!(listing[2].line, 4);
    assert!(!listing[2].line_repeated);
}

#[test]
fn push_constant_returns_new_slots() {
    let mut chunk = Chunk::new();
    assert_eq!(chunk.push_constant(Value::from_int(1)), 0);
    // the pool never deduplicates: a repeated literal takes a new slot
    assert_eq!(chunk.push_constant(Value::from_int(1)), 1);
    assert_eq!(chunk.constants_len(), 2);
    assert!(chunk.get_constant(0).is_some());
    assert!(chunk.get_constant(2).is_none());
}

#[test]
fn line_map_records_one_line_per_byte() {
    let mut chunk = Chunk::new();
    chunk.push_chunk(6, 7);
    chunk.push_chunk(6, 9);
    assert_eq!(chunk.line_at(0), Some(7));
    assert_eq!(chunk.line_at(1), Some(9));
    assert_eq!(chunk.line_at(2), None);
}

#[test]
fn decode_past_end_is_sentinel() {
    let mut chunk = Chunk::new();
    chunk.push_op_code(OpCode::Return, 1);
    assert_eq!(chunk.get_op_code(0), OpCode::Return);
    assert_eq!(chunk.get_op_code(1), OpCode::EOP);
    assert_eq!(chunk.get_op_code(100), OpCode::EOP);
}
