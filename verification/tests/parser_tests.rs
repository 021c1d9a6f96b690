use rlox::chunk::Chunk;
use rlox::chunk::OpCode;
use rlox::parser::Parser;
use rlox::scanner::Scanner;
use rlox::value::Value;

fn parse(source: &str) -> (bool, String, Chunk) {
    let chunks = Chunk::new();
    let scanner = Scanner::new(source);
    let mut parser = Parser::new(scanner, chunks);
    let parse_result = parser.parse();
    (parse_result, parser.last_error, parser.chunk)
}

#[test]
fn parse_empty_source() {
    let (result, last_error, _) = parse("");

    assert_eq!(result, false);
    assert_eq!(last_error, "[line 1] Error at end: Expect expression.")
}

#[test]
fn parse_one_constant() {
    let (result, _, chunks) = parse("42");

    let mut expected_chunks = Chunk::new();
    expected_chunks.push_op_code(OpCode::Constant, 1);
    expected_chunks.push_chunk(0, 1); // index of the constant
    expected_chunks.push_constant(Value::from_int(42));
    expected_chunks.push_op_code(OpCode::Return, 1);

    assert_eq!(result, true);
    assert_eq!(chunks, expected_chunks)
}

#[test]
fn parse_unclosed_group() {
    let (result, last_error, _) = parse("(1 + 2");
    assert_eq!(result, false);
    assert_eq!(last_error, "[line 1] Error at end: Expect ')' after expression.");
}

#[test]
fn parse_unexpected_character_message() {
    let (result, last_error, _) = parse("#");
    assert_eq!(result, false);
    assert_eq!(last_error, "[line 1] Error: Unexpected character.");
}

#[test]
fn parse_huge_literal_is_recoverable_error() {
    let (result, last_error, _) = parse("99999999999999999999999999");
    assert_eq!(result, false);
    assert_eq!(
        last_error,
        "[line 1] Error at '99999999999999999999999999': Invalid number literal."
    );
}

#[test]
fn parse_too_many_constants() {
    let mut source = String::from("1");
    for _ in 0..256 {
        source.push_str("+1");
    }
    let (result, last_error, _) = parse(source.as_str());
    assert_eq!(result, false);
    assert_eq!(last_error, "[line 1] Error at '1': Too many constants in one chunk");
}

#[test]
fn parse_empty_group() {
    let (result, last_error, _) = parse("()");
    assert_eq!(result, false);
    assert_eq!(last_error, "[line 1] Error at ')': Expect expression.");
}

#[test]
fn parse_reports_error_line() {
    let (result, last_error, _) = parse("1 +\n*");
    assert_eq!(result, false);
    assert_eq!(last_error, "[line 2] Error at '*': Expect expression.");
}

#[test]
fn parse_negation_emits_negate() {
    let (result, _, chunks) = parse("-7");

    let mut expected = Chunk::new();
    expected.push_op_code(OpCode::Constant, 1);
    expected.push_chunk(0, 1);
    expected.push_constant(Value::from_int(7));
    expected.push_op_code(OpCode::Negate, 1);
    expected.push_op_code(OpCode::Return, 1);

    assert_eq!(result, true);
    assert_eq!(chunks, expected);
}

#[test]
fn parse_subtraction_emits_operands_then_operator() {
    let (result, _, chunks) = parse("10 - 4");

    let mut expected = Chunk::new();
    expected.push_op_code(OpCode::Constant, 1);
    expected.push_chunk(0, 1);
    expected.push_constant(Value::from_int(10));
    expected.push_op_code(OpCode::Constant, 1);
    expected.push_chunk(1, 1);
    expected.push_constant(Value::from_int(4));
    expected.push_op_code(OpCode::Subtract, 1);
    expected.push_op_code(OpCode::Return, 1);

    assert_eq!(result, true);
    assert_eq!(chunks, expected);
}
