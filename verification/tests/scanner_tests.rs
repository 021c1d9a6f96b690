use rlox::scanner::Scanner;
use rlox::token::TokenType;

#[test]
fn scan_empty_source() {
    let source = "";
    let mut scanner = Scanner::new(source);
    let result = scanner.scan_token();
    assert_eq!(result.kind, TokenType::Eof);
}

#[test]
fn scan_unexpected_character() {
    let source = "#";
    let mut scanner = Scanner::new(source);

    let result = scanner.scan_token();
    assert_eq!(result.kind, TokenType::Error);
    assert_eq!(result.src, "Unexpected character.");

    let result = scanner.scan_token();
    assert_eq!(result.kind, TokenType::Eof);
}

#[test]
fn scan_whitespaces() {
    let source = "   \n\n // comment\n// comment two";
    let mut scanner = Scanner::new(source);
    let result = scanner.scan_token();
    assert_eq!(result.kind, TokenType::Eof);
}

#[test]
fn scan_identifier() {
    let ids = ["_", "_a", "x1", "hello"];
    let source = ids.join(" ");
    let mut scanner = Scanner::new(source.as_str());
    for i in 0..ids.len() {
        let result = scanner.scan_token();
        assert_eq!(result.kind, TokenType::Identifier);
        assert_eq!(result.src, ids[i]);
    }
    let result = scanner.scan_token();
    assert_eq!(result.kind, TokenType::Eof);
}

#[test]
fn scan_keywords() {
    let ids = [
        "and", "class", "else", "false", "for", "fun", "if", "nil", "or", "print", "return",
        "super", "this", "true", "var", "while",
    ];
    let tokens = [
        TokenType::And,
        TokenType::Class,
        TokenType::Else,
        TokenType::False,
        TokenType::For,
        TokenType::Fun,
        TokenType::If,
        TokenType::Nil,
        TokenType::Or,
        TokenType::Print,
        TokenType::Return,
        TokenType::Super,
        TokenType::This,
        TokenType::True,
        TokenType::Var,
        TokenType::While,
    ];
    let source = ids.join(" ");
    let mut scanner = Scanner::new(source.as_str());
    for i in 0..ids.len() {
        let result = scanner.scan_token();
        assert_eq!(result.kind, tokens[i]);
        assert_eq!(result.src, ids[i]);
    }
    let result = scanner.scan_token();
    assert_eq!(result.kind, TokenType::Eof);
}

#[test]
fn scan_symbols() {
    let ids = [
        "(", ")", "{", "}", ";", ",", ".", "-", "+", "/", "*", "!", "!=", "=", "==", "<", "<=",
        ">", ">=",
    ];
    let tokens = [
        TokenType::LeftParen,
        TokenType::RightParen,
        TokenType::LeftBrace,
        TokenType::RightBrace,
        TokenType::Semicolon,
        TokenType::Comma,
        TokenType::Dot,
        TokenType::Minus,
        TokenType::Plus,
        TokenType::Slash,
        TokenType::Star,
        TokenType::Bang,
        TokenType::BangEqual,
        TokenType::Equal,
        TokenType::EqualEqual,
        TokenType::Less,
        TokenType::LessEqual,
        TokenType::Greater,
        TokenType::GreaterEqual,
    ];
    let source = ids.join(" ");
    let mut scanner = Scanner::new(source.as_str());
    for i in 0..ids.len() {
        let result = scanner.scan_token();
        assert_eq!(result.kind, tokens[i]);
        assert_eq!(result.src, ids[i]);
    }
    let result = scanner.scan_token();
    assert_eq!(result.kind, TokenType::Eof);
}

#[test]
fn scan_number() {
    let nums = ["0", "42", "42.5"];
    let source = nums.join(" ");
    let mut scanner = Scanner::new(source.as_str());
    for i in 0..nums.len() {
        let result = scanner.scan_token();
        assert_eq!(result.kind, TokenType::Number);
        assert_eq!(result.src, nums[i]);
    }
    let result = scanner.scan_token();
    assert_eq!(result.kind, TokenType::Eof);
}

#[test]
fn scan_string() {
    let nums = [
        "\"\"",
        "\"hello world\"",
        "\"multi\nline\nstring\n\"",
        "\"Invalid string",
    ];
    let source = nums.join(" ");
    let mut scanner = Scanner::new(source.as_str());
    for i in 0..(nums.len() - 1) {
        let result = scanner.scan_token();
        assert_eq!(result.kind, TokenType::String);
        assert_eq!(result.src, nums[i]);
    }

    let result = scanner.scan_token();
    assert_eq!(result.kind, TokenType::Error);
    assert_eq!(result.src, "Unterminated string");

    let result = scanner.scan_token();
    assert_eq!(result.kind, TokenType::Eof);
}

#[test]
fn scan_lines() {
    let source = "var \"multi\nline\nstring\n\"";
    let mut scanner = Scanner::new(source);
    let result = scanner.scan_token();
    assert_eq!(result.kind, TokenType::Var);
    assert_eq!(result.line, 1);

    // every token carries the line its scan began on, a multi-line
    // string included; the scanner's counter still advances past the
    // embedded newlines, as the following token shows
    let result = scanner.scan_token();
    assert_eq!(result.kind, TokenType::String);
    assert_eq!(result.line, 1);

    let result = scanner.scan_token();
    assert_eq!(result.kind, TokenType::Eof);
    assert_eq!(result.line, 4);
}

#[test]
fn scan_comment_then_number_on_line_two() {
    let source = "// comment\n42";
    let mut scanner = Scanner::new(source);
    let result = scanner.scan_token();
    assert_eq!(result.kind, TokenType::Number);
    assert_eq!(result.src, "42");
    assert_eq!(result.line, 2);
    let result = scanner.scan_token();
    assert_eq!(result.kind, TokenType::Eof);
}

#[test]
fn scan_unterminated_string_single_error() {
    let source = "\"abc";
    let mut scanner = Scanner::new(source);
    let result = scanner.scan_token();
    assert_eq!(result.kind, TokenType::Error);
    assert_eq!(result.src, "Unterminated string");
    let result = scanner.scan_token();
    assert_eq!(result.kind, TokenType::Eof);
}

#[test]
fn scan_number_without_trailing_dot() {
    let source = "1.";
    let mut scanner = Scanner::new(source);
    let result = scanner.scan_token();
    assert_eq!(result.kind, TokenType::Number);
    assert_eq!(result.src, "1");
    let result = scanner.scan_token();
    assert_eq!(result.kind, TokenType::Dot);
    let result = scanner.scan_token();
    assert_eq!(result.kind, TokenType::Eof);
}
