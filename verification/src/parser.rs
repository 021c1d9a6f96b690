//! The compiler: single-pass precedence-climbing parsing that emits
//! bytecode straight into a [`Chunk`], with no intermediate tree.
//!
//! What is proved: the parser terminates on every input; it only ever
//! appends to the chunk, and the stream it builds is always well formed
//! ([`code_ok`]: every constant instruction carries its operand byte and
//! that byte indexes into the pool); compilation always appends a
//! trailing return instruction; `parse` reports success exactly when no
//! error was recorded, and a source with no expression at all fails with
//! `Expect expression.` at end of input; every successful handler emits
//! code; a binary handler's stream always ends in its operator's opcode;
//! a single literal, and a literal-operator-literal program, compile to
//! exactly their bytecode; and the first error is kept, formatted as
//! `[line L] Error< at end | at '<lexeme>' | >: <reason>` (the at-part is
//! empty for a lexical error, whose message is the whole reason), with
//! later cascading errors suppressed by panic mode.

use vstd::prelude::*;

use crate::chunk::Chunk;
use crate::chunk::Code;
use crate::chunk::OpCode;
use crate::chunk::spec_byte_op;
use crate::chunk::spec_op_byte;
use crate::scanner::Scanner;
use crate::scanner::ScanResult;
use crate::scanner::scan_spec;
use crate::token::Token;
use crate::token::TokenType;
use crate::value::Value;
use crate::value::is_number_lexeme;
use crate::value::lit_den;
use crate::value::lit_num;
use vstd::string::StringExecFns;

verus! {

/// The precedence ladder, lowest binding power first.
#[derive(Debug, PartialEq, Eq, Structural, Copy, Clone)]
#[allow(dead_code)]
pub enum Precedence {
    NonePrec,
    Assignment,
    Or,
    And,
    Equality,
    Comparison,
    Term,
    Factor,
    Unary,
    Call,
    Primary,
}

/// The parse handlers a token can declare for prefix and infix position.
#[derive(Debug, PartialEq, Eq, Structural, Copy, Clone)]
pub enum ParseFn {
    NoneFn,
    Grouping,
    Unary,
    Binary,
    Number,
}

/// One row of the dispatch table: prefix handler, infix handler, and the
/// infix binding precedence.
#[derive(Debug, PartialEq, Eq, Structural, Copy, Clone)]
pub struct ParseRule {
    pub prefix: ParseFn,
    pub infix: ParseFn,
    pub precedence: Precedence,
}

/// A precedence level's position on the ladder.
pub open spec fn spec_prec_rank(p: Precedence) -> u8 {
    match p {
        Precedence::NonePrec => 0,
        Precedence::Assignment => 1,
        Precedence::Or => 2,
        Precedence::And => 3,
        Precedence::Equality => 4,
        Precedence::Comparison => 5,
        Precedence::Term => 6,
        Precedence::Factor => 7,
        Precedence::Unary => 8,
        Precedence::Call => 9,
        Precedence::Primary => 10,
    }
}

/// A precedence level's position on the ladder, for executable
/// comparisons.
pub fn prec_rank(p: Precedence) -> (r: u8)
    ensures
        r == spec_prec_rank(p),
{
    match p {
        Precedence::NonePrec => 0,
        Precedence::Assignment => 1,
        Precedence::Or => 2,
        Precedence::And => 3,
        Precedence::Equality => 4,
        Precedence::Comparison => 5,
        Precedence::Term => 6,
        Precedence::Factor => 7,
        Precedence::Unary => 8,
        Precedence::Call => 9,
        Precedence::Primary => 10,
    }
}

/// The successor of a precedence level; the ceiling is its own successor.
pub open spec fn spec_next_prec(p: Precedence) -> Precedence {
    match p {
        Precedence::NonePrec => Precedence::Assignment,
        Precedence::Assignment => Precedence::Or,
        Precedence::Or => Precedence::And,
        Precedence::And => Precedence::Equality,
        Precedence::Equality => Precedence::Comparison,
        Precedence::Comparison => Precedence::Term,
        Precedence::Term => Precedence::Factor,
        Precedence::Factor => Precedence::Unary,
        Precedence::Unary => Precedence::Call,
        Precedence::Call => Precedence::Primary,
        Precedence::Primary => Precedence::Primary,
    }
}

impl ParseRule {
    pub fn new(prefix: ParseFn, infix: ParseFn, precedence: Precedence) -> (r: ParseRule)
        ensures
            r == (ParseRule { prefix, infix, precedence }),
    {
        ParseRule { prefix, infix, precedence }
    }

    /// The precedence one step above this rule's own, with the top level
    /// mapping to itself.
    pub fn get_next_precedence(&self) -> (r: Precedence)
        ensures
            r == spec_next_prec(self.precedence),
    {
        match self.precedence {
            Precedence::NonePrec => Precedence::Assignment,
            Precedence::Assignment => Precedence::Or,
            Precedence::Or => Precedence::And,
            Precedence::And => Precedence::Equality,
            Precedence::Equality => Precedence::Comparison,
            Precedence::Comparison => Precedence::Term,
            Precedence::Term => Precedence::Factor,
            Precedence::Factor => Precedence::Unary,
            Precedence::Unary => Precedence::Call,
            Precedence::Call => Precedence::Primary,
            Precedence::Primary => Precedence::Primary,
        }
    }
}

/// The dispatch table: which handlers and which infix precedence each
/// token category declares. Only `(` , `-`, `+`, `/`, `*` and number
/// literals take part in expressions today.
pub open spec fn spec_rule(kind: TokenType) -> ParseRule {
    match kind {
        TokenType::LeftParen => ParseRule {
            prefix: ParseFn::Grouping,
            infix: ParseFn::NoneFn,
            precedence: Precedence::NonePrec,
        },
        TokenType::Minus => ParseRule {
            prefix: ParseFn::Unary,
            infix: ParseFn::Binary,
            precedence: Precedence::Term,
        },
        TokenType::Plus => ParseRule {
            prefix: ParseFn::NoneFn,
            infix: ParseFn::Binary,
            precedence: Precedence::Term,
        },
        TokenType::Slash => ParseRule {
            prefix: ParseFn::NoneFn,
            infix: ParseFn::Binary,
            precedence: Precedence::Factor,
        },
        TokenType::Star => ParseRule {
            prefix: ParseFn::NoneFn,
            infix: ParseFn::Binary,
            precedence: Precedence::Factor,
        },
        TokenType::Number => ParseRule {
            prefix: ParseFn::Number,
            infix: ParseFn::NoneFn,
            precedence: Precedence::NonePrec,
        },
        _ => ParseRule {
            prefix: ParseFn::NoneFn,
            infix: ParseFn::NoneFn,
            precedence: Precedence::NonePrec,
        },
    }
}

/// The instruction a binary-operator token stands for; `None` for tokens
/// that are no binary operator.
pub open spec fn bin_opcode(kind: TokenType) -> Option<OpCode> {
    match kind {
        TokenType::Plus => Some(OpCode::Add),
        TokenType::Minus => Some(OpCode::Subtract),
        TokenType::Star => Some(OpCode::Multiply),
        TokenType::Slash => Some(OpCode::Divide),
        _ => None,
    }
}

/// A valid instruction stream from position `i` on: every constant
/// instruction is followed by an operand byte that indexes into a pool of
/// `nconsts` values; every other byte stands alone.
pub open spec fn code_ok(code: Seq<u8>, nconsts: int, i: int) -> bool
    decreases code.len() - i,
{
    if i < 0 || i >= code.len() {
        true
    } else if spec_byte_op(code[i]) == OpCode::Constant {
        &&& i + 1 < code.len()
        &&& (code[i + 1] as int) < nconsts
        &&& code_ok(code, nconsts, i + 2)
    } else {
        code_ok(code, nconsts, i + 1)
    }
}

/// Appending a plain (non-constant) instruction byte keeps the stream
/// valid.
pub proof fn lemma_code_ok_append_simple(code: Seq<u8>, nconsts: int, i: int, b: u8)
    requires
        code_ok(code, nconsts, i),
        spec_byte_op(b) != OpCode::Constant,
        i <= code.len(),
    ensures
        code_ok(code + seq![b], nconsts, i),
    decreases code.len() - i,
{
    let new = code + seq![b];
    if i < 0 {
    } else if i >= code.len() {
        assert(new[i] == b);
        assert(code_ok(new, nconsts, i + 1));
    } else {
        assert(new[i] == code[i]);
        if spec_byte_op(code[i]) == OpCode::Constant {
            assert(new[i + 1] == code[i + 1]);
            lemma_code_ok_append_simple(code, nconsts, i + 2, b);
        } else {
            lemma_code_ok_append_simple(code, nconsts, i + 1, b);
        }
    }
}

/// Appending a constant instruction with an in-range operand keeps the
/// stream valid.
pub proof fn lemma_code_ok_append_const(code: Seq<u8>, nconsts: int, i: int, opb: u8, idx: u8)
    requires
        code_ok(code, nconsts, i),
        spec_byte_op(opb) == OpCode::Constant,
        (idx as int) < nconsts,
        i <= code.len(),
    ensures
        code_ok(code + seq![opb, idx], nconsts, i),
    decreases code.len() - i,
{
    let new = code + seq![opb, idx];
    if i < 0 {
    } else if i == code.len() {
        assert(new[i] == opb);
        assert(new[i + 1] == idx);
        assert(code_ok(new, nconsts, i + 2));
    } else {
        assert(new[i] == code[i]);
        if spec_byte_op(code[i]) == OpCode::Constant {
            assert(new[i + 1] == code[i + 1]);
            lemma_code_ok_append_const(code, nconsts, i + 2, opb, idx);
        } else {
            lemma_code_ok_append_const(code, nconsts, i + 1, opb, idx);
        }
    }
}

/// A stream valid against a pool stays valid when the pool grows.
pub proof fn lemma_code_ok_more_consts(code: Seq<u8>, n1: int, n2: int, i: int)
    requires
        code_ok(code, n1, i),
        n1 <= n2,
    ensures
        code_ok(code, n2, i),
    decreases code.len() - i,
{
    if 0 <= i && i < code.len() {
        if spec_byte_op(code[i]) == OpCode::Constant {
            lemma_code_ok_more_consts(code, n1, n2, i + 2);
        } else {
            lemma_code_ok_more_consts(code, n1, n2, i + 1);
        }
    }
}

/// The character spelling one decimal digit.
pub open spec fn spec_digit_char(d: int) -> char {
    if d == 0 {
        '0'
    } else if d == 1 {
        '1'
    } else if d == 2 {
        '2'
    } else if d == 3 {
        '3'
    } else if d == 4 {
        '4'
    } else if d == 5 {
        '5'
    } else if d == 6 {
        '6'
    } else if d == 7 {
        '7'
    } else if d == 8 {
        '8'
    } else {
        '9'
    }
}

/// The decimal spelling of a number, most significant digit first.
pub open spec fn spec_dec(n: nat) -> Seq<char>
    decreases n,
{
    if n < 10 {
        seq![spec_digit_char(n as int)]
    } else {
        spec_dec(n / 10) + seq![spec_digit_char((n % 10) as int)]
    }
}

/// The characters of the collected digits, last collected first; digits
/// are collected least significant first, so this reads most significant
/// first.
pub open spec fn rev_chars(ds: Seq<usize>) -> Seq<char>
    decreases ds.len(),
{
    if ds.len() == 0 {
        Seq::empty()
    } else {
        seq![spec_digit_char(ds.last() as int)] + rev_chars(ds.drop_last())
    }
}

/// Peeling one digit off the front of the remaining suffix appends its
/// character to the rendered text.
proof fn lemma_rev_chars_skip(ds: Seq<usize>, k: int)
    requires
        0 <= k < ds.len(),
    ensures
        rev_chars(ds.skip(k)) == rev_chars(ds.skip(k + 1)) + seq![spec_digit_char(ds[k] as int)],
    decreases ds.len() - k,
{
    if k == ds.len() - 1 {
        assert(ds.skip(k) =~= seq![ds[k]]);
        assert(ds.skip(k + 1) =~= Seq::<usize>::empty());
        assert(ds.skip(k).drop_last() =~= Seq::<usize>::empty());
        assert(rev_chars(ds.skip(k)) =~= rev_chars(ds.skip(k + 1)) + seq![spec_digit_char(
            ds[k] as int,
        )]);
    } else {
        let dl = ds.drop_last();
        lemma_rev_chars_skip(dl, k);
        assert(ds.skip(k).drop_last() =~= dl.skip(k));
        assert(ds.skip(k + 1).drop_last() =~= dl.skip(k + 1));
        assert(ds.skip(k).last() == ds.last());
        assert(ds.skip(k + 1).last() == ds.last());
        assert(dl[k] == ds[k]);
        assert(rev_chars(ds.skip(k)) == seq![spec_digit_char(ds.last() as int)] + rev_chars(
            dl.skip(k),
        ));
        assert(rev_chars(ds.skip(k + 1)) == seq![spec_digit_char(ds.last() as int)] + rev_chars(
            dl.skip(k + 1),
        ));
        assert((seq![spec_digit_char(ds.last() as int)] + (rev_chars(dl.skip(k + 1)) + seq![
            spec_digit_char(dl[k] as int),
        ])) =~= (seq![spec_digit_char(ds.last() as int)] + rev_chars(dl.skip(k + 1))) + seq![
            spec_digit_char(ds[k] as int),
        ]);
    }
}

/// Renders a number in decimal; proved to spell [`spec_dec`].
#[verifier::loop_isolation(false)]
pub fn dec_usize(n: usize) -> (s: String)
    ensures
        s@ == spec_dec(n as nat),
{
    proof {
        reveal_strlit("0");
        reveal_strlit("1");
        reveal_strlit("2");
        reveal_strlit("3");
        reveal_strlit("4");
        reveal_strlit("5");
        reveal_strlit("6");
        reveal_strlit("7");
        reveal_strlit("8");
        reveal_strlit("9");
    }
    let mut digits: Vec<usize> = Vec::new();
    let mut m: usize = n;
    digits.push(m % 10);
    proof {
        assert(digits@.drop_last() =~= Seq::<usize>::empty());
        assert(rev_chars(Seq::<usize>::empty()) == Seq::<char>::empty());
        if n < 10 {
            assert(spec_dec(n as nat) =~= rev_chars(digits@));
        } else {
            assert(spec_dec(n as nat) =~= spec_dec((n / 10) as nat) + rev_chars(digits@));
        }
    }
    m = m / 10;
    while m > 0
        invariant
            digits@.len() >= 1,
            m == 0 ==> spec_dec(n as nat) == rev_chars(digits@),
            m > 0 ==> spec_dec(n as nat) == spec_dec(m as nat) + rev_chars(digits@),
        decreases m,
    {
        let ghost before = digits@;
        digits.push(m % 10);
        proof {
            assert(digits@.drop_last() =~= before);
            if m < 10 {
                assert(spec_dec(m as nat) =~= seq![spec_digit_char((m % 10) as int)]);
                assert(spec_dec(n as nat) =~= rev_chars(digits@));
            } else {
                assert(spec_dec(m as nat) == spec_dec((m / 10) as nat) + seq![spec_digit_char(
                    (m % 10) as int,
                )]);
                assert(spec_dec((m / 10) as nat) + (seq![spec_digit_char((m % 10) as int)]
                    + rev_chars(before)) =~= (spec_dec((m / 10) as nat) + seq![spec_digit_char(
                    (m % 10) as int,
                )]) + rev_chars(before));
                assert(spec_dec(n as nat) == spec_dec((m / 10) as nat) + rev_chars(digits@));
            }
        }
        m = m / 10;
    }
    let mut out = String::new();
    let mut k: usize = digits.len();
    proof {
        assert(digits@.skip(k as int) =~= Seq::<usize>::empty());
    }
    while k > 0
        invariant
            k <= digits@.len(),
            out@ == rev_chars(digits@.skip(k as int)),
        decreases k,
    {
        k = k - 1;
        proof {
            lemma_rev_chars_skip(digits@, k as int);
        }
        let d = digits[k];
        if d == 0 {
            out.append("0");
        } else if d == 1 {
            out.append("1");
        } else if d == 2 {
            out.append("2");
        } else if d == 3 {
            out.append("3");
        } else if d == 4 {
            out.append("4");
        } else if d == 5 {
            out.append("5");
        } else if d == 6 {
            out.append("6");
        } else if d == 7 {
            out.append("7");
        } else if d == 8 {
            out.append("8");
        } else {
            out.append("9");
        }
    }
    proof {
        assert(digits@.skip(0) =~= digits@);
    }
    out
}

/// The ` at …` part of an error report: ` at end` for the end of input,
/// nothing for a lexical error token (whose message is the whole reason),
/// else the offending lexeme in quotes.
pub open spec fn spec_error_at_part(kind: TokenType, lexeme: Seq<char>) -> Seq<char> {
    if kind == TokenType::Eof {
        " at end"@
    } else if kind == TokenType::Error {
        Seq::empty()
    } else {
        " at '"@ + lexeme + "'"@
    }
}

/// The full error report: `[line L] Error< at …>: <reason>`.
pub open spec fn spec_error_message(line: nat, at: Seq<char>, msg: Seq<char>) -> Seq<char> {
    "[line "@ + spec_dec(line) + "] Error"@ + at + ": "@ + msg
}

/// The single-pass compiler: pulls tokens from its scanner and emits
/// bytecode into its chunk. It owns both; after a successful parse the
/// caller takes the chunk and hands it to the virtual machine.
pub struct Parser<'a> {
    pub scanner: Scanner<'a>,
    pub previous: Token<'a>,
    pub current: Token<'a>,
    pub had_error: bool,
    pub panic_mode: bool,
    pub chunk: Chunk,
    pub last_error: String,
}

/// The termination measure: characters the scanner has not consumed,
/// weighted so that turning the lookahead token into `Eof` also counts as
/// progress.
pub open spec fn parser_measure(p: Parser) -> int {
    (p.scanner.source@.len() - p.scanner.current) * 2 + if p.current.kind == TokenType::Eof {
        0int
    } else {
        1int
    }
}

/// The compiler only appends: everything already emitted — instruction
/// bytes and pooled constants — stays in place.
pub open spec fn chunk_extends(pre: Chunk, post: Chunk) -> bool {
    &&& pre.code@.len() <= post.code@.len()
    &&& forall|i: int| 0 <= i < pre.code@.len() ==> #[trigger] post.code@[i] == pre.code@[i]
    &&& pre.constants_view().len() <= post.constants_view().len()
    &&& forall|i: int|
        0 <= i < pre.constants_view().len() ==> #[trigger] post.constants_view()[i]
            == pre.constants_view()[i]
}

/// What every parsing step preserves: the source text, the shrinking
/// measure, the first recorded error, and everything already emitted.
pub open spec fn parser_frame(pre: Parser, post: Parser) -> bool {
    &&& post.scanner.source == pre.scanner.source
    &&& parser_measure(post) <= parser_measure(pre)
    &&& (pre.had_error ==> post.had_error && post.last_error == pre.last_error)
    &&& chunk_extends(pre.chunk, post.chunk)
}

/// The parser's lookahead is the end of input, with the scanner resting
/// there and no error recorded: the situation the empty source (or one
/// holding only whitespace and comments) puts the parser in.
pub open spec fn at_end_case(p: Parser) -> bool {
    &&& p.current.kind == TokenType::Eof
    &&& p.scanner.current == p.scanner.source@.len()
    &&& !p.had_error
}

/// The parser is looking at a numeric literal that fits 64 bits, the
/// token after it does not bind at `precedence`, and no error has been
/// recorded: the situation a source holding one literal puts the parser
/// in.
pub open spec fn single_number_case(p: Parser, precedence: Precedence) -> bool {
    let t2 = scan_spec(p.scanner.source@, p.scanner.current as int, p.scanner.line as int);
    let lex = p.current.src@;
    &&& p.current.kind == TokenType::Number
    &&& t2.kind != TokenType::Error
    &&& spec_prec_rank(spec_rule(t2.kind).precedence) < spec_prec_rank(precedence)
    &&& !p.had_error
    &&& is_number_lexeme(lex)
    &&& lit_num(lex) <= i64::MAX
    &&& lit_den(lex) <= i64::MAX
    &&& p.chunk.constants_view().len() <= 255
}

/// What parsing that situation produces: exactly one load-constant
/// instruction naming a fresh pool slot that holds the literal's exact
/// value, no error, and the lookahead moved to the following token.
pub open spec fn single_number_result(pre: Parser, post: Parser) -> bool {
    let t2 = scan_spec(pre.scanner.source@, pre.scanner.current as int, pre.scanner.line as int);
    let lex = pre.current.src@;
    &&& post.had_error == false
    &&& post.chunk.code@ == pre.chunk.code@ + seq![
        spec_op_byte(OpCode::Constant),
        pre.chunk.constants_view().len() as u8,
    ]
    &&& post.chunk.constants_view() == pre.chunk.constants_view() + seq![
        (Value { num: lit_num(lex) as i64, den: lit_den(lex) as i64 }),
    ]
    &&& post.chunk.lines_view() == pre.chunk.lines_view() + seq![
        pre.current.line,
        pre.current.line,
    ]
    &&& post.current.kind == t2.kind
    &&& post.current.line as int == t2.line
    &&& post.scanner.current as int == t2.end
    &&& post.scanner.line as int == t2.after_line
    &&& post.last_error == pre.last_error
}

/// The three tokens the scanner would produce after the parser's current
/// lookahead: used to describe a literal, an operator and a second
/// literal standing in a row.
pub open spec fn nn_tokens(p: Parser) -> (ScanResult, ScanResult, ScanResult) {
    let t2 = scan_spec(p.scanner.source@, p.scanner.current as int, p.scanner.line as int);
    let t3 = scan_spec(p.scanner.source@, t2.end, t2.after_line);
    let t4 = scan_spec(p.scanner.source@, t3.end, t3.after_line);
    (t2, t3, t4)
}

/// The parser is looking at a numeric literal, then a binary operator
/// that binds at `precedence`, then a second literal, then a token that
/// stops the climb at both levels; both literals fit 64 bits, no error is
/// recorded, and the pool has room for two more values.
pub open spec fn number_op_number_case(p: Parser, precedence: Precedence) -> bool {
    let (t2, t3, t4) = nn_tokens(p);
    let lex1 = p.current.src@;
    let lex2 = p.scanner.source@.subrange(t3.start, t3.end);
    &&& p.current.kind == TokenType::Number
    &&& is_number_lexeme(lex1)
    &&& lit_num(lex1) <= i64::MAX
    &&& lit_den(lex1) <= i64::MAX
    &&& bin_opcode(t2.kind) is Some
    &&& spec_prec_rank(spec_rule(t2.kind).precedence) >= spec_prec_rank(precedence)
    &&& t3.kind == TokenType::Number
    &&& is_number_lexeme(lex2)
    &&& lit_num(lex2) <= i64::MAX
    &&& lit_den(lex2) <= i64::MAX
    &&& t4.kind != TokenType::Error
    &&& spec_prec_rank(spec_rule(t4.kind).precedence) < spec_prec_rank(precedence)
    &&& spec_prec_rank(spec_rule(t4.kind).precedence) < spec_prec_rank(
        spec_next_prec(spec_rule(t2.kind).precedence),
    )
    &&& !p.had_error
    &&& p.chunk.constants_view().len() <= 254
}

/// What parsing that situation produces: both literals loaded in order,
/// the operator's instruction after them — the left operand is emitted
/// first — no error, and the lookahead moved to the stopping token.
pub open spec fn number_op_number_result(pre: Parser, post: Parser) -> bool {
    let (t2, t3, t4) = nn_tokens(pre);
    let lex1 = pre.current.src@;
    let lex2 = pre.scanner.source@.subrange(t3.start, t3.end);
    let n = pre.chunk.constants_view().len();
    &&& post.chunk.code@ == pre.chunk.code@ + seq![
        spec_op_byte(OpCode::Constant),
        n as u8,
        spec_op_byte(OpCode::Constant),
        (n + 1) as u8,
        spec_op_byte(bin_opcode(t2.kind)->Some_0),
    ]
    &&& post.chunk.constants_view() == pre.chunk.constants_view() + seq![
        (Value { num: lit_num(lex1) as i64, den: lit_den(lex1) as i64 }),
        (Value { num: lit_num(lex2) as i64, den: lit_den(lex2) as i64 }),
    ]
    &&& post.had_error == false
    &&& post.current.kind == t4.kind
    &&& post.scanner.current as int == t4.end
    &&& post.scanner.line as int == t4.after_line
    &&& post.last_error == pre.last_error
}

/// The halfway state of that situation: the first literal compiled, the
/// operator not yet consumed.
pub open spec fn number_op_number_mid(pre: Parser, cur: Parser) -> bool {
    let (t2, t3, t4) = nn_tokens(pre);
    let lex1 = pre.current.src@;
    let n = pre.chunk.constants_view().len();
    &&& cur.chunk.code@ == pre.chunk.code@ + seq![spec_op_byte(OpCode::Constant), n as u8]
    &&& cur.chunk.constants_view() == pre.chunk.constants_view() + seq![
        (Value { num: lit_num(lex1) as i64, den: lit_den(lex1) as i64 }),
    ]
    &&& cur.had_error == false
    &&& cur.current.kind == t2.kind
    &&& cur.scanner.current as int == t2.end
    &&& cur.scanner.line as int == t2.after_line
    &&& cur.last_error == pre.last_error
    &&& cur.scanner.source == pre.scanner.source
}

impl<'a> Parser<'a> {
    /// The scanner and chunk are consistent, the chunk's instruction
    /// stream is valid against its pool, and the error flag and panic
    /// flag move together.
    pub open spec fn wf(self) -> bool {
        &&& self.scanner.wf()
        &&& self.chunk.wf()
        &&& code_ok(self.chunk.code@, self.chunk.constants_view().len() as int, 0)
        &&& self.had_error == self.panic_mode
    }

    pub fn new(scanner: Scanner<'a>, chunk: Chunk) -> (p: Self)
        requires
            scanner.wf(),
            chunk.wf(),
            code_ok(chunk.code@, chunk.constants_view().len() as int, 0),
        ensures
            p.wf(),
            p.scanner == scanner,
            p.chunk == chunk,
            !p.had_error,
            !p.panic_mode,
            p.previous.kind == TokenType::Init,
            p.current.kind == TokenType::Init,
            p.last_error@ == Seq::<char>::empty(),
    {
        Parser {
            previous: Token::default(),
            current: Token::default(),
            scanner,
            had_error: false,
            panic_mode: false,
            chunk,
            last_error: String::new(),
        }
    }

    /// Records an error at the given token, unless panic mode already
    /// suppresses reports; the first error's text is kept in `last_error`.
    fn error_at(&mut self, token: Token<'a>, message: &str)
        requires
            old(self).wf(),
        ensures
            final(self).wf(),
            parser_frame(*old(self), *final(self)),
            final(self).scanner == old(self).scanner,
            final(self).current == old(self).current,
            final(self).previous == old(self).previous,
            final(self).chunk == old(self).chunk,
            old(self).panic_mode ==> *final(self) == *old(self),
            !old(self).panic_mode ==> final(self).had_error && final(self).panic_mode
                && final(self).last_error@ == spec_error_message(
                token.line as nat,
                spec_error_at_part(token.kind, token.src@),
                message@,
            ),
    {
        if self.panic_mode {
            return ;
        }
        self.panic_mode = true;
        self.had_error = true;

        let mut msg = String::new();
        msg.append("[line ");
        let line_text = dec_usize(token.line);
        msg.append(line_text.as_str());
        msg.append("] Error");
        if token.kind == TokenType::Eof {
            msg.append(" at end");
        } else if token.kind == TokenType::Error {
            // the scanner's message carries the whole reason
        } else {
            msg.append(" at '");
            msg.append(token.src);
            msg.append("'");
        }
        msg.append(": ");
        msg.append(message);
        proof {
            assert(msg@ =~= spec_error_message(
                token.line as nat,
                spec_error_at_part(token.kind, token.src@),
                message@,
            ));
        }
        self.last_error = msg;
    }

    /// Reports an error at the lookahead token: the one that was expected
    /// to be something else and has not been consumed.
    fn error_at_current(&mut self, message: &str)
        requires
            old(self).wf(),
        ensures
            final(self).wf(),
            parser_frame(*old(self), *final(self)),
            final(self).scanner == old(self).scanner,
            final(self).current == old(self).current,
            final(self).previous == old(self).previous,
            final(self).chunk == old(self).chunk,
            final(self).had_error,
            old(self).panic_mode ==> *final(self) == *old(self),
            !old(self).panic_mode ==> final(self).last_error@ == spec_error_message(
                old(self).current.line as nat,
                spec_error_at_part(old(self).current.kind, old(self).current.src@),
                message@,
            ),
    {
        let token = self.current;
        self.error_at(token, message)
    }

    /// Shifts the lookahead into `previous` and pulls the next token,
    /// surfacing any scanner error tokens as compile errors on the way.
    #[verifier::loop_isolation(false)]
    fn advance(&mut self)
        requires
            old(self).wf(),
        ensures
            final(self).wf(),
            parser_frame(*old(self), *final(self)),
            final(self).chunk == old(self).chunk,
            final(self).previous == old(self).current,
            final(self).current.kind != TokenType::Error,
            (old(self).current.kind != TokenType::Eof || final(self).current.kind
                != TokenType::Eof) ==> parser_measure(*final(self)) < parser_measure(*old(self)),
            ({
                let t = scan_spec(
                    old(self).scanner.source@,
                    old(self).scanner.current as int,
                    old(self).scanner.line as int,
                );
                t.kind != TokenType::Error ==> {
                    &&& final(self).current.kind == t.kind
                    &&& final(self).current.src@ == old(self).scanner.source@.subrange(
                        t.start,
                        t.end,
                    )
                    &&& final(self).current.line as int == t.line
                    &&& final(self).scanner.current as int == t.end
                    &&& final(self).scanner.line as int == t.after_line
                    &&& final(self).had_error == old(self).had_error
                    &&& final(self).panic_mode == old(self).panic_mode
                    &&& final(self).last_error == old(self).last_error
                }
            }),
    {
        self.previous = self.current;
        let ghost p0 = self.scanner.current as int;
        let ghost l0 = self.scanner.line as int;
        let ghost t = scan_spec(self.scanner.source@, p0, l0);
        let mut tok = self.scanner.scan_token();
        while tok.kind == TokenType::Error
            invariant
                self.wf(),
                self.scanner.source == old(self).scanner.source,
                self.chunk == old(self).chunk,
                self.previous == old(self).current,
                self.current == old(self).current,
                p0 <= self.scanner.current,
                tok.kind != TokenType::Eof ==> p0 < self.scanner.current,
                tok.kind == TokenType::Eof ==> self.scanner.current == self.scanner.source@.len(),
                old(self).had_error ==> self.had_error && self.last_error == old(self).last_error,
                t.kind != TokenType::Error ==> {
                    &&& tok.kind == t.kind
                    &&& tok.src@ == old(self).scanner.source@.subrange(t.start, t.end)
                    &&& tok.line as int == t.line
                    &&& self.scanner.current as int == t.end
                    &&& self.scanner.line as int == t.after_line
                    &&& self.had_error == old(self).had_error
                    &&& self.panic_mode == old(self).panic_mode
                    &&& self.last_error == old(self).last_error
                },
            decreases (self.scanner.source@.len() - self.scanner.current) * 2 + (if tok.kind
                == TokenType::Error {
                1int
            } else {
                0int
            }),
        {
            let msg = tok.src;
            self.error_at(tok, msg);
            tok = self.scanner.scan_token();
        }
        self.current = tok;
        proof {
            let len = self.scanner.source@.len() as int;
            let pos = self.scanner.current as int;
            if tok.kind == TokenType::Eof {
                assert(parser_measure(*self) == 0);
                assert(parser_measure(*old(self)) >= (len - p0) * 2);
            } else {
                assert(p0 + 1 <= pos);
                assert(parser_measure(*self) <= (len - p0 - 1) * 2 + 1);
                assert(parser_measure(*old(self)) >= (len - p0) * 2);
            }
        }
    }

    /// Appends one plain instruction byte at the line of the token just
    /// consumed.
    fn emit_byte(&mut self, byte: Code)
        requires
            old(self).wf(),
            spec_byte_op(byte) != OpCode::Constant,
        ensures
            final(self).wf(),
            parser_frame(*old(self), *final(self)),
            *final(self) == (Parser { chunk: final(self).chunk, ..*old(self) }),
            final(self).chunk.code@ == old(self).chunk.code@ + seq![byte],
            final(self).chunk.constants_view() == old(self).chunk.constants_view(),
            final(self).chunk.lines_view() == old(self).chunk.lines_view() + seq![
                old(self).previous.line,
            ],
    {
        proof {
            lemma_code_ok_append_simple(
                self.chunk.code@,
                self.chunk.constants_view().len() as int,
                0,
                byte,
            );
        }
        let line = self.previous.line;
        self.chunk.push_chunk(byte, line);
    }

    /// Appends a constant instruction: its opcode byte and an operand byte
    /// that indexes into the pool.
    fn emit_bytes(&mut self, byte1: Code, byte2: Code)
        requires
            old(self).wf(),
            spec_byte_op(byte1) == OpCode::Constant,
            (byte2 as int) < old(self).chunk.constants_view().len(),
        ensures
            final(self).wf(),
            parser_frame(*old(self), *final(self)),
            *final(self) == (Parser { chunk: final(self).chunk, ..*old(self) }),
            final(self).chunk.code@ == old(self).chunk.code@ + seq![byte1, byte2],
            final(self).chunk.constants_view() == old(self).chunk.constants_view(),
            final(self).chunk.lines_view() == old(self).chunk.lines_view() + seq![
                old(self).previous.line,
                old(self).previous.line,
            ],
    {
        proof {
            lemma_code_ok_append_const(
                self.chunk.code@,
                self.chunk.constants_view().len() as int,
                0,
                byte1,
                byte2,
            );
        }
        let line = self.previous.line;
        self.chunk.push_chunk(byte1, line);
        self.chunk.push_chunk(byte2, line);
        proof {
            assert(self.chunk.code@ =~= old(self).chunk.code@ + seq![byte1, byte2]);
            assert(self.chunk.lines_view() =~= old(self).chunk.lines_view() + seq![
                old(self).previous.line,
                old(self).previous.line,
            ]);
        }
    }

    /// Seals the compiled program with a trailing return instruction.
    fn end(&mut self)
        requires
            old(self).wf(),
        ensures
            final(self).wf(),
            parser_frame(*old(self), *final(self)),
            *final(self) == (Parser { chunk: final(self).chunk, ..*old(self) }),
            final(self).chunk.code@ == old(self).chunk.code@ + seq![
                spec_op_byte(OpCode::Return),
            ],
            final(self).chunk.constants_view() == old(self).chunk.constants_view(),
            final(self).chunk.lines_view() == old(self).chunk.lines_view() + seq![
                old(self).previous.line,
            ],
    {
        let b = crate::chunk::op_to_byte(OpCode::Return);
        self.emit_byte(b);
    }

    /// Consumes the lookahead when it has the expected category, else
    /// reports the given message.
    fn consume(&mut self, kind: TokenType, message: &str)
        requires
            old(self).wf(),
        ensures
            final(self).wf(),
            parser_frame(*old(self), *final(self)),
            final(self).chunk == old(self).chunk,
            old(self).current.kind != kind ==> final(self).had_error,
            old(self).current.kind == kind ==> final(self).previous == old(self).current,
            ({
                let t = scan_spec(
                    old(self).scanner.source@,
                    old(self).scanner.current as int,
                    old(self).scanner.line as int,
                );
                (old(self).current.kind == kind && t.kind != TokenType::Error)
                    ==> final(self).had_error == old(self).had_error && final(self).last_error
                    == old(self).last_error
            }),
    {
        if self.current.kind == kind {
            self.advance()
        } else {
            self.error_at_current(message)
        }
    }

    /// The dispatch row for a token category; agrees with [`spec_rule`].
    fn get_rule(&self, token_type: TokenType) -> (r: ParseRule)
        ensures
            r == spec_rule(token_type),
    {
        match token_type {
            TokenType::LeftParen => ParseRule::new(
                ParseFn::Grouping,
                ParseFn::NoneFn,
                Precedence::NonePrec,
            ),
            TokenType::Minus => ParseRule::new(ParseFn::Unary, ParseFn::Binary, Precedence::Term),
            TokenType::Plus => ParseRule::new(ParseFn::NoneFn, ParseFn::Binary, Precedence::Term),
            TokenType::Slash => ParseRule::new(
                ParseFn::NoneFn,
                ParseFn::Binary,
                Precedence::Factor,
            ),
            TokenType::Star => ParseRule::new(ParseFn::NoneFn, ParseFn::Binary, Precedence::Factor),
            TokenType::Number => ParseRule::new(
                ParseFn::Number,
                ParseFn::NoneFn,
                Precedence::NonePrec,
            ),
            _ => ParseRule::new(ParseFn::NoneFn, ParseFn::NoneFn, Precedence::NonePrec),
        }
    }

    /// Parses the numeric literal just consumed and emits a load-constant
    /// instruction for it; a literal beyond 64 bits is a compile error,
    /// not an abort.
    fn number(&mut self)
        requires
            old(self).wf(),
        ensures
            final(self).wf(),
            parser_frame(*old(self), *final(self)),
            final(self).scanner == old(self).scanner,
            final(self).current == old(self).current,
            final(self).previous == old(self).previous,
            (!old(self).had_error && !final(self).had_error) ==> final(self).chunk.code@.len()
                > old(self).chunk.code@.len(),
            ({
                let lex = old(self).previous.src@;
                (!old(self).had_error && is_number_lexeme(lex) && lit_num(lex) <= i64::MAX
                    && lit_den(lex) <= i64::MAX && old(self).chunk.constants_view().len() <= 255)
                    ==> {
                    &&& final(self).chunk.code@ == old(self).chunk.code@ + seq![
                        spec_op_byte(OpCode::Constant),
                        old(self).chunk.constants_view().len() as u8,
                    ]
                    &&& final(self).chunk.constants_view() == old(self).chunk.constants_view()
                        + seq![
                        (Value { num: lit_num(lex) as i64, den: lit_den(lex) as i64 }),
                    ]
                    &&& final(self).chunk.lines_view() == old(self).chunk.lines_view() + seq![
                        old(self).previous.line,
                        old(self).previous.line,
                    ]
                    &&& final(self).had_error == false
                    &&& final(self).last_error == old(self).last_error
                }
            }),
    {
        let token = self.previous;
        match Value::from_literal(token.src) {
            Some(value) => self.emit_constant(value),
            None => self.error_at(token, "Invalid number literal."),
        }
    }

    /// Pools a value and emits the instruction loading it.
    fn emit_constant(&mut self, value: Value)
        requires
            old(self).wf(),
            value.wf(),
        ensures
            final(self).wf(),
            parser_frame(*old(self), *final(self)),
            final(self).scanner == old(self).scanner,
            final(self).current == old(self).current,
            final(self).previous == old(self).previous,
            final(self).chunk.code@.len() == old(self).chunk.code@.len() + 2,
            old(self).chunk.constants_view().len() <= 255 ==> {
                &&& final(self).chunk.code@ == old(self).chunk.code@ + seq![
                    spec_op_byte(OpCode::Constant),
                    old(self).chunk.constants_view().len() as u8,
                ]
                &&& final(self).chunk.constants_view() == old(self).chunk.constants_view() + seq![
                    value,
                ]
                &&& final(self).chunk.lines_view() == old(self).chunk.lines_view() + seq![
                    old(self).previous.line,
                    old(self).previous.line,
                ]
                &&& final(self).had_error == old(self).had_error
                &&& final(self).last_error == old(self).last_error
            },
    {
        let constant = self.make_constant(value);
        let opb = crate::chunk::op_to_byte(OpCode::Constant);
        self.emit_bytes(opb, constant)
    }

    /// Appends a value to the pool and returns its index as an operand
    /// byte. More than 256 pool entries cannot be addressed by one byte:
    /// that is a hard compile error, never a truncated operand.
    fn make_constant(&mut self, value: Value) -> (idx: Code)
        requires
            old(self).wf(),
            value.wf(),
        ensures
            final(self).wf(),
            parser_frame(*old(self), *final(self)),
            final(self).scanner == old(self).scanner,
            final(self).current == old(self).current,
            final(self).previous == old(self).previous,
            final(self).chunk.code@ == old(self).chunk.code@,
            final(self).chunk.lines_view() == old(self).chunk.lines_view(),
            final(self).chunk.constants_view() == old(self).chunk.constants_view() + seq![value],
            (idx as int) < final(self).chunk.constants_view().len(),
            old(self).chunk.constants_view().len() <= 255 ==> idx as int
                == old(self).chunk.constants_view().len() && final(self).had_error == old(self).had_error
                && final(self).last_error == old(self).last_error,
    {
        proof {
            lemma_code_ok_more_consts(
                self.chunk.code@,
                self.chunk.constants_view().len() as int,
                self.chunk.constants_view().len() as int + 1,
                0,
            );
        }
        let constant_idx = self.chunk.push_constant(value);
        if constant_idx > 255 {
            let token = self.previous;
            self.error_at(token, "Too many constants in one chunk");
            0
        } else {
            constant_idx as u8
        }
    }

    /// Parses an expression at the lowest binding power.
    fn expression(&mut self)
        requires
            old(self).wf(),
        ensures
            final(self).wf(),
            parser_frame(*old(self), *final(self)),
            single_number_case(*old(self), Precedence::Assignment) ==> single_number_result(
                *old(self),
                *final(self),
            ),
            (!old(self).had_error && !final(self).had_error) ==> final(self).chunk.code@.len()
                > old(self).chunk.code@.len(),
            spec_rule(old(self).current.kind).prefix == ParseFn::NoneFn
                ==> final(self).had_error,
            at_end_case(*old(self)) ==> final(self).had_error && final(self).last_error@
                == spec_error_message(
                old(self).current.line as nat,
                " at end"@,
                "Expect expression."@,
            ),
            number_op_number_case(*old(self), Precedence::Assignment) ==> number_op_number_result(
                *old(self),
                *final(self),
            ),
        decreases parser_measure(*old(self)), 1int,
    {
        self.parse_precedence(Precedence::Assignment)
    }

    /// The precedence-climbing core: consume one token in prefix position
    /// and dispatch its prefix handler (its absence is the syntax error
    /// `Expect expression.`), then, while the lookahead binds at least as
    /// tightly as `precedence`, consume it and dispatch its infix
    /// handler. Left-associativity falls out: each binary handler parses
    /// its right operand one level higher.
    #[verifier::loop_isolation(false)]
    fn parse_precedence(&mut self, precedence: Precedence)
        requires
            old(self).wf(),
            spec_prec_rank(precedence) >= 1,
        ensures
            final(self).wf(),
            parser_frame(*old(self), *final(self)),
            single_number_case(*old(self), precedence) ==> single_number_result(
                *old(self),
                *final(self),
            ),
            (!old(self).had_error && !final(self).had_error) ==> final(self).chunk.code@.len()
                > old(self).chunk.code@.len(),
            spec_rule(old(self).current.kind).prefix == ParseFn::NoneFn
                ==> final(self).had_error,
            at_end_case(*old(self)) ==> final(self).had_error && final(self).last_error@
                == spec_error_message(
                old(self).current.line as nat,
                " at end"@,
                "Expect expression."@,
            ),
            number_op_number_case(*old(self), precedence) ==> number_op_number_result(
                *old(self),
                *final(self),
            ),
        decreases parser_measure(*old(self)), 0int,
    {
        let ghost m0 = parser_measure(*old(self));
        self.advance();
        let prefix_rule = self.get_rule(self.previous.kind);
        if prefix_rule.prefix == ParseFn::NoneFn {
            let token = self.previous;
            self.error_at(token, "Expect expression.");
        } else {
            proof {
                assert(old(self).current.kind != TokenType::Eof);
            }
            self.execute_parse_fn(prefix_rule.prefix, true);
        }
        while prec_rank(precedence) <= prec_rank(self.get_rule(self.current.kind).precedence)
            invariant
                self.wf(),
                parser_frame(*old(self), *self),
                single_number_case(*old(self), precedence) ==> single_number_result(
                    *old(self),
                    *self,
                ),
                (!old(self).had_error && !self.had_error) ==> self.chunk.code@.len()
                    > old(self).chunk.code@.len(),
                spec_rule(old(self).current.kind).prefix == ParseFn::NoneFn ==> self.had_error,
                at_end_case(*old(self)) ==> self.had_error && self.last_error@
                    == spec_error_message(
                    old(self).current.line as nat,
                    " at end"@,
                    "Expect expression."@,
                ),
                number_op_number_case(*old(self), precedence) ==> number_op_number_mid(
                    *old(self),
                    *self,
                ) || number_op_number_result(*old(self), *self),
            decreases parser_measure(*self),
        {
            proof {
                assert(self.current.kind != TokenType::Eof);
            }
            let ghost at_iter = *self;
            self.advance();
            let infix_rule = self.get_rule(self.previous.kind).infix;
            if infix_rule != ParseFn::NoneFn {
                self.execute_parse_fn(infix_rule, false);
            }
            proof {
                if number_op_number_case(*old(self), precedence) {
                    if number_op_number_mid(*old(self), at_iter) {
                        let (t2, t3, t4) = nn_tokens(*old(self));
                        let lex1 = old(self).current.src@;
                        let lex2 = old(self).scanner.source@.subrange(t3.start, t3.end);
                        let n = old(self).chunk.constants_view().len();
                        assert(self.chunk.code@ =~= old(self).chunk.code@ + seq![
                            spec_op_byte(OpCode::Constant),
                            n as u8,
                            spec_op_byte(OpCode::Constant),
                            (n + 1) as u8,
                            spec_op_byte(bin_opcode(t2.kind)->Some_0),
                        ]);
                        assert(self.chunk.constants_view() =~= old(self).chunk.constants_view()
                            + seq![
                            (Value { num: lit_num(lex1) as i64, den: lit_den(lex1) as i64 }),
                            (Value { num: lit_num(lex2) as i64, den: lit_den(lex2) as i64 }),
                        ]);
                        assert(number_op_number_result(*old(self), *self));
                    } else {
                        assert(false);
                    }
                }
            }
        }
    }

    /// Runs one parse handler. In strict (prefix) position the absent
    /// handler is the syntax error `Expect expression.`.
    fn execute_parse_fn(&mut self, fun: ParseFn, strict: bool)
        requires
            old(self).wf(),
        ensures
            final(self).wf(),
            parser_frame(*old(self), *final(self)),
            ({
                let lex = old(self).previous.src@;
                (fun == ParseFn::Number && !old(self).had_error && is_number_lexeme(lex)
                    && lit_num(lex) <= i64::MAX && lit_den(lex) <= i64::MAX && old(
                    self,
                ).chunk.constants_view().len() <= 255) ==> {
                    &&& final(self).chunk.code@ == old(self).chunk.code@ + seq![
                        spec_op_byte(OpCode::Constant),
                        old(self).chunk.constants_view().len() as u8,
                    ]
                    &&& final(self).chunk.constants_view() == old(self).chunk.constants_view()
                        + seq![
                        (Value { num: lit_num(lex) as i64, den: lit_den(lex) as i64 }),
                    ]
                    &&& final(self).chunk.lines_view() == old(self).chunk.lines_view() + seq![
                        old(self).previous.line,
                        old(self).previous.line,
                    ]
                    &&& final(self).had_error == false
                    &&& final(self).scanner == old(self).scanner
                    &&& final(self).current == old(self).current
                    &&& final(self).last_error == old(self).last_error
                }
            }),
            (fun != ParseFn::NoneFn && !old(self).had_error && !final(self).had_error)
                ==> final(self).chunk.code@.len() > old(self).chunk.code@.len(),
            ({
                let k = old(self).previous.kind;
                let nextp = spec_next_prec(spec_rule(k).precedence);
                let lex = old(self).current.src@;
                let t2 = scan_spec(
                    old(self).scanner.source@,
                    old(self).scanner.current as int,
                    old(self).scanner.line as int,
                );
                (fun == ParseFn::Binary && bin_opcode(k) is Some && single_number_case(
                    *old(self),
                    nextp,
                )) ==> {
                    &&& final(self).chunk.code@ == old(self).chunk.code@ + seq![
                        spec_op_byte(OpCode::Constant),
                        old(self).chunk.constants_view().len() as u8,
                        spec_op_byte(bin_opcode(k)->Some_0),
                    ]
                    &&& final(self).chunk.constants_view() == old(self).chunk.constants_view()
                        + seq![
                        (Value { num: lit_num(lex) as i64, den: lit_den(lex) as i64 }),
                    ]
                    &&& final(self).had_error == false
                    &&& final(self).current.kind == t2.kind
                    &&& final(self).current.line as int == t2.line
                    &&& final(self).scanner.current as int == t2.end
                    &&& final(self).scanner.line as int == t2.after_line
                    &&& final(self).last_error == old(self).last_error
                }
            }),
        decreases parser_measure(*old(self)), 3int,
    {
        match fun {
            ParseFn::NoneFn => {
                if strict {
                    let token = self.previous;
                    self.error_at(token, "Expect expression.")
                }
            },
            ParseFn::Grouping => self.grouping(),
            ParseFn::Unary => self.unary(),
            ParseFn::Binary => self.binary(),
            ParseFn::Number => self.number(),
        }
    }

    /// `(` expression `)`. A group holding no expression at all is the
    /// syntax error `Expect expression.`.
    fn grouping(&mut self)
        requires
            old(self).wf(),
        ensures
            final(self).wf(),
            parser_frame(*old(self), *final(self)),
            old(self).current.kind == TokenType::RightParen ==> final(self).had_error,
            (!old(self).had_error && !final(self).had_error) ==> final(self).chunk.code@.len()
                > old(self).chunk.code@.len(),
        decreases parser_measure(*old(self)), 2int,
    {
        self.expression();
        self.consume(TokenType::RightParen, "Expect ')' after expression.")
    }

    /// Unary negation: parse the operand at unary precedence (so only the
    /// operand itself is negated, and repeated negation still works), then
    /// emit the negate instruction after it.
    fn unary(&mut self)
        requires
            old(self).wf(),
        ensures
            final(self).wf(),
            parser_frame(*old(self), *final(self)),
            old(self).previous.kind == TokenType::Minus ==> final(self).chunk.code@.len()
                > old(self).chunk.code@.len() && final(self).chunk.code@.last() == spec_op_byte(
                OpCode::Negate,
            ),
            (!old(self).had_error && !final(self).had_error) ==> final(self).chunk.code@.len()
                > old(self).chunk.code@.len(),
        decreases parser_measure(*old(self)), 2int,
    {
        let op_kind = self.previous.kind;
        self.parse_precedence(Precedence::Unary);
        if op_kind == TokenType::Minus {
            let b = crate::chunk::op_to_byte(OpCode::Negate);
            self.emit_byte(b)
        }
    }

    /// A binary operator: parse the right operand one precedence level
    /// higher (hence left associativity), then emit the operator's
    /// instruction after its operands. The emitted stream always ends in
    /// the operator's opcode; when the right operand is a single numeric
    /// literal, exactly its load-constant instruction stands in between.
    fn binary(&mut self)
        requires
            old(self).wf(),
        ensures
            final(self).wf(),
            parser_frame(*old(self), *final(self)),
            bin_opcode(old(self).previous.kind) is Some ==> final(self).chunk.code@.len()
                > old(self).chunk.code@.len() && final(self).chunk.code@.last() == spec_op_byte(
                bin_opcode(old(self).previous.kind)->Some_0,
            ),
            ({
                let k = old(self).previous.kind;
                let nextp = spec_next_prec(spec_rule(k).precedence);
                let lex = old(self).current.src@;
                let t2 = scan_spec(
                    old(self).scanner.source@,
                    old(self).scanner.current as int,
                    old(self).scanner.line as int,
                );
                (bin_opcode(k) is Some && single_number_case(*old(self), nextp)) ==> {
                    &&& final(self).chunk.code@ == old(self).chunk.code@ + seq![
                        spec_op_byte(OpCode::Constant),
                        old(self).chunk.constants_view().len() as u8,
                        spec_op_byte(bin_opcode(k)->Some_0),
                    ]
                    &&& final(self).chunk.constants_view() == old(self).chunk.constants_view()
                        + seq![
                        (Value { num: lit_num(lex) as i64, den: lit_den(lex) as i64 }),
                    ]
                    &&& final(self).had_error == false
                    &&& final(self).current.kind == t2.kind
                    &&& final(self).current.line as int == t2.line
                    &&& final(self).scanner.current as int == t2.end
                    &&& final(self).scanner.line as int == t2.after_line
                    &&& final(self).last_error == old(self).last_error
                }
            }),
            (!old(self).had_error && !final(self).had_error) ==> final(self).chunk.code@.len()
                > old(self).chunk.code@.len(),
        decreases parser_measure(*old(self)), 2int,
    {
        let op_kind = self.previous.kind;
        let rule = self.get_rule(op_kind);
        let next = rule.get_next_precedence();
        self.parse_precedence(next);

        if op_kind == TokenType::Plus {
            let b = crate::chunk::op_to_byte(OpCode::Add);
            self.emit_byte(b)
        } else if op_kind == TokenType::Minus {
            let b = crate::chunk::op_to_byte(OpCode::Subtract);
            self.emit_byte(b)
        } else if op_kind == TokenType::Star {
            let b = crate::chunk::op_to_byte(OpCode::Multiply);
            self.emit_byte(b)
        } else if op_kind == TokenType::Slash {
            let b = crate::chunk::op_to_byte(OpCode::Divide);
            self.emit_byte(b)
        }
    }

    /// Compiles one expression followed by end of input. On success the
    /// chunk is a complete program: a valid instruction stream ending in a
    /// return instruction. On failure the chunk must not be executed.
    pub fn parse(&mut self) -> (success: bool)
        requires
            old(self).wf(),
        ensures
            final(self).wf(),
            parser_frame(*old(self), *final(self)),
            success == !final(self).had_error,
            final(self).chunk.code@.len() > 0,
            spec_byte_op(final(self).chunk.code@.last()) == OpCode::Return,
            code_ok(
                final(self).chunk.code@,
                final(self).chunk.constants_view().len() as int,
                0,
            ),
            ({
                let s = old(self).scanner.source@;
                let t = scan_spec(s, old(self).scanner.current as int, old(self).scanner.line as int);
                let lex = s.subrange(t.start, t.end);
                let t2 = scan_spec(s, t.end, t.after_line);
                (t.kind == TokenType::Number && t2.kind == TokenType::Eof && !old(self).had_error
                    && is_number_lexeme(lex) && lit_num(lex) <= i64::MAX && lit_den(lex)
                    <= i64::MAX && old(self).chunk.constants_view().len() <= 255) ==> {
                    &&& success
                    &&& final(self).chunk.code@ == old(self).chunk.code@ + seq![
                        spec_op_byte(OpCode::Constant),
                        old(self).chunk.constants_view().len() as u8,
                        spec_op_byte(OpCode::Return),
                    ]
                    &&& final(self).chunk.constants_view() == old(self).chunk.constants_view()
                        + seq![
                        (Value { num: lit_num(lex) as i64, den: lit_den(lex) as i64 }),
                    ]
                    &&& final(self).chunk.lines_view().len() == old(self).chunk.lines_view().len()
                        + 3
                    &&& final(self).chunk.lines_view()[old(self).chunk.lines_view().len() as int]
                        as int == t.line
                    &&& final(self).chunk.lines_view()[old(self).chunk.lines_view().len() as int
                        + 1] as int == t.line
                    &&& final(self).chunk.lines_view()[old(self).chunk.lines_view().len() as int
                        + 2] as int == t2.line
                }
            }),
            ({
                let s = old(self).scanner.source@;
                let t = scan_spec(s, old(self).scanner.current as int, old(self).scanner.line as int);
                (t.kind == TokenType::Eof && !old(self).had_error) ==> {
                    &&& !success
                    &&& final(self).last_error@ == spec_error_message(
                        t.line as nat,
                        " at end"@,
                        "Expect expression."@,
                    )
                }
            }),
            ({
                let s = old(self).scanner.source@;
                let t = scan_spec(s, old(self).scanner.current as int, old(self).scanner.line as int);
                let lex1 = s.subrange(t.start, t.end);
                let t2 = scan_spec(s, t.end, t.after_line);
                let t3 = scan_spec(s, t2.end, t2.after_line);
                let t4 = scan_spec(s, t3.end, t3.after_line);
                let lex2 = s.subrange(t3.start, t3.end);
                let n = old(self).chunk.constants_view().len();
                (t.kind == TokenType::Number && is_number_lexeme(lex1) && lit_num(lex1)
                    <= i64::MAX && lit_den(lex1) <= i64::MAX && bin_opcode(t2.kind) is Some
                    && t3.kind == TokenType::Number && is_number_lexeme(lex2) && lit_num(lex2)
                    <= i64::MAX && lit_den(lex2) <= i64::MAX && t4.kind == TokenType::Eof && !old(
                    self,
                ).had_error && n <= 254) ==> {
                    &&& success
                    &&& final(self).chunk.code@ == old(self).chunk.code@ + seq![
                        spec_op_byte(OpCode::Constant),
                        n as u8,
                        spec_op_byte(OpCode::Constant),
                        (n + 1) as u8,
                        spec_op_byte(bin_opcode(t2.kind)->Some_0),
                        spec_op_byte(OpCode::Return),
                    ]
                    &&& final(self).chunk.constants_view() == old(self).chunk.constants_view()
                        + seq![
                        (Value { num: lit_num(lex1) as i64, den: lit_den(lex1) as i64 }),
                        (Value { num: lit_num(lex2) as i64, den: lit_den(lex2) as i64 }),
                    ]
                }
            }),
    {
        let ghost s = self.scanner.source@;
        let ghost t = scan_spec(s, self.scanner.current as int, self.scanner.line as int);
        let ghost t2 = scan_spec(s, t.end, t.after_line);
        proof {
            crate::scanner::lemma_skip_ws_pos(
                s,
                self.scanner.current as int,
                self.scanner.line as int,
            );
            if t.kind == TokenType::Eof {
                assert(t.end == s.len());
            }
        }
        self.advance();
        self.expression();
        self.consume(TokenType::Eof, "Expect end of expression.");
        self.end();
        proof {
            ({
                let t3 = scan_spec(s, t2.end, t2.after_line);
                let t4 = scan_spec(s, t3.end, t3.after_line);
                let lex1 = s.subrange(t.start, t.end);
                let lex2 = s.subrange(t3.start, t3.end);
                let n = old(self).chunk.constants_view().len();
                if t.kind == TokenType::Number && is_number_lexeme(lex1) && lit_num(lex1)
                    <= i64::MAX && lit_den(lex1) <= i64::MAX && bin_opcode(t2.kind) is Some
                    && t3.kind == TokenType::Number && is_number_lexeme(lex2) && lit_num(lex2)
                    <= i64::MAX && lit_den(lex2) <= i64::MAX && t4.kind == TokenType::Eof && !old(
                    self,
                ).had_error && n <= 254 {
                    assert(self.chunk.code@ =~= old(self).chunk.code@ + seq![
                        spec_op_byte(OpCode::Constant),
                        n as u8,
                        spec_op_byte(OpCode::Constant),
                        (n + 1) as u8,
                        spec_op_byte(bin_opcode(t2.kind)->Some_0),
                        spec_op_byte(OpCode::Return),
                    ]);
                }
            });
            if t.kind == TokenType::Number && t2.kind == TokenType::Eof && !old(self).had_error
                && is_number_lexeme(s.subrange(t.start, t.end)) && lit_num(
                s.subrange(t.start, t.end),
            ) <= i64::MAX && lit_den(s.subrange(t.start, t.end)) <= i64::MAX && old(
                self,
            ).chunk.constants_view().len() <= 255 {
                assert(self.chunk.lines_view().len() == old(self).chunk.lines_view().len() + 3);
                assert(self.chunk.lines_view()[old(self).chunk.lines_view().len() as int] as int
                    == t.line);
                assert(self.chunk.lines_view()[old(self).chunk.lines_view().len() as int + 1]
                    as int == t.line);
                assert(self.chunk.lines_view()[old(self).chunk.lines_view().len() as int + 2]
                    as int == t2.line);
            }
            if t.kind == TokenType::Number && t2.kind == TokenType::Eof && !old(self).had_error
                && is_number_lexeme(s.subrange(t.start, t.end)) && lit_num(s.subrange(t.start, t.end))
                <= i64::MAX && lit_den(s.subrange(t.start, t.end)) <= i64::MAX && old(
                self,
            ).chunk.constants_view().len() <= 255 {
                assert(self.chunk.code@ =~= old(self).chunk.code@ + seq![
                    spec_op_byte(OpCode::Constant),
                    old(self).chunk.constants_view().len() as u8,
                    spec_op_byte(OpCode::Return),
                ]);
            }
        }
        !self.had_error
    }
}

} // verus!
