//! Lexical scanner: turns source text into tokens, one per call.
//!
//! The scanner is specified against a mathematical model of the token
//! stream: [`scan_spec`] says, for any source text, cursor position and line
//! number, which token comes next, where it ends and on which line it is
//! reported. [`Scanner::scan_token`] is proved to follow that model exactly.

use vstd::prelude::*;

use crate::token::Token;
use crate::token::TokenType;

verus! {

/// Characters that may start an identifier.
pub open spec fn is_alpha(c: char) -> bool {
    c == '_' || ('a' <= c && c <= 'z') || ('A' <= c && c <= 'Z')
}

/// Decimal digits.
pub open spec fn is_digit(c: char) -> bool {
    '0' <= c && c <= '9'
}

/// Characters that may continue an identifier.
pub open spec fn is_ident_char(c: char) -> bool {
    is_alpha(c) || is_digit(c)
}

/// Horizontal whitespace; newlines are handled separately so the line
/// counter can advance.
pub open spec fn is_blank(c: char) -> bool {
    c == ' ' || c == '\r' || c == '\t'
}

/// The position just after a `//` comment starting scan at `j`: the first
/// index at or after `j` holding a newline, or the end of the text.
pub open spec fn comment_end(s: Seq<char>, j: int) -> int
    decreases s.len() - j,
{
    if j < 0 || j >= s.len() {
        s.len() as int
    } else if s[j] == '\n' {
        j
    } else {
        comment_end(s, j + 1)
    }
}

pub proof fn lemma_comment_end(s: Seq<char>, j: int)
    requires
        0 <= j <= s.len(),
    ensures
        j <= comment_end(s, j) <= s.len(),
    decreases s.len() - j,
{
    if j < s.len() && s[j] != '\n' {
        lemma_comment_end(s, j + 1);
    }
}

/// Where the cursor and the line counter stand once whitespace and `//`
/// comments starting at position `i` on line `l` have been skipped.
pub open spec fn skip_ws_pos(s: Seq<char>, i: int, l: int) -> (int, int)
    decreases s.len() - i, 1int,
    via skip_ws_pos_decreases
{
    if i < 0 || i >= s.len() {
        (i, l)
    } else if s[i] == '\n' {
        skip_ws_pos(s, i + 1, l + 1)
    } else if is_blank(s[i]) {
        skip_ws_pos(s, i + 1, l)
    } else if s[i] == '/' && i + 1 < s.len() && s[i + 1] == '/' {
        skip_ws_pos(s, comment_end(s, i + 2), l)
    } else {
        (i, l)
    }
}

#[via_fn]
proof fn skip_ws_pos_decreases(s: Seq<char>, i: int, l: int) {
    if 0 <= i && i < s.len() && !(s[i] == '\n') && !is_blank(s[i]) && s[i] == '/' && i + 1
        < s.len() && s[i + 1] == '/' {
        lemma_comment_end(s, i + 2);
    }
}

pub proof fn lemma_skip_ws_pos(s: Seq<char>, i: int, l: int)
    requires
        0 <= i <= s.len(),
        1 <= l <= i + 1,
    ensures
        i <= skip_ws_pos(s, i, l).0 <= s.len(),
        1 <= skip_ws_pos(s, i, l).1 <= skip_ws_pos(s, i, l).0 + 1,
    decreases s.len() - i, 1int,
{
    if i < s.len() {
        if s[i] == '\n' {
            lemma_skip_ws_pos(s, i + 1, l + 1);
        } else if is_blank(s[i]) {
            lemma_skip_ws_pos(s, i + 1, l);
        } else if s[i] == '/' && i + 1 < s.len() && s[i + 1] == '/' {
            lemma_comment_end(s, i + 2);
            lemma_skip_ws_pos(s, comment_end(s, i + 2), l);
        }
    }
}

/// The first index at or after `j` that does not hold a digit.
pub open spec fn digits_end(s: Seq<char>, j: int) -> int
    decreases s.len() - j,
{
    if j < 0 || j >= s.len() {
        s.len() as int
    } else if is_digit(s[j]) {
        digits_end(s, j + 1)
    } else {
        j
    }
}

pub proof fn lemma_digits_end(s: Seq<char>, j: int)
    requires
        0 <= j <= s.len(),
    ensures
        j <= digits_end(s, j) <= s.len(),
    decreases s.len() - j,
{
    if j < s.len() && is_digit(s[j]) {
        lemma_digits_end(s, j + 1);
    }
}

/// The end of a numeric literal whose first digit stands at `i`: digits,
/// then optionally a dot followed by at least one digit and the digits
/// after it.
pub open spec fn number_scan_end(s: Seq<char>, j: int) -> int {
    let d = digits_end(s, j);
    if d < s.len() && s[d] == '.' && d + 1 < s.len() && is_digit(s[d + 1]) {
        digits_end(s, d + 1)
    } else {
        d
    }
}

/// The first index at or after `j` that does not hold an identifier
/// character.
pub open spec fn ident_end(s: Seq<char>, j: int) -> int
    decreases s.len() - j,
{
    if j < 0 || j >= s.len() {
        s.len() as int
    } else if is_ident_char(s[j]) {
        ident_end(s, j + 1)
    } else {
        j
    }
}

pub proof fn lemma_ident_end(s: Seq<char>, j: int)
    requires
        0 <= j <= s.len(),
    ensures
        j <= ident_end(s, j) <= s.len(),
    decreases s.len() - j,
{
    if j < s.len() && is_ident_char(s[j]) {
        lemma_ident_end(s, j + 1);
    }
}

/// The index of the closing quote of a string literal whose body starts at
/// `j`, or the end of the text if the string is unterminated.
pub open spec fn string_close(s: Seq<char>, j: int) -> int
    decreases s.len() - j,
{
    if j < 0 || j >= s.len() {
        s.len() as int
    } else if s[j] == '"' {
        j
    } else {
        string_close(s, j + 1)
    }
}

pub proof fn lemma_string_close(s: Seq<char>, j: int)
    requires
        0 <= j <= s.len(),
    ensures
        j <= string_close(s, j) <= s.len(),
    decreases s.len() - j,
{
    if j < s.len() && s[j] != '"' {
        lemma_string_close(s, j + 1);
    }
}

/// How many newline characters stand in `s[from .. to]`.
pub open spec fn count_newlines(s: Seq<char>, from: int, to: int) -> int
    decreases to - from,
{
    if from < 0 || from >= to || to > s.len() {
        0
    } else {
        (if s[from] == '\n' {
            1int
        } else {
            0int
        }) + count_newlines(s, from + 1, to)
    }
}

pub proof fn lemma_count_newlines(s: Seq<char>, from: int, to: int)
    requires
        0 <= from,
        to <= s.len(),
    ensures
        0 <= count_newlines(s, from, to) <= to - from || count_newlines(s, from, to) == 0,
    decreases to - from,
{
    if from < to {
        lemma_count_newlines(s, from + 1, to);
    }
}

/// The token category an identifier lexeme stands for: one of the reserved
/// words, or a plain identifier.
pub open spec fn keyword_kind(lex: Seq<char>) -> TokenType {
    if lex == "and"@ {
        TokenType::And
    } else if lex == "class"@ {
        TokenType::Class
    } else if lex == "else"@ {
        TokenType::Else
    } else if lex == "false"@ {
        TokenType::False
    } else if lex == "for"@ {
        TokenType::For
    } else if lex == "fun"@ {
        TokenType::Fun
    } else if lex == "if"@ {
        TokenType::If
    } else if lex == "nil"@ {
        TokenType::Nil
    } else if lex == "or"@ {
        TokenType::Or
    } else if lex == "print"@ {
        TokenType::Print
    } else if lex == "return"@ {
        TokenType::Return
    } else if lex == "super"@ {
        TokenType::Super
    } else if lex == "this"@ {
        TokenType::This
    } else if lex == "true"@ {
        TokenType::True
    } else if lex == "var"@ {
        TokenType::Var
    } else if lex == "while"@ {
        TokenType::While
    } else {
        TokenType::Identifier
    }
}

/// The single- or double-character token starting at `i` with first
/// character `c`, for the operator and punctuation characters. `None` means
/// `c` starts no such token.
pub open spec fn symbol_kind(s: Seq<char>, i: int) -> Option<(TokenType, int)> {
    let c = s[i];
    let two = i + 1 < s.len() && s[i + 1] == '=';
    if c == '(' {
        Some((TokenType::LeftParen, i + 1))
    } else if c == ')' {
        Some((TokenType::RightParen, i + 1))
    } else if c == '{' {
        Some((TokenType::LeftBrace, i + 1))
    } else if c == '}' {
        Some((TokenType::RightBrace, i + 1))
    } else if c == ';' {
        Some((TokenType::Semicolon, i + 1))
    } else if c == ',' {
        Some((TokenType::Comma, i + 1))
    } else if c == '.' {
        Some((TokenType::Dot, i + 1))
    } else if c == '-' {
        Some((TokenType::Minus, i + 1))
    } else if c == '+' {
        Some((TokenType::Plus, i + 1))
    } else if c == '/' {
        Some((TokenType::Slash, i + 1))
    } else if c == '*' {
        Some((TokenType::Star, i + 1))
    } else if c == '!' {
        if two {
            Some((TokenType::BangEqual, i + 2))
        } else {
            Some((TokenType::Bang, i + 1))
        }
    } else if c == '=' {
        if two {
            Some((TokenType::EqualEqual, i + 2))
        } else {
            Some((TokenType::Equal, i + 1))
        }
    } else if c == '<' {
        if two {
            Some((TokenType::LessEqual, i + 2))
        } else {
            Some((TokenType::Less, i + 1))
        }
    } else if c == '>' {
        if two {
            Some((TokenType::GreaterEqual, i + 2))
        } else {
            Some((TokenType::Greater, i + 1))
        }
    } else {
        None
    }
}

/// What one call to [`Scanner::scan_token`] does, as a mathematical value:
/// the token's category, its lexeme bounds, the line on which its scan
/// began (the line every token reports), the line the scanner's counter
/// stands on afterwards (greater only for strings with embedded
/// newlines), and the diagnostic message when the category is `Error`.
pub struct ScanResult {
    pub kind: TokenType,
    pub start: int,
    pub end: int,
    pub line: int,
    pub after_line: int,
    pub msg: Seq<char>,
}

/// The token scanned from `s` when the cursor stands at `pos` on line
/// `line`, after skipping whitespace and comments.
pub open spec fn scan_spec(s: Seq<char>, pos: int, line: int) -> ScanResult {
    let (i, l) = skip_ws_pos(s, pos, line);
    if i >= s.len() {
        ScanResult {
            kind: TokenType::Eof,
            start: i,
            end: i,
            line: l,
            after_line: l,
            msg: Seq::empty(),
        }
    } else {
        let c = s[i];
        if is_alpha(c) {
            let e = ident_end(s, i + 1);
            ScanResult {
                kind: keyword_kind(s.subrange(i, e)),
                start: i,
                end: e,
                line: l,
                after_line: l,
                msg: Seq::empty(),
            }
        } else if is_digit(c) {
            let e = number_scan_end(s, i + 1);
            ScanResult {
                kind: TokenType::Number,
                start: i,
                end: e,
                line: l,
                after_line: l,
                msg: Seq::empty(),
            }
        } else if c == '"' {
            let cl = string_close(s, i + 1);
            if cl >= s.len() {
                ScanResult {
                    kind: TokenType::Error,
                    start: i,
                    end: s.len() as int,
                    line: l,
                    after_line: l + count_newlines(s, i + 1, s.len() as int),
                    msg: "Unterminated string"@,
                }
            } else {
                ScanResult {
                    kind: TokenType::String,
                    start: i,
                    end: cl + 1,
                    line: l,
                    after_line: l + count_newlines(s, i + 1, cl),
                    msg: Seq::empty(),
                }
            }
        } else if symbol_kind(s, i) is Some {
            let (k, e) = symbol_kind(s, i)->Some_0;
            ScanResult { kind: k, start: i, end: e, line: l, after_line: l, msg: Seq::empty() }
        } else {
            ScanResult {
                kind: TokenType::Error,
                start: i,
                end: i + 1,
                line: l,
                after_line: l,
                msg: "Unexpected character."@,
            }
        }
    }
}

/// Scans tokens out of a source text, one per call, against an internal
/// character cursor. Positions are character offsets, not byte offsets.
pub struct Scanner<'a> {
    pub source: &'a str,
    pub start: usize,
    pub current: usize,
    pub line: usize,
}

impl<'a> Scanner<'a> {
    /// The scanner's internal consistency: the cursor stays inside the text,
    /// the lexeme start does not pass the cursor, and the line counter never
    /// exceeds one more than the number of characters consumed.
    pub open spec fn wf(self) -> bool {
        &&& self.start <= self.current <= self.source@.len()
        &&& 1 <= self.line <= self.current + 1
        &&& self.source@.len() < usize::MAX
    }

    pub fn new(source: &'a str) -> (s: Self)
        requires
            source@.len() < usize::MAX,
        ensures
            s.wf(),
            s.source == source,
            s.current == 0,
            s.line == 1,
    {
        Scanner { source, start: 0, current: 0, line: 1 }
    }

    fn is_at_end(&self) -> (r: bool)
        requires
            self.wf(),
        ensures
            r == (self.current == self.source@.len()),
    {
        self.current == self.source.unicode_len()
    }

    fn advance(&mut self) -> (c: char)
        requires
            old(self).wf(),
            old(self).current < old(self).source@.len(),
        ensures
            final(self).wf(),
            *final(self) == (Scanner { current: (old(self).current + 1) as usize, ..*old(self) }),
            c == old(self).source@[old(self).current as int],
    {
        let c = self.source.get_char(self.current);
        self.current = self.current + 1;
        c
    }

    fn peek(&self) -> (c: char)
        requires
            self.wf(),
            self.current < self.source@.len(),
        ensures
            c == self.source@[self.current as int],
    {
        self.source.get_char(self.current)
    }

    fn peek_next(&self) -> (c: char)
        requires
            self.wf(),
        ensures
            c == if self.current + 1 < self.source@.len() {
                self.source@[self.current + 1]
            } else {
                '\0'
            },
    {
        if self.current + 1 < self.source.unicode_len() {
            self.source.get_char(self.current + 1)
        } else {
            '\0'
        }
    }

    fn match_current(&mut self, expected: char) -> (r: bool)
        requires
            old(self).wf(),
        ensures
            final(self).wf(),
            r == (old(self).current < old(self).source@.len() && old(self).source@[old(
                self,
            ).current as int] == expected),
            *final(self) == (Scanner {
                current: if r {
                    (old(self).current + 1) as usize
                } else {
                    old(self).current
                },
                ..*old(self)
            }),
    {
        if self.is_at_end() {
            false
        } else if self.source.get_char(self.current) != expected {
            false
        } else {
            self.current = self.current + 1;
            true
        }
    }

    fn make_token(&self, token_type: TokenType) -> (t: Token<'a>)
        requires
            self.wf(),
        ensures
            t.kind == token_type,
            t.start == self.start,
            t.src@ == self.source@.subrange(self.start as int, self.current as int),
            t.line == self.line,
    {
        Token::new(
            token_type,
            self.start,
            self.source.substring_char(self.start, self.current),
            self.line,
        )
    }

    fn error_token(&self, msg: &'static str) -> (t: Token<'a>)
        requires
            self.wf(),
        ensures
            t.kind == TokenType::Error,
            t.start == 0,
            t.src == msg,
            t.line == self.line,
    {
        Token::new(TokenType::Error, 0, msg, self.line)
    }

    /// Consumes blanks, newlines and `//` comments; proved to land exactly
    /// where the [`skip_ws_pos`] model says.
    #[verifier::loop_isolation(false)]
    fn skip_whitespace(&mut self)
        requires
            old(self).wf(),
        ensures
            final(self).wf(),
            final(self).source == old(self).source,
            final(self).start == old(self).start,
            old(self).current <= final(self).current,
            (final(self).current as int, final(self).line as int) == skip_ws_pos(
                old(self).source@,
                old(self).current as int,
                old(self).line as int,
            ),
    {
        let ghost s = self.source@;
        let ghost i0 = self.current as int;
        let ghost l0 = self.line as int;
        while !self.is_at_end()
            invariant
                self.wf(),
                self.source == old(self).source,
                self.start == old(self).start,
                old(self).current <= self.current,
                skip_ws_pos(s, i0, l0) == skip_ws_pos(s, self.current as int, self.line as int),
            decreases s.len() - self.current,
        {
            let c = self.peek();
            if c == '\n' {
                self.advance();
                self.line = self.line + 1;
            } else if c == ' ' || c == '\r' || c == '\t' {
                self.advance();
            } else if c == '/' {
                if self.peek_next() == '/' {
                    let ghost j0 = self.current as int;
                    let ghost lc = self.line as int;
                    while !self.is_at_end() && self.peek() != '\n'
                        invariant
                            self.wf(),
                            self.source == old(self).source,
                            self.start == old(self).start,
                            self.line == lc,
                            i0 <= j0 <= self.current,
                            s == self.source@,
                            comment_end(s, j0) == comment_end(s, self.current as int),
                            skip_ws_pos(s, i0, l0) == skip_ws_pos(s, j0, lc),
                        decreases s.len() - self.current,
                    {
                        self.advance();
                    }
                    proof {
                        lemma_comment_end(s, j0 + 2);
                        reveal_with_fuel(comment_end, 3);
                        assert(comment_end(s, j0) == comment_end(s, j0 + 2));
                        assert(self.current as int == comment_end(s, j0));
                    }
                } else {
                    return ;
                }
            } else {
                return ;
            }
        }
    }

    /// Scans the body of a string literal; the opening quote has already
    /// been consumed. The token reports the line its scan began on;
    /// embedded newlines still advance the scanner's counter, so later
    /// tokens carry their own lines.
    #[verifier::loop_isolation(false)]
    fn string(&mut self) -> (t: Token<'a>)
        requires
            old(self).wf(),
        ensures
            final(self).wf(),
            final(self).source == old(self).source,
            final(self).start == old(self).start,
            ({
                let s = old(self).source@;
                let j0 = old(self).current as int;
                let cl = string_close(s, j0);
                &&& t.line == old(self).line
                &&& (if cl >= s.len() {
                    &&& t.kind == TokenType::Error
                    &&& t.src@ == "Unterminated string"@
                    &&& t.start == 0
                    &&& final(self).current as int == s.len()
                    &&& final(self).line as int == old(self).line + count_newlines(
                        s,
                        j0,
                        s.len() as int,
                    )
                } else {
                    &&& t.kind == TokenType::String
                    &&& t.src@ == s.subrange(old(self).start as int, cl + 1)
                    &&& t.start == old(self).start
                    &&& final(self).current as int == cl + 1
                    &&& final(self).line as int == old(self).line + count_newlines(s, j0, cl)
                })
            }),
    {
        let token_line = self.line;
        let ghost s = self.source@;
        let ghost j0 = self.current as int;
        let ghost l0 = self.line as int;
        let ghost cl = string_close(s, j0);
        proof {
            lemma_string_close(s, j0);
        }
        while !self.is_at_end() && self.peek() != '"'
            invariant
                self.wf(),
                self.source == old(self).source,
                self.start == old(self).start,
                j0 <= self.current,
                string_close(s, self.current as int) == cl,
                self.line as int + count_newlines(s, self.current as int, cl) == l0
                    + count_newlines(s, j0, cl),
            decreases s.len() - self.current,
        {
            proof {
                lemma_string_close(s, self.current as int + 1);
                assert(string_close(s, self.current as int) == string_close(
                    s,
                    self.current as int + 1,
                ));
            }
            let c = self.peek();
            self.advance();
            if c == '\n' {
                self.line = self.line + 1;
            }
        }
        proof {
            lemma_string_close(s, self.current as int);
        }
        if self.is_at_end() {
            Token::new(TokenType::Error, 0, "Unterminated string", token_line)
        } else {
            self.advance();
            Token::new(
                TokenType::String,
                self.start,
                self.source.substring_char(self.start, self.current),
                token_line,
            )
        }
    }

    /// Scans the rest of a numeric literal; its first digit has already been
    /// consumed.
    #[verifier::loop_isolation(false)]
    fn number(&mut self) -> (t: Token<'a>)
        requires
            old(self).wf(),
        ensures
            final(self).wf(),
            final(self).source == old(self).source,
            final(self).start == old(self).start,
            final(self).line == old(self).line,
            final(self).current as int == number_scan_end(old(self).source@, old(self).current as int),
            t.kind == TokenType::Number,
            t.start == old(self).start,
            t.line == old(self).line,
            t.src@ == old(self).source@.subrange(
                old(self).start as int,
                number_scan_end(old(self).source@, old(self).current as int),
            ),
    {
        let ghost s = self.source@;
        let ghost j0 = self.current as int;
        while !self.is_at_end() && is_digit_ch(self.peek())
            invariant
                self.wf(),
                self.source == old(self).source,
                self.start == old(self).start,
                self.line == old(self).line,
                j0 <= self.current,
                digits_end(s, self.current as int) == digits_end(s, j0),
            decreases s.len() - self.current,
        {
            self.advance();
        }
        proof {
            lemma_digits_end(s, self.current as int);
        }
        if !self.is_at_end() && self.peek() == '.' && is_digit_ch(self.peek_next()) {
            self.advance();
            let ghost j1 = self.current as int;
            while !self.is_at_end() && is_digit_ch(self.peek())
                invariant
                    self.wf(),
                    self.source == old(self).source,
                    self.start == old(self).start,
                    self.line == old(self).line,
                    j1 <= self.current,
                    digits_end(s, self.current as int) == digits_end(s, j1),
                decreases s.len() - self.current,
            {
                self.advance();
            }
            proof {
                lemma_digits_end(s, self.current as int);
            }
        }
        self.make_token(TokenType::Number)
    }

    /// Scans the rest of an identifier and classifies it as a keyword or a
    /// plain identifier; its first character has already been consumed.
    #[verifier::loop_isolation(false)]
    fn identifier(&mut self) -> (t: Token<'a>)
        requires
            old(self).wf(),
            old(self).start < old(self).current,
        ensures
            final(self).wf(),
            final(self).source == old(self).source,
            final(self).start == old(self).start,
            final(self).line == old(self).line,
            final(self).current as int == ident_end(old(self).source@, old(self).current as int),
            ({
                let lex = old(self).source@.subrange(
                    old(self).start as int,
                    ident_end(old(self).source@, old(self).current as int),
                );
                &&& t.kind == keyword_kind(lex)
                &&& t.src@ == lex
                &&& t.start == old(self).start
                &&& t.line == old(self).line
            }),
    {
        let ghost s = self.source@;
        let ghost j0 = self.current as int;
        while !self.is_at_end() && is_ident_ch(self.peek())
            invariant
                self.wf(),
                self.source == old(self).source,
                self.start == old(self).start,
                self.line == old(self).line,
                j0 <= self.current,
                self.start < self.current,
                ident_end(s, self.current as int) == ident_end(s, j0),
            decreases s.len() - self.current,
        {
            self.advance();
        }
        proof {
            lemma_ident_end(s, self.current as int);
        }
        let token = self.identifier_type();
        self.make_token(token)
    }

    /// Classifies the lexeme between `start` and `current` as a keyword or a
    /// plain identifier, dispatching on its first one or two characters.
    fn identifier_type(&self) -> (t: TokenType)
        requires
            self.wf(),
            self.start < self.current,
        ensures
            t == keyword_kind(self.source@.subrange(self.start as int, self.current as int)),
    {
        proof {
            reveal_strlit("and");
            reveal_strlit("class");
            reveal_strlit("else");
            reveal_strlit("false");
            reveal_strlit("for");
            reveal_strlit("fun");
            reveal_strlit("if");
            reveal_strlit("nil");
            reveal_strlit("or");
            reveal_strlit("print");
            reveal_strlit("return");
            reveal_strlit("super");
            reveal_strlit("this");
            reveal_strlit("true");
            reveal_strlit("var");
            reveal_strlit("while");
        }
        let ghost lex = self.source@.subrange(self.start as int, self.current as int);
        proof {
            assert(lex.len() > 0);
            assert(lex[0] == self.source@[self.start as int]);
        }
        let c = self.source.get_char(self.start);
        if c == 'a' {
            self.check_keyword(0, 3, "and", TokenType::And)
        } else if c == 'c' {
            self.check_keyword(0, 5, "class", TokenType::Class)
        } else if c == 'e' {
            self.check_keyword(0, 4, "else", TokenType::Else)
        } else if c == 'f' {
            if self.current - self.start > 1 {
                proof {
                    assert(lex[1] == self.source@[self.start + 1]);
                }
                let c2 = self.source.get_char(self.start + 1);
                if c2 == 'a' {
                    self.check_keyword(0, 5, "false", TokenType::False)
                } else if c2 == 'o' {
                    self.check_keyword(0, 3, "for", TokenType::For)
                } else if c2 == 'u' {
                    self.check_keyword(0, 3, "fun", TokenType::Fun)
                } else {
                    TokenType::Identifier
                }
            } else {
                TokenType::Identifier
            }
        } else if c == 'i' {
            self.check_keyword(0, 2, "if", TokenType::If)
        } else if c == 'n' {
            self.check_keyword(0, 3, "nil", TokenType::Nil)
        } else if c == 'o' {
            self.check_keyword(0, 2, "or", TokenType::Or)
        } else if c == 'p' {
            self.check_keyword(0, 5, "print", TokenType::Print)
        } else if c == 'r' {
            self.check_keyword(0, 6, "return", TokenType::Return)
        } else if c == 's' {
            self.check_keyword(0, 5, "super", TokenType::Super)
        } else if c == 't' {
            if self.current - self.start > 1 {
                proof {
                    assert(lex[1] == self.source@[self.start + 1]);
                }
                let c2 = self.source.get_char(self.start + 1);
                if c2 == 'h' {
                    self.check_keyword(0, 4, "this", TokenType::This)
                } else if c2 == 'r' {
                    self.check_keyword(0, 4, "true", TokenType::True)
                } else {
                    TokenType::Identifier
                }
            } else {
                TokenType::Identifier
            }
        } else if c == 'v' {
            self.check_keyword(0, 3, "var", TokenType::Var)
        } else if c == 'w' {
            self.check_keyword(0, 5, "while", TokenType::While)
        } else {
            TokenType::Identifier
        }
    }

    /// Compares the lexeme's characters from offset `start` against `rest`;
    /// the token category on a full match, plain identifier otherwise.
    #[verifier::loop_isolation(false)]
    fn check_keyword(&self, start: usize, len: usize, rest: &str, token_type: TokenType) -> (t:
        TokenType)
        requires
            self.wf(),
            rest@.len() == len,
            start + len <= usize::MAX,
        ensures
            t == (if self.current - self.start == start + len && self.source@.subrange(
                self.start + start,
                self.current as int,
            ) == rest@ {
                token_type
            } else {
                TokenType::Identifier
            }),
    {
        if self.current - self.start != start + len {
            return TokenType::Identifier;
        }
        let base = self.start + start;
        let mut j: usize = 0;
        while j < len
            invariant
                0 <= j <= len,
                forall|k: int|
                    0 <= k < j ==> self.source@[base + k] == rest@[k],
            decreases len - j,
        {
            if self.source.get_char(base + j) != rest.get_char(j) {
                assert(self.source@.subrange(base as int, self.current as int)[j as int]
                    != rest@[j as int]);
                return TokenType::Identifier;
            }
            j = j + 1;
        }
        proof {
            assert(self.source@.subrange(base as int, self.current as int) =~= rest@);
        }
        token_type
    }

    /// Produces the next token, exactly as the [`scan_spec`] model
    /// describes: whitespace and comments are skipped first, the token's
    /// category and lexeme bounds follow from the first character, and the
    /// cursor lands just past the token. At end of input the `Eof` token
    /// repeats forever.
    pub fn scan_token(&mut self) -> (t: Token<'a>)
        requires
            old(self).wf(),
        ensures
            final(self).wf(),
            final(self).source == old(self).source,
            ({
                let r = scan_spec(old(self).source@, old(self).current as int, old(self).line as int);
                &&& t.kind == r.kind
                &&& t.line as int == r.line
                &&& final(self).line as int == r.after_line
                &&& final(self).current as int == r.end
                &&& final(self).start as int == r.start
                &&& (r.kind != TokenType::Error ==> t.src@ == old(self).source@.subrange(
                    r.start,
                    r.end,
                ) && t.start as int == r.start)
                &&& (r.kind == TokenType::Error ==> t.src@ == r.msg && t.start == 0)
            }),
            old(self).current <= final(self).current,
            t.kind != TokenType::Eof ==> old(self).current < final(self).current,
            t.kind == TokenType::Eof ==> final(self).current == old(self).source@.len(),
    {
        let ghost s = self.source@;
        let ghost p0 = self.current as int;
        let ghost l0 = self.line as int;
        proof {
            lemma_skip_ws_pos(s, p0, l0);
        }
        self.skip_whitespace();
        self.start = self.current;
        let ghost i = self.current as int;

        if self.is_at_end() {
            return self.make_token(TokenType::Eof);
        }
        let c = self.advance();

        if c == '_' || ('a' <= c && c <= 'z') || ('A' <= c && c <= 'Z') {
            proof {
                lemma_ident_end(s, i + 1);
            }
            return self.identifier();
        }
        if is_digit_ch(c) {
            proof {
                lemma_digits_end(s, i + 1);
                if digits_end(s, i + 1) < s.len() && s[digits_end(s, i + 1)] == '.' && digits_end(
                    s,
                    i + 1,
                ) + 1 < s.len() && is_digit(s[digits_end(s, i + 1) + 1]) {
                    lemma_digits_end(s, digits_end(s, i + 1) + 1);
                }
            }
            return self.number();
        }
        if c == '(' {
            return self.make_token(TokenType::LeftParen);
        }
        if c == ')' {
            return self.make_token(TokenType::RightParen);
        }
        if c == '{' {
            return self.make_token(TokenType::LeftBrace);
        }
        if c == '}' {
            return self.make_token(TokenType::RightBrace);
        }
        if c == ';' {
            return self.make_token(TokenType::Semicolon);
        }
        if c == ',' {
            return self.make_token(TokenType::Comma);
        }
        if c == '.' {
            return self.make_token(TokenType::Dot);
        }
        if c == '-' {
            return self.make_token(TokenType::Minus);
        }
        if c == '+' {
            return self.make_token(TokenType::Plus);
        }
        if c == '/' {
            return self.make_token(TokenType::Slash);
        }
        if c == '*' {
            return self.make_token(TokenType::Star);
        }
        if c == '!' {
            let token = if self.match_current('=') {
                TokenType::BangEqual
            } else {
                TokenType::Bang
            };
            return self.make_token(token);
        }
        if c == '=' {
            let token = if self.match_current('=') {
                TokenType::EqualEqual
            } else {
                TokenType::Equal
            };
            return self.make_token(token);
        }
        if c == '<' {
            let token = if self.match_current('=') {
                TokenType::LessEqual
            } else {
                TokenType::Less
            };
            return self.make_token(token);
        }
        if c == '>' {
            let token = if self.match_current('=') {
                TokenType::GreaterEqual
            } else {
                TokenType::Greater
            };
            return self.make_token(token);
        }
        if c == '"' {
            proof {
                lemma_string_close(s, i + 1);
                lemma_count_newlines(s, i + 1, string_close(s, i + 1));
                lemma_count_newlines(s, i + 1, s.len() as int);
            }
            return self.string();
        }
        self.error_token("Unexpected character.")
    }
}

/// An unterminated string yields exactly one error token and then end of
/// input: the error consumes the rest of the text, its message is
/// `Unterminated string`, and the scan that follows reports `Eof`.
pub proof fn lemma_unterminated_string_then_eof(s: Seq<char>, pos: int, line: int)
    requires
        0 <= pos <= s.len(),
        ({
            let (i, l) = skip_ws_pos(s, pos, line);
            &&& i < s.len()
            &&& s[i] == '"'
            &&& string_close(s, i + 1) >= s.len()
        }),
    ensures
        scan_spec(s, pos, line).kind == TokenType::Error,
        scan_spec(s, pos, line).msg == "Unterminated string"@,
        scan_spec(s, pos, line).end == s.len(),
        scan_spec(s, s.len() as int, scan_spec(s, pos, line).after_line).kind == TokenType::Eof,
{
    let (i, l) = skip_ws_pos(s, pos, line);
    assert(!is_alpha(s[i]));
    assert(!is_digit(s[i]));
    assert(skip_ws_pos(s, s.len() as int, scan_spec(s, pos, line).after_line) == (
        s.len() as int,
        scan_spec(s, pos, line).after_line,
    ));
}

/// Decimal digit test for executable code; agrees with the [`is_digit`]
/// model.
pub fn is_digit_ch(c: char) -> (r: bool)
    ensures
        r == is_digit(c),
{
    '0' <= c && c <= '9'
}

/// Identifier-continuation test for executable code; agrees with the
/// [`is_ident_char`] model.
pub fn is_ident_ch(c: char) -> (r: bool)
    ensures
        r == is_ident_char(c),
{
    c == '_' || ('a' <= c && c <= 'z') || ('A' <= c && c <= 'Z') || ('0' <= c && c <= '9')
}

} // verus!
