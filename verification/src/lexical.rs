//! The lexical grammar of Forge, stated as spec functions over the source
//! text (a sequence of characters). The lexer in `lexer.rs` is proved to
//! compute exactly what these functions describe.

use vstd::prelude::*;
use crate::text::{char_is_alphabetic, char_is_alphanumeric, decimal, is_ascii_letter};
use crate::token::{SpecToken, SpecTokenType, TokenType};

verus! {

/// The mathematical value of a lexer error: its kind, message and line.
pub enum SpecLexError {
    IOError(Seq<char>),
    CharacterParseError(Seq<char>, int),
    StringParseError(Seq<char>, int),
    IntegerParseError(Seq<char>, int),
    FloatParseError(Seq<char>, int),
}

pub open spec fn is_ascii_digit(c: char) -> bool {
    '0' <= c <= '9'
}

/// Spaces and tabs: skipped without changing the line.
pub open spec fn is_blank(c: char) -> bool {
    c == ' ' || c == '\t'
}

/// `\n` and `\r`: each one skipped outside a literal starts a new line.
pub open spec fn is_line_break(c: char) -> bool {
    c == '\n' || c == '\r'
}

/// A character that starts a keyword or an identifier: an alphabetic
/// character (among ASCII characters, a letter) or `_`.
pub open spec fn starts_word(c: char) -> bool {
    if (c as u32) < 0x80 {
        is_ascii_letter(c) || c == '_'
    } else {
        char_is_alphabetic(c)
    }
}

/// A character that continues a keyword or an identifier: an alphanumeric
/// character (among ASCII characters, a letter or a digit) or `_`.
pub open spec fn continues_word(c: char) -> bool {
    if (c as u32) < 0x80 {
        is_ascii_letter(c) || is_ascii_digit(c) || c == '_'
    } else {
        char_is_alphanumeric(c)
    }
}

pub open spec fn digit_value(c: char) -> int {
    c as int - '0' as int
}

/// The number written by a sequence of decimal digits.
pub open spec fn digits_value(s: Seq<char>) -> int
    decreases s.len(),
{
    if s.len() == 0 {
        0
    } else {
        digits_value(s.drop_last()) * 10 + digit_value(s.last())
    }
}

/// Whether the character at `i` exists and is `c`.
pub open spec fn char_at_is(src: Seq<char>, i: int, c: char) -> bool {
    0 <= i < src.len() && src[i] == c
}

/// Skipping blanks and line breaks from `pos` with line counter `line`:
/// the position of the first other character (or the end) and the line
/// counter there.
pub open spec fn skip_whitespace(src: Seq<char>, pos: int, line: int) -> (int, int)
    decreases src.len() - pos,
{
    if 0 <= pos < src.len() && is_blank(src[pos]) {
        skip_whitespace(src, pos + 1, line)
    } else if 0 <= pos < src.len() && is_line_break(src[pos]) {
        skip_whitespace(src, pos + 1, line + 1)
    } else {
        (pos, line)
    }
}

/// The end of a number literal whose remaining characters start at `i`:
/// digits and at most one `.`; and whether a `.` was read.
pub open spec fn number_end(src: Seq<char>, i: int, seen_dot: bool) -> (int, bool)
    decreases src.len() - i,
{
    if 0 <= i < src.len() && is_ascii_digit(src[i]) {
        number_end(src, i + 1, seen_dot)
    } else if char_at_is(src, i, '.') && !seen_dot {
        number_end(src, i + 1, true)
    } else {
        (i, seen_dot)
    }
}

/// The end of a keyword or identifier whose remaining characters start at `i`.
pub open spec fn word_end(src: Seq<char>, i: int) -> int
    decreases src.len() - i,
{
    if 0 <= i < src.len() && continues_word(src[i]) {
        word_end(src, i + 1)
    } else {
        i
    }
}

/// The token kind of a word: a keyword or type name, else an identifier.
pub open spec fn word_token(w: Seq<char>) -> SpecTokenType {
    if w == "let"@ {
        SpecTokenType::Plain(TokenType::Let)
    } else if w == "return"@ {
        SpecTokenType::Plain(TokenType::Return)
    } else if w == "true"@ {
        SpecTokenType::Plain(TokenType::True)
    } else if w == "false"@ {
        SpecTokenType::Plain(TokenType::False)
    } else if w == "void"@ {
        SpecTokenType::Plain(TokenType::Void)
    } else if w == "bool"@ {
        SpecTokenType::Plain(TokenType::Bool)
    } else if w == "char"@ {
        SpecTokenType::Plain(TokenType::Char)
    } else if w == "int8"@ {
        SpecTokenType::Plain(TokenType::Int8)
    } else if w == "int16"@ {
        SpecTokenType::Plain(TokenType::Int16)
    } else if w == "int32"@ {
        SpecTokenType::Plain(TokenType::Int32)
    } else if w == "int64"@ {
        SpecTokenType::Plain(TokenType::Int64)
    } else if w == "uint8"@ {
        SpecTokenType::Plain(TokenType::UInt8)
    } else if w == "uint16"@ {
        SpecTokenType::Plain(TokenType::UInt16)
    } else if w == "uint32"@ {
        SpecTokenType::Plain(TokenType::UInt32)
    } else if w == "uint64"@ {
        SpecTokenType::Plain(TokenType::UInt64)
    } else if w == "float32"@ {
        SpecTokenType::Plain(TokenType::Float32)
    } else if w == "float64"@ {
        SpecTokenType::Plain(TokenType::Float64)
    } else if w == "string"@ {
        SpecTokenType::Plain(TokenType::String)
    } else {
        SpecTokenType::Identifier(w)
    }
}

/// The character that an escape sequence `\c` stands for.
pub open spec fn escaped_char(c: char) -> Option<char> {
    if c == 'n' {
        Some('\n')
    } else if c == 't' {
        Some('\t')
    } else if c == 'r' {
        Some('\r')
    } else if c == '\\' {
        Some('\\')
    } else if c == '\'' {
        Some('\'')
    } else if c == '"' {
        Some('"')
    } else if c == '0' {
        Some('\0')
    } else {
        None
    }
}

pub open spec fn msg_unterminated_string(line: int) -> Seq<char> {
    "Unterminated string on line "@ + decimal(line as nat)
}

pub open spec fn msg_unterminated_char(line: int) -> Seq<char> {
    "Unterminated char literal on line "@ + decimal(line as nat)
}

pub open spec fn msg_expected_closing_quote(line: int, c: char) -> Seq<char> {
    "Expected closing ' on line "@ + decimal(line as nat) + " but got '"@ + seq![c] + "'"@
}

pub open spec fn msg_unknown_escape(c: char, line: int) -> Seq<char> {
    "Unknown escape sequence '\\"@ + seq![c] + "' on line "@ + decimal(line as nat)
}

pub open spec fn msg_end_after_backslash(line: int) -> Seq<char> {
    "Unexpected end of file after '\\' on line "@ + decimal(line as nat)
}

pub open spec fn msg_invalid_bang(line: int) -> Seq<char> {
    "Invalid token found on line "@ + decimal(line as nat) + ", '!'."@
}

/// The escape sequence whose backslash has been read and whose next
/// character is at `i`: the character it stands for and the position after
/// it, or the error and the position where reading stopped.
pub open spec fn escape_at(src: Seq<char>, i: int, line: int) -> (Result<char, SpecLexError>, int) {
    if 0 <= i < src.len() {
        match escaped_char(src[i]) {
            Some(e) => (Ok(e), i + 1),
            None => (
                Err(SpecLexError::CharacterParseError(msg_unknown_escape(src[i], line), line)),
                i,
            ),
        }
    } else {
        (Err(SpecLexError::CharacterParseError(msg_end_after_backslash(line), line)), i)
    }
}

/// The rest of a string literal from `i`, after the characters `read` so
/// far: its contents and the position after the closing `"`, or the error
/// and the position where reading stopped.
pub open spec fn string_rest(src: Seq<char>, i: int, line: int, read: Seq<char>) -> (
    Result<Seq<char>, SpecLexError>,
    int,
)
    decreases src.len() - i,
{
    if !(0 <= i < src.len()) {
        (Err(SpecLexError::StringParseError(msg_unterminated_string(line), line)), i)
    } else if src[i] == '"' {
        (Ok(read), i + 1)
    } else if src[i] == '\\' {
        if i + 1 < src.len() && escaped_char(src[i + 1]) is Some {
            string_rest(src, i + 2, line, read.push(escaped_char(src[i + 1])->0))
        } else {
            let (e, j) = escape_at(src, i + 1, line);
            (Err(e->Err_0), j)
        }
    } else {
        string_rest(src, i + 1, line, read.push(src[i]))
    }
}

/// A character literal whose opening `'` has been read and whose next
/// character is at `i`.
pub open spec fn char_literal(src: Seq<char>, i: int, line: int) -> (Result<char, SpecLexError>, int) {
    if !(0 <= i < src.len()) {
        (Err(SpecLexError::CharacterParseError(msg_unterminated_char(line), line)), i)
    } else {
        let (first, j) = if src[i] == '\\' {
            escape_at(src, i + 1, line)
        } else {
            (Ok(src[i]), i + 1)
        };
        match first {
            Err(e) => (Err(e), j),
            Ok(c) => if !(0 <= j < src.len()) {
                (Err(SpecLexError::CharacterParseError(msg_unterminated_char(line), line)), j)
            } else if src[j] == '\'' {
                (Ok(c), j + 1)
            } else {
                (
                    Err(
                        SpecLexError::CharacterParseError(
                            msg_expected_closing_quote(line, src[j]),
                            line,
                        ),
                    ),
                    j,
                )
            },
        }
    }
}

/// What reading one token yields.
pub enum Step {
    /// A token of this kind.
    Emit(SpecTokenType),
    /// Nothing: a character that starts no token.
    Skip,
    /// Nothing, but this notice about a lone `!` is reported.
    Notice(Seq<char>),
    /// An error.
    Fail(SpecLexError),
    /// A number literal whose value does not fit in an `i64`; lexing cannot
    /// go on.
    Oversized,
}

/// A token of kind `t`, which stands for itself.
pub open spec fn plain(t: TokenType) -> Step {
    Step::Emit(SpecTokenType::Plain(t))
}

/// A token of kind `one`, or of kind `two` when the next character (at `q`)
/// is `next`, which it then includes.
pub open spec fn one_or_two(src: Seq<char>, q: int, next: char, two: TokenType, one: TokenType) -> (Step, int) {
    if char_at_is(src, q, next) {
        (plain(two), q + 1)
    } else {
        (plain(one), q)
    }
}

/// Reading one token whose first character is at `p`: what it yields and
/// the position after it. `line` is the line counter while reading it.
pub open spec fn scan_token(src: Seq<char>, p: int, line: int) -> (Step, int) {
    let c = src[p];
    let q = p + 1;
    if is_ascii_digit(c) {
        let (e, is_float) = number_end(src, q, false);
        let text = src.subrange(p, e);
        if is_float {
            (Step::Emit(SpecTokenType::Float64Literal(text)), e)
        } else if digits_value(text) <= i64::MAX {
            (plain(TokenType::Int64Literal(digits_value(text) as i64)), e)
        } else {
            (Step::Oversized, e)
        }
    } else if starts_word(c) {
        let e = word_end(src, q);
        (Step::Emit(word_token(src.subrange(p, e))), e)
    } else if c == '"' {
        match string_rest(src, q, line, seq![]) {
            (Ok(s), e) => (Step::Emit(SpecTokenType::StringLiteral(s)), e),
            (Err(x), e) => (Step::Fail(x), e),
        }
    } else if c == '\'' {
        match char_literal(src, q, line) {
            (Ok(ch), e) => (plain(TokenType::CharLiteral(ch)), e),
            (Err(x), e) => (Step::Fail(x), e),
        }
    } else if c == '(' {
        (plain(TokenType::LeftParenthesis), q)
    } else if c == ')' {
        (plain(TokenType::RightParenthesis), q)
    } else if c == '{' {
        (plain(TokenType::LeftBrace), q)
    } else if c == '}' {
        (plain(TokenType::RightBrace), q)
    } else if c == ':' {
        (plain(TokenType::Colon), q)
    } else if c == ';' {
        (plain(TokenType::Semicolon), q)
    } else if c == ',' {
        (plain(TokenType::Comma), q)
    } else if c == '.' {
        (plain(TokenType::Dot), q)
    } else if c == '-' {
        if char_at_is(src, q, '>') {
            (plain(TokenType::Arrow), q + 1)
        } else if char_at_is(src, q, '-') {
            (plain(TokenType::MinusMinus), q + 1)
        } else {
            one_or_two(src, q, '=', TokenType::MinusEquals, TokenType::Minus)
        }
    } else if c == '=' {
        one_or_two(src, q, '=', TokenType::EqualsEquals, TokenType::Equals)
    } else if c == '+' {
        if char_at_is(src, q, '=') {
            (plain(TokenType::PlusEquals), q + 1)
        } else {
            one_or_two(src, q, '+', TokenType::PlusPlus, TokenType::Plus)
        }
    } else if c == '*' {
        one_or_two(src, q, '=', TokenType::StarEquals, TokenType::Star)
    } else if c == '/' {
        one_or_two(src, q, '=', TokenType::SlashEquals, TokenType::Slash)
    } else if c == '!' {
        if char_at_is(src, q, '=') {
            (plain(TokenType::NotEquals), q + 1)
        } else {
            (Step::Notice(msg_invalid_bang(line)), q)
        }
    } else if c == '<' {
        one_or_two(src, q, '=', TokenType::LessThanOrEquals, TokenType::LessThan)
    } else if c == '>' {
        one_or_two(src, q, '=', TokenType::GreaterThanOrEquals, TokenType::GreaterThan)
    } else {
        (Step::Skip, q)
    }
}

/// What lexing yields: tokens, errors and notices, each in source order.
#[verifier::ext_equal]
pub struct Lexed {
    pub tokens: Seq<SpecToken>,
    pub errors: Seq<SpecLexError>,
    pub notices: Seq<Seq<char>>,
}

pub open spec fn nothing_lexed() -> Lexed {
    Lexed { tokens: seq![], errors: seq![], notices: seq![] }
}

/// `acc` followed by what `step`, read on line `line`, yields.
pub open spec fn record(acc: Lexed, step: Step, line: int) -> Lexed {
    match step {
        Step::Emit(t) => Lexed {
            tokens: acc.tokens.push(SpecToken { token_type: t, line }),
            ..acc
        },
        Step::Fail(e) => Lexed { errors: acc.errors.push(e), ..acc },
        Step::Notice(m) => Lexed { notices: acc.notices.push(m), ..acc },
        _ => acc,
    }
}

/// Lexing from `pos` with line counter `line`, after `acc` has been
/// collected: everything collected up to the end of the source, or `None`
/// where lexing cannot complete (the line counter would pass `u32::MAX`, or
/// a number literal does not fit in an `i64`).
pub open spec fn lex_rest(src: Seq<char>, pos: int, line: int, acc: Lexed) -> Option<Lexed>
    decreases src.len() - pos,
    via lex_rest_decreases
{
    if !(0 <= pos < src.len()) {
        Some(acc)
    } else {
        let (p, l) = skip_whitespace(src, pos, line);
        if l > u32::MAX {
            None
        } else if p >= src.len() {
            Some(acc)
        } else {
            let (step, e) = scan_token(src, p, l);
            if step is Oversized {
                None
            } else {
                lex_rest(src, e, l, record(acc, step, l))
            }
        }
    }
}

/// Lexing a whole source text from its first character on line 1.
pub open spec fn lex(src: Seq<char>) -> Option<Lexed> {
    lex_rest(src, 0, 1, nothing_lexed())
}

#[via_fn]
proof fn lex_rest_decreases(src: Seq<char>, pos: int, line: int, acc: Lexed) {
    if 0 <= pos < src.len() {
        lemma_skip_whitespace_bounds(src, pos, line);
        let (p, l) = skip_whitespace(src, pos, line);
        if p < src.len() {
            lemma_scan_token_advances(src, p, l);
        }
    }
}

pub proof fn lemma_skip_whitespace_bounds(src: Seq<char>, pos: int, line: int)
    requires
        0 <= pos <= src.len(),
    ensures
        pos <= skip_whitespace(src, pos, line).0 <= src.len(),
        line <= skip_whitespace(src, pos, line).1,
    decreases src.len() - pos,
{
    if pos < src.len() && (is_blank(src[pos]) || is_line_break(src[pos])) {
        let l = if is_blank(src[pos]) { line } else { line + 1 };
        lemma_skip_whitespace_bounds(src, pos + 1, l);
    }
}

pub proof fn lemma_number_end_bounds(src: Seq<char>, i: int, seen_dot: bool)
    requires
        0 <= i <= src.len(),
    ensures
        i <= number_end(src, i, seen_dot).0 <= src.len(),
    decreases src.len() - i,
{
    if i < src.len() && (is_ascii_digit(src[i]) || (src[i] == '.' && !seen_dot)) {
        let s = if is_ascii_digit(src[i]) { seen_dot } else { true };
        lemma_number_end_bounds(src, i + 1, s);
    }
}

pub proof fn lemma_word_end_bounds(src: Seq<char>, i: int)
    requires
        0 <= i <= src.len(),
    ensures
        i <= word_end(src, i) <= src.len(),
    decreases src.len() - i,
{
    if i < src.len() && continues_word(src[i]) {
        lemma_word_end_bounds(src, i + 1);
    }
}

pub proof fn lemma_string_rest_bounds(src: Seq<char>, i: int, line: int, read: Seq<char>)
    requires
        0 <= i <= src.len(),
    ensures
        i <= string_rest(src, i, line, read).1 <= src.len(),
    decreases src.len() - i,
{
    if i < src.len() && src[i] != '"' {
        if src[i] == '\\' {
            if i + 1 < src.len() && escaped_char(src[i + 1]) is Some {
                lemma_string_rest_bounds(src, i + 2, line, read.push(escaped_char(src[i + 1])->0));
            }
        } else {
            lemma_string_rest_bounds(src, i + 1, line, read.push(src[i]));
        }
    }
}

/// Reading a token moves forward and stays within the source.
pub proof fn lemma_scan_token_advances(src: Seq<char>, p: int, line: int)
    requires
        0 <= p < src.len(),
    ensures
        p < scan_token(src, p, line).1 <= src.len(),
{
    let c = src[p];
    if is_ascii_digit(c) {
        lemma_number_end_bounds(src, p + 1, false);
    } else if starts_word(c) {
        lemma_word_end_bounds(src, p + 1);
    } else if c == '"' {
        lemma_string_rest_bounds(src, p + 1, line, seq![]);
    }
}

} // verus!
