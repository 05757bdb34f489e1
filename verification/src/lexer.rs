//! The lexer: turns source text into tokens, errors and notices.

use vstd::prelude::*;
use vstd::string::*;
use crate::lexical::{
    char_literal, digit_value, digits_value, escape_at, is_ascii_digit, lemma_scan_token_advances,
    lemma_skip_whitespace_bounds, lex_rest, msg_expected_closing_quote, msg_invalid_bang,
    msg_unknown_escape, nothing_lexed, number_end, record, scan_token, skip_whitespace,
    string_rest, word_end, word_token, Lexed, SpecLexError, Step,
};
use crate::text::{chars_of, decimal, is_alphabetic, is_alphanumeric, push_char, push_decimal};
use crate::token::{SpecTokenType, Token, TokenType};

verus! {

/////////////////////////////////////////////////////
// Helpers
/////////////////////////////////////////////////////

/// An error met while reading the source: a message and the line it was
/// met on.
#[derive(Debug, Clone, PartialEq)]
pub enum LexError {
    IOError(String),
    CharacterParseError(String, u32),
    StringParseError(String, u32),
    IntegerParseError(String, u32),
    FloatParseError(String, u32),
}

impl View for LexError {
    type V = SpecLexError;

    open spec fn view(&self) -> SpecLexError {
        match self {
            LexError::IOError(m) => SpecLexError::IOError(m@),
            LexError::CharacterParseError(m, l) => SpecLexError::CharacterParseError(m@, *l as int),
            LexError::StringParseError(m, l) => SpecLexError::StringParseError(m@, *l as int),
            LexError::IntegerParseError(m, l) => SpecLexError::IntegerParseError(m@, *l as int),
            LexError::FloatParseError(m, l) => SpecLexError::FloatParseError(m@, *l as int),
        }
    }
}

/// What the lexer has collected, as values.
pub open spec fn lexed_view(tokens: Seq<Token>, errors: Seq<LexError>, notices: Seq<String>) -> Lexed {
    Lexed {
        tokens: tokens.map_values(|t: Token| t@),
        errors: errors.map_values(|e: LexError| e@),
        notices: notices.map_values(|s: String| s@),
    }
}

/// The result of reading one token.
enum Scanned {
    Token(Token),
    Nothing,
    Notice(String),
    Error(LexError),
    TooLarge,
}

impl View for Scanned {
    type V = Step;

    closed spec fn view(&self) -> Step {
        match self {
            Scanned::Token(t) => Step::Emit(t.token_type@),
            Scanned::Nothing => Step::Skip,
            Scanned::Notice(m) => Step::Notice(m@),
            Scanned::Error(e) => Step::Fail(e@),
            Scanned::TooLarge => Step::Oversized,
        }
    }
}

fn message_with_line(prefix: &str, line: u32) -> (r: String)
    ensures
        r@ == prefix@ + decimal(line as nat),
{
    let mut s = String::from_str(prefix);
    push_decimal(&mut s, line as u64);
    s
}

fn unknown_escape_message(c: char, line: u32) -> (r: String)
    ensures
        r@ == msg_unknown_escape(c, line as int),
{
    let mut s = String::from_str("Unknown escape sequence '\\");
    push_char(&mut s, c);
    s.append("' on line ");
    push_decimal(&mut s, line as u64);
    proof {
        assert(s@ =~= msg_unknown_escape(c, line as int));
    }
    s
}

fn expected_closing_message(line: u32, c: char) -> (r: String)
    ensures
        r@ == msg_expected_closing_quote(line as int, c),
{
    let mut s = message_with_line("Expected closing ' on line ", line);
    s.append(" but got '");
    push_char(&mut s, c);
    s.append("'");
    proof {
        assert(s@ =~= msg_expected_closing_quote(line as int, c));
    }
    s
}

fn invalid_bang_message(line: u32) -> (r: String)
    ensures
        r@ == msg_invalid_bang(line as int),
{
    let mut s = message_with_line("Invalid token found on line ", line);
    s.append(", '!'.");
    s
}

/// Whether `s` reads `w`.
fn is_word(s: &String, w: &str) -> (r: bool)
    ensures
        r == (s@ == w@),
{
    let literal = String::from_str(w);
    s.eq(&literal)
}

/// The token kind of a word: a keyword or type name, else an identifier.
fn keyword_or_identifier(identifier: String) -> (r: TokenType)
    ensures
        r@ == word_token(identifier@),
{
    if is_word(&identifier, "let") {
        TokenType::Let
    } else if is_word(&identifier, "return") {
        TokenType::Return
    } else if is_word(&identifier, "true") {
        TokenType::True
    } else if is_word(&identifier, "false") {
        TokenType::False
    } else if is_word(&identifier, "void") {
        TokenType::Void
    } else if is_word(&identifier, "bool") {
        TokenType::Bool
    } else if is_word(&identifier, "char") {
        TokenType::Char
    } else if is_word(&identifier, "int8") {
        TokenType::Int8
    } else if is_word(&identifier, "int16") {
        TokenType::Int16
    } else if is_word(&identifier, "int32") {
        TokenType::Int32
    } else if is_word(&identifier, "int64") {
        TokenType::Int64
    } else if is_word(&identifier, "uint8") {
        TokenType::UInt8
    } else if is_word(&identifier, "uint16") {
        TokenType::UInt16
    } else if is_word(&identifier, "uint32") {
        TokenType::UInt32
    } else if is_word(&identifier, "uint64") {
        TokenType::UInt64
    } else if is_word(&identifier, "float32") {
        TokenType::Float32
    } else if is_word(&identifier, "float64") {
        TokenType::Float64
    } else if is_word(&identifier, "string") {
        TokenType::String
    } else {
        TokenType::Identifier(identifier)
    }
}

/////////////////////////////////////////////////////
// Lexer
/////////////////////////////////////////////////////

/// Reads a source text character by character.
#[derive(Debug)]
pub struct Lexer {
    source: Vec<char>,
    current_char: usize,
    current_line: u32,
}

/// The state of a lexer as values: the source text, the position of the
/// next character to read, and the line counter.
pub struct LexerState {
    pub source: Seq<char>,
    pub position: int,
    pub line: int,
}

impl LexerState {
    /// The same state at another position.
    pub open spec fn at(self, position: int) -> LexerState {
        LexerState { position, ..self }
    }

    /// The same state at another position and line.
    pub open spec fn at_line(self, position: int, line: int) -> LexerState {
        LexerState { position, line, ..self }
    }
}

impl View for Lexer {
    type V = LexerState;

    closed spec fn view(&self) -> LexerState {
        LexerState {
            source: self.source@,
            position: self.current_char as int,
            line: self.current_line as int,
        }
    }
}

impl Lexer {
    /// The position is within the source, and the line counter is a `u32`.
    pub open spec fn well_formed(&self) -> bool {
        &&& 0 <= self@.position <= self@.source.len()
        &&& 0 <= self@.line <= u32::MAX
    }

    /// What lexing the rest of the source yields, `None` where it cannot
    /// complete.
    pub open spec fn outcome(&self) -> Option<Lexed> {
        lex_rest(self@.source, self@.position, self@.line, nothing_lexed())
    }

    /////////////////////////////////////////////////////
    // Public functions
    /////////////////////////////////////////////////////

    /// A lexer at the first character of `source`, on line 1.
    pub fn new(source: &str) -> (r: Lexer)
        ensures
            r@ == (LexerState { source: source@, position: 0, line: 1 }),
            r.well_formed(),
    {
        let chars = chars_of(source);
        Lexer { source: chars, current_char: 0, current_line: 1 }
    }
}


impl Lexer {
    /// Whether the given position, or else the current one, is past the last
    /// character.
    pub fn is_at_end(&self, char_to_check_or_current_char: Option<usize>) -> (r: bool)
        ensures
            r == (match char_to_check_or_current_char {
                Some(i) => i as int,
                None => self@.position,
            } >= self@.source.len()),
    {
        let c: usize = match char_to_check_or_current_char {
            Some(i) => i,
            None => self.current_char,
        };
        c >= self.source.len()
    }

    /// Skips blanks and line breaks, counting the line breaks.
    ///
    /// The line counter must not pass `u32::MAX` on the way.
    pub fn skip_whitespace(&mut self)
        requires
            old(self).well_formed(),
            skip_whitespace(old(self)@.source, old(self)@.position, old(self)@.line).1 <= u32::MAX,
        ensures
            final(self).well_formed(),
            final(self)@ == old(self)@.at_line(
                skip_whitespace(old(self)@.source, old(self)@.position, old(self)@.line).0,
                skip_whitespace(old(self)@.source, old(self)@.position, old(self)@.line).1,
            ),
    {
        let skipped = self.skip_whitespace_checked();
        assert(skipped);
    }

    /// As `skip_whitespace`; returns `false`, with the lexer somewhere on the
    /// way, where the line counter would pass `u32::MAX`.
    fn skip_whitespace_checked(&mut self) -> (ok: bool)
        requires
            old(self).well_formed(),
        ensures
            final(self).well_formed(),
            final(self)@.source == old(self)@.source,
            ok == (skip_whitespace(old(self)@.source, old(self)@.position, old(self)@.line).1 <= u32::MAX),
            ok ==> final(self)@ == old(self)@.at_line(
                skip_whitespace(old(self)@.source, old(self)@.position, old(self)@.line).0,
                skip_whitespace(old(self)@.source, old(self)@.position, old(self)@.line).1,
            ),
    {
        loop
            invariant
                self.well_formed(),
                self@.source == old(self)@.source,
                skip_whitespace(self@.source, self@.position, self@.line)
                    == skip_whitespace(old(self)@.source, old(self)@.position, old(self)@.line),
            decreases self@.source.len() - self@.position,
        {
            match self.peek(None) {
                Some(c) => {
                    if c == ' ' || c == '\t' {
                        self.consume();
                    } else if c == '\n' || c == '\r' {
                        if self.current_line == u32::MAX {
                            proof {
                                lemma_skip_whitespace_bounds(
                                    self@.source,
                                    self@.position + 1,
                                    self@.line + 1,
                                );
                            }
                            return false;
                        }
                        self.current_line += 1;
                        self.consume();
                    } else {
                        return true;
                    }
                },
                None => {
                    return true;
                },
            }
        }
    }

    /// The character `offset` (default 0) places after the current one, if
    /// there is one.
    pub fn peek(&self, offset: Option<usize>) -> (r: Option<char>)
        requires
            self.well_formed(),
            self@.position + match offset {
                Some(o) => o as int,
                None => 0,
            } <= usize::MAX,
        ensures
            ({
                let index = self@.position + match offset {
                    Some(o) => o as int,
                    None => 0,
                };
                r == if index < self@.source.len() {
                    Some(self@.source[index])
                } else {
                    None::<char>
                }
            }),
    {
        let off: usize = match offset {
            Some(o) => o,
            None => 0,
        };
        let index: usize = self.current_char + off;
        if self.is_at_end(Some(index)) {
            return None;
        }
        Some(self.source[index])
    }

    /// Reads the current character and moves past it. There must be one.
    pub fn consume(&mut self) -> (c: char)
        requires
            old(self).well_formed(),
            old(self)@.position < old(self)@.source.len(),
        ensures
            final(self).well_formed(),
            final(self)@ == old(self)@.at(old(self)@.position + 1),
            c == old(self)@.source[old(self)@.position],
    {
        let c = self.source[self.current_char];
        let length = self.source.len();
        assert(self.current_char < length);
        self.current_char += 1;
        c
    }

    /// Reads the escape sequence whose backslash has just been read: the
    /// character it stands for, or an error, and the lexer where
    /// `escape_at` says reading stops.
    pub fn parse_escape_sequence(&mut self) -> (r: Result<char, LexError>)
        requires
            old(self).well_formed(),
        ensures
            final(self).well_formed(),
            ({
                let (res, e) = escape_at(old(self)@.source, old(self)@.position, old(self)@.line);
                &&& final(self)@ == old(self)@.at(e)
                &&& match res {
                    Ok(ch) => r == Ok::<char, LexError>(ch),
                    Err(x) => r matches Err(le) && le@ == x,
                }
            }),
    {
        match self.peek(None) {
            Some(c) => {
                if c == 'n' {
                    self.consume();
                    Ok('\n')
                } else if c == 't' {
                    self.consume();
                    Ok('\t')
                } else if c == 'r' {
                    self.consume();
                    Ok('\r')
                } else if c == '\\' {
                    self.consume();
                    Ok('\\')
                } else if c == '\'' {
                    self.consume();
                    Ok('\'')
                } else if c == '"' {
                    self.consume();
                    Ok('"')
                } else if c == '0' {
                    self.consume();
                    Ok('\0')
                } else {
                    Err(LexError::CharacterParseError(unknown_escape_message(c, self.current_line), self.current_line))
                }
            },
            None => {
                Err(LexError::CharacterParseError(
                    message_with_line("Unexpected end of file after '\\' on line ", self.current_line),
                    self.current_line,
                ))
            },
        }
    }

    fn make_token(&self, token_type: TokenType) -> (t: Token)
        ensures
            t.token_type == token_type,
            t.line == self.current_line,
    {
        Token { token_type: token_type, line: self.current_line }
    }
}


proof fn lemma_digits_value_push(s: Seq<char>, c: char)
    ensures
        digits_value(s.push(c)) == digits_value(s) * 10 + digit_value(c),
{
    assert(s.push(c).drop_last() =~= s);
}

impl Lexer {
    /// Reads the rest of a number literal whose first digit `start_char` has
    /// just been read. `None` where the literal has no `.` and its value does
    /// not fit in an `i64`.
    fn lex_number(&mut self, start_char: char) -> (r: Option<TokenType>)
        requires
            old(self).well_formed(),
            1 <= old(self)@.position,
            old(self)@.source[old(self)@.position - 1] == start_char,
            is_ascii_digit(start_char),
        ensures
            final(self).well_formed(),
            ({
                let src = old(self)@.source;
                let p = old(self)@.position - 1;
                let (e, is_float) = number_end(src, p + 1, false);
                let text = src.subrange(p, e);
                &&& final(self)@ == old(self)@.at(e)
                &&& match r {
                    Some(t) => if is_float {
                        t@ == SpecTokenType::Float64Literal(text)
                    } else {
                        digits_value(text) <= i64::MAX
                            && t == TokenType::Int64Literal(digits_value(text) as i64)
                    },
                    None => !is_float && digits_value(text) > i64::MAX,
                }
            }),
    {
        let ghost p = self@.position - 1;
        let mut num = String::new();
        push_char(&mut num, start_char);
        let mut is_float = false;
        let mut value: i64 = (start_char as u32 - '0' as u32) as i64;
        let mut fits = true;
        proof {
            assert(num@ =~= self@.source.subrange(p, self@.position));
            lemma_digits_value_push(seq![], start_char);
            assert(seq![start_char] =~= Seq::<char>::empty().push(start_char));
        }
        loop
            invariant
                self.well_formed(),
                self@.source == old(self)@.source,
                self@.line == old(self)@.line,
                0 <= p, p + 1 <= self@.position,
                p == old(self)@.position - 1,
                number_end(self@.source, self@.position, is_float)
                    == number_end(self@.source, p + 1, false),
                num@ == self@.source.subrange(p, self@.position),
                !is_float ==> (fits ==> value == digits_value(num@)),
                !is_float ==> (!fits ==> digits_value(num@) > i64::MAX),
                0 <= value,
            ensures
                self.well_formed(),
                self@.source == old(self)@.source,
                self@.line == old(self)@.line,
                0 <= p, p + 1 <= self@.position,
                number_end(self@.source, self@.position, is_float) == (self@.position as int, is_float),
                number_end(self@.source, self@.position, is_float)
                    == number_end(self@.source, p + 1, false),
                num@ == self@.source.subrange(p, self@.position),
                !is_float ==> (fits ==> value == digits_value(num@)),
                !is_float ==> (!fits ==> digits_value(num@) > i64::MAX),
            decreases self@.source.len() - self@.position,
        {
            let ghost before = num@;
            match self.peek(None) {
                Some(c) => {
                    if '0' <= c && c <= '9' {
                        push_char(&mut num, c);
                        self.consume();
                        let d: i64 = (c as u32 - '0' as u32) as i64;
                        proof {
                            lemma_digits_value_push(before, c);
                        }
                        if fits {
                            match value.checked_mul(10) {
                                Some(m) => match m.checked_add(d) {
                                    Some(v) => {
                                        value = v;
                                    },
                                    None => {
                                        fits = false;
                                    },
                                },
                                None => {
                                    fits = false;
                                },
                            }
                        }
                        proof {
                            assert(num@ =~= self@.source.subrange(p, self@.position));
                        }
                    } else if c == '.' && !is_float {
                        is_float = true;
                        push_char(&mut num, c);
                        self.consume();
                        proof {
                            assert(num@ =~= self@.source.subrange(p, self@.position));
                        }
                    } else {
                        break;
                    }
                },
                None => {
                    break;
                },
            }
        }
        if is_float {
            return Some(TokenType::Float64Literal(num));
        }
        if fits {
            Some(TokenType::Int64Literal(value))
        } else {
            None
        }
    }

    /// Reads the rest of a keyword or identifier whose first character
    /// `start_char` has just been read.
    fn lex_keyword_types_and_identifiers(&mut self, start_char: char) -> (r: TokenType)
        requires
            old(self).well_formed(),
            1 <= old(self)@.position,
            old(self)@.source[old(self)@.position - 1] == start_char,
        ensures
            final(self).well_formed(),
            ({
                let src = old(self)@.source;
                let p = old(self)@.position - 1;
                let e = word_end(src, p + 1);
                &&& final(self)@ == old(self)@.at(e)
                &&& r@ == word_token(src.subrange(p, e))
            }),
    {
        let ghost p = self@.position - 1;
        let mut identifier = String::new();
        push_char(&mut identifier, start_char);
        proof {
            assert(identifier@ =~= self@.source.subrange(p, self@.position));
        }
        loop
            invariant
                self.well_formed(),
                self@.source == old(self)@.source,
                self@.line == old(self)@.line,
                0 <= p, p + 1 <= self@.position,
                p == old(self)@.position - 1,
                word_end(self@.source, self@.position) == word_end(self@.source, p + 1),
                identifier@ == self@.source.subrange(p, self@.position),
            ensures
                self.well_formed(),
                self@.source == old(self)@.source,
                self@.line == old(self)@.line,
                0 <= p, p + 1 <= self@.position,
                word_end(self@.source, self@.position) == self@.position,
                word_end(self@.source, self@.position) == word_end(self@.source, p + 1),
                identifier@ == self@.source.subrange(p, self@.position),
            decreases self@.source.len() - self@.position,
        {
            match self.peek(None) {
                Some(c) => {
                    if is_alphanumeric(c) || c == '_' {
                        push_char(&mut identifier, c);
                        self.consume();
                        proof {
                            assert(identifier@ =~= self@.source.subrange(p, self@.position));
                        }
                    } else {
                        break;
                    }
                },
                None => {
                    break;
                },
            }
        }
        keyword_or_identifier(identifier)
    }

    /// Reads the rest of a string literal whose opening `"` has just been
    /// read.
    pub fn lex_string(&mut self) -> (r: Result<TokenType, LexError>)
        requires
            old(self).well_formed(),
        ensures
            final(self).well_formed(),
            ({
                let (res, e) = string_rest(old(self)@.source, old(self)@.position, old(self)@.line, seq![]);
                &&& final(self)@ == old(self)@.at(e)
                &&& match res {
                    Ok(text) => r matches Ok(t) && t@ == SpecTokenType::StringLiteral(text),
                    Err(x) => r matches Err(le) && le@ == x,
                }
            }),
    {
        let mut string = String::new();
        loop
            invariant
                self.well_formed(),
                self@.source == old(self)@.source,
                self@.line == old(self)@.line,
                string_rest(self@.source, self@.position, self@.line, string@)
                    == string_rest(old(self)@.source, old(self)@.position, old(self)@.line, seq![]),
            decreases self@.source.len() - self@.position,
        {
            match self.peek(None) {
                None => {
                    return Err(LexError::StringParseError(
                        message_with_line("Unterminated string on line ", self.current_line),
                        self.current_line,
                    ));
                },
                Some(c) => {
                    if c == '"' {
                        self.consume();
                        return Ok(TokenType::StringLiteral(string));
                    } else if c == '\\' {
                        self.consume();
                        match self.parse_escape_sequence() {
                            Ok(escaped) => {
                                push_char(&mut string, escaped);
                            },
                            Err(error) => {
                                return Err(error);
                            },
                        }
                    } else {
                        push_char(&mut string, c);
                        self.consume();
                    }
                },
            }
        }
    }

    /// Reads the rest of a character literal whose opening `'` has just been
    /// read.
    pub fn lex_char(&mut self) -> (r: Result<TokenType, LexError>)
        requires
            old(self).well_formed(),
        ensures
            final(self).well_formed(),
            ({
                let (res, e) = char_literal(old(self)@.source, old(self)@.position, old(self)@.line);
                &&& final(self)@ == old(self)@.at(e)
                &&& match res {
                    Ok(ch) => r == Ok::<TokenType, LexError>(TokenType::CharLiteral(ch)),
                    Err(x) => r matches Err(le) && le@ == x,
                }
            }),
    {
        let c = match self.peek(None) {
            None => {
                return Err(LexError::CharacterParseError(
                    message_with_line("Unterminated char literal on line ", self.current_line),
                    self.current_line,
                ));
            },
            Some(first) => {
                if first == '\\' {
                    self.consume();
                    match self.parse_escape_sequence() {
                        Ok(escaped) => escaped,
                        Err(error) => {
                            return Err(error);
                        },
                    }
                } else {
                    self.consume()
                }
            },
        };

        match self.peek(None) {
            Some(next) => {
                if next == '\'' {
                    self.consume();
                } else {
                    return Err(LexError::CharacterParseError(
                        expected_closing_message(self.current_line, next),
                        self.current_line,
                    ));
                }
            },
            None => {
                return Err(LexError::CharacterParseError(
                    message_with_line("Unterminated char literal on line ", self.current_line),
                    self.current_line,
                ));
            },
        }

        Ok(TokenType::CharLiteral(c))
    }
}


impl Lexer {
    /// A token of kind `two` if the next character is `next` (which it then
    /// reads), else one of kind `one`.
    fn one_or_two(&mut self, next: char, two: TokenType, one: TokenType) -> (r: Scanned)
        requires
            old(self).well_formed(),
            !two.has_text(),
            !one.has_text(),
        ensures
            final(self).well_formed(),
            ({
                let (step, e) = crate::lexical::one_or_two(
                    old(self)@.source,
                    old(self)@.position,
                    next,
                    two,
                    one,
                );
                &&& final(self)@ == old(self)@.at(e)
                &&& r@ == step
                &&& r matches Scanned::Token(t) ==> t.line == old(self)@.line
            }),
    {
        match self.peek(None) {
            Some(c) => {
                if c == next {
                    self.consume();
                    return Scanned::Token(self.make_token(two));
                }
            },
            None => {},
        }
        Scanned::Token(self.make_token(one))
    }

    /// Reads one token starting at the current character, which must exist.
    fn next_token(&mut self) -> (r: Scanned)
        requires
            old(self).well_formed(),
            old(self)@.position < old(self)@.source.len(),
        ensures
            final(self).well_formed(),
            ({
                let (step, e) = scan_token(old(self)@.source, old(self)@.position, old(self)@.line);
                &&& final(self)@ == old(self)@.at(e)
                &&& r@ == step
                &&& r matches Scanned::Token(t) ==> t.line == old(self)@.line
            }),
    {
        let c = self.consume();

        // Literals (number)
        if '0' <= c && c <= '9' {
            let result = self.lex_number(c);
            match result {
                Some(token_type) => return Scanned::Token(self.make_token(token_type)),
                None => return Scanned::TooLarge,
            }
        }

        // Keywords, Types & identifiers
        if is_alphabetic(c) || c == '_' {
            let result_type = self.lex_keyword_types_and_identifiers(c);
            return Scanned::Token(self.make_token(result_type));
        }

        if c == '"' {
            match self.lex_string() {
                Ok(token_type) => return Scanned::Token(self.make_token(token_type)),
                Err(error) => return Scanned::Error(error),
            }
        } else if c == '\'' {
            match self.lex_char() {
                Ok(token_type) => return Scanned::Token(self.make_token(token_type)),
                Err(error) => return Scanned::Error(error),
            }
        }
        // Punctuation
        else if c == '(' {
            Scanned::Token(self.make_token(TokenType::LeftParenthesis))
        } else if c == ')' {
            Scanned::Token(self.make_token(TokenType::RightParenthesis))
        } else if c == '{' {
            Scanned::Token(self.make_token(TokenType::LeftBrace))
        } else if c == '}' {
            Scanned::Token(self.make_token(TokenType::RightBrace))
        } else if c == ':' {
            Scanned::Token(self.make_token(TokenType::Colon))
        } else if c == ';' {
            Scanned::Token(self.make_token(TokenType::Semicolon))
        } else if c == ',' {
            Scanned::Token(self.make_token(TokenType::Comma))
        } else if c == '.' {
            Scanned::Token(self.make_token(TokenType::Dot))
        }
        // Punctuation + Operators mix
        else if c == '-' {
            match self.peek(None) {
                Some('>') => {
                    self.consume();
                    Scanned::Token(self.make_token(TokenType::Arrow))
                },
                Some('-') => {
                    self.consume();
                    Scanned::Token(self.make_token(TokenType::MinusMinus))
                },
                _ => self.one_or_two('=', TokenType::MinusEquals, TokenType::Minus),
            }
        } else if c == '=' {
            self.one_or_two('=', TokenType::EqualsEquals, TokenType::Equals)
        }
        // Operators
        else if c == '+' {
            match self.peek(None) {
                Some('=') => {
                    self.consume();
                    Scanned::Token(self.make_token(TokenType::PlusEquals))
                },
                _ => self.one_or_two('+', TokenType::PlusPlus, TokenType::Plus),
            }
        } else if c == '*' {
            self.one_or_two('=', TokenType::StarEquals, TokenType::Star)
        } else if c == '/' {
            self.one_or_two('=', TokenType::SlashEquals, TokenType::Slash)
        } else if c == '!' {
            match self.peek(None) {
                Some('=') => {
                    self.consume();
                    Scanned::Token(self.make_token(TokenType::NotEquals))
                },
                _ => Scanned::Notice(invalid_bang_message(self.current_line)),
            }
        } else if c == '<' {
            self.one_or_two('=', TokenType::LessThanOrEquals, TokenType::LessThan)
        } else if c == '>' {
            self.one_or_two('=', TokenType::GreaterThanOrEquals, TokenType::GreaterThan)
        } else {
            Scanned::Nothing
        }
    }
}


impl Lexer {
    /// Lexes the rest of the source: `None` where lexing cannot complete,
    /// else the tokens, errors and notices in source order.
    fn lex_all(self) -> (r: Option<(Vec<Token>, Vec<LexError>, Vec<String>)>)
        requires
            self.well_formed(),
        ensures
            match r {
                Some((tokens, errors, notices)) => self.outcome() == Some(
                    lexed_view(tokens@, errors@, notices@),
                ),
                None => self.outcome() is None,
            },
    {
        let mut lexer = self;
        let mut tokens: Vec<Token> = Vec::new();
        let mut errors: Vec<LexError> = Vec::new();
        let mut notices: Vec<String> = Vec::new();
        proof {
            assert(lexed_view(tokens@, errors@, notices@) =~= nothing_lexed());
        }
        loop
            invariant
                lexer.well_formed(),
                lexer@.source == self@.source,
                self.outcome() == lex_rest(
                    lexer@.source,
                    lexer@.position,
                    lexer@.line,
                    lexed_view(tokens@, errors@, notices@),
                ),
            decreases lexer@.source.len() - lexer@.position,
        {
            if lexer.is_at_end(None) {
                return Some((tokens, errors, notices));
            }
            let ghost before = lexer@;
            if !lexer.skip_whitespace_checked() {
                return None;
            }
            proof {
                lemma_skip_whitespace_bounds(before.source, before.position, before.line);
            }
            if lexer.is_at_end(None) {
                return Some((tokens, errors, notices));
            }
            let ghost at_token = lexer@;
            let ghost acc = lexed_view(tokens@, errors@, notices@);
            let next = lexer.next_token();
            proof {
                lemma_scan_token_advances(at_token.source, at_token.position, at_token.line);
            }
            match next {
                Scanned::Token(token) => {
                    tokens.push(token);
                },
                Scanned::Nothing => {},
                Scanned::Notice(notice) => {
                    notices.push(notice);
                },
                Scanned::Error(error) => {
                    errors.push(error);
                },
                Scanned::TooLarge => {
                    return None;
                },
            }
            proof {
                let (step, e) = scan_token(at_token.source, at_token.position, at_token.line);
                assert(lexed_view(tokens@, errors@, notices@) =~= record(acc, step, at_token.line));
            }
        }
    }

    /// Lexes the rest of the source into tokens, errors and notices, each in
    /// source order. A notice reports a lone `!`, which yields no token.
    ///
    /// Lexing must be able to complete: no number literal without a `.` may
    /// exceed `i64::MAX`, and the line counter may not pass `u32::MAX`
    /// (`lemma_lex_rest_completes` gives conditions under which it does).
    pub fn get_tokens(self) -> (r: (Vec<Token>, Vec<LexError>, Vec<String>))
        requires
            self.well_formed(),
            self.outcome() is Some,
        ensures
            self.outcome() == Some(lexed_view(r.0@, r.1@, r.2@)),
    {
        match self.lex_all() {
            Some(lexed) => lexed,
            None => {
                proof {
                    assert(false);
                }
                (Vec::new(), Vec::new(), Vec::new())
            },
        }
    }

    /// As `get_tokens`, but `None` where lexing cannot complete (a number
    /// literal without a `.` exceeds `i64::MAX`, or the line counter would
    /// pass `u32::MAX`).
    pub fn try_get_tokens(self) -> (r: Option<(Vec<Token>, Vec<LexError>, Vec<String>)>)
        requires
            self.well_formed(),
        ensures
            match r {
                Some((tokens, errors, notices)) => self.outcome() == Some(
                    lexed_view(tokens@, errors@, notices@),
                ),
                None => self.outcome() is None,
            },
    {
        self.lex_all()
    }
}

} // verus!
