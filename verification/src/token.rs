//! Tokens produced by the lexer.

use vstd::prelude::*;

verus! {

/// The kind of a token, with the value of a literal or the text of an
/// identifier.
///
/// A floating-point literal keeps the text it was written with (digits with
/// one `.`); turning that text into a number is left to the consumer.
///
/// Two token types are equal (`==`) when they are of the same kind, whatever
/// their values or text.
#[derive(Debug, Clone)]
pub enum TokenType {
    // Literals
    Int64Literal(i64),
    Float64Literal(String),
    CharLiteral(char),
    StringLiteral(String),

    // Keywords
    Let,
    Return,
    True,
    False,

    // Types & Identifier
    Void,
    Bool,
    Char,
    Int8, Int16, Int32, Int64,
    UInt8, UInt16, UInt32, UInt64,
    Float32, Float64,
    String,
    Identifier(String),

    // Punctuation
    LeftParenthesis, RightParenthesis,  // ( )
    LeftBrace, RightBrace,              // { }
    Colon,                              // :
    Semicolon,                          // ;
    Comma,                              // ,
    Dot,                                // .
    Equals,                             // =
    Arrow,                              // ->

    // Operators
    Plus, Minus, Star, Slash,                           // +, -, *, /
    PlusEquals, MinusEquals, StarEquals, SlashEquals,   // +=, -=, *=, /=
    PlusPlus, MinusMinus,                               // ++, --

    EqualsEquals, NotEquals,                // ==, !=

    LessThan, GreaterThan,                  // <, >
    LessThanOrEquals, GreaterThanOrEquals,  // <=, >=
}

/// A token and the line on which the lexer finished reading it.
#[derive(Debug, Clone)]
pub struct Token {
    pub token_type: TokenType,
    pub line: u32,
}

/// The mathematical value of a token kind: the text of identifiers and of
/// string and floating-point literals as character sequences; every other
/// kind stands for itself.
pub enum SpecTokenType {
    Plain(TokenType),
    Float64Literal(Seq<char>),
    StringLiteral(Seq<char>),
    Identifier(Seq<char>),
}

/// The mathematical value of a token.
pub struct SpecToken {
    pub token_type: SpecTokenType,
    pub line: int,
}

impl View for TokenType {
    type V = SpecTokenType;

    open spec fn view(&self) -> SpecTokenType {
        match self {
            TokenType::Float64Literal(s) => SpecTokenType::Float64Literal(s@),
            TokenType::StringLiteral(s) => SpecTokenType::StringLiteral(s@),
            TokenType::Identifier(s) => SpecTokenType::Identifier(s@),
            _ => SpecTokenType::Plain(*self),
        }
    }
}

impl View for Token {
    type V = SpecToken;

    open spec fn view(&self) -> SpecToken {
        SpecToken { token_type: self.token_type@, line: self.line as int }
    }
}

impl TokenType {
    /// Whether this kind carries text (identifiers, string and float literals).
    pub open spec fn has_text(&self) -> bool {
        ||| self is Float64Literal
        ||| self is StringLiteral
        ||| self is Identifier
    }

    /// Whether this kind names one of the built-in types.
    pub open spec fn is_type_keyword(&self) -> bool {
        ||| self is Void
        ||| self is Bool
        ||| self is Char
        ||| self is Int8
        ||| self is Int16
        ||| self is Int32
        ||| self is Int64
        ||| self is UInt8
        ||| self is UInt16
        ||| self is UInt32
        ||| self is UInt64
        ||| self is Float32
        ||| self is Float64
        ||| self is String
    }
}


/// The kind of a token type: which variant it is, as a number.
pub open spec fn token_kind(t: TokenType) -> int {
    match t {
        TokenType::Int64Literal(_) => 0,
        TokenType::Float64Literal(_) => 1,
        TokenType::CharLiteral(_) => 2,
        TokenType::StringLiteral(_) => 3,
        TokenType::Let => 4,
        TokenType::Return => 5,
        TokenType::True => 6,
        TokenType::False => 7,
        TokenType::Void => 8,
        TokenType::Bool => 9,
        TokenType::Char => 10,
        TokenType::Int8 => 11,
        TokenType::Int16 => 12,
        TokenType::Int32 => 13,
        TokenType::Int64 => 14,
        TokenType::UInt8 => 15,
        TokenType::UInt16 => 16,
        TokenType::UInt32 => 17,
        TokenType::UInt64 => 18,
        TokenType::Float32 => 19,
        TokenType::Float64 => 20,
        TokenType::String => 21,
        TokenType::Identifier(_) => 22,
        TokenType::LeftParenthesis => 23,
        TokenType::RightParenthesis => 24,
        TokenType::LeftBrace => 25,
        TokenType::RightBrace => 26,
        TokenType::Colon => 27,
        TokenType::Semicolon => 28,
        TokenType::Comma => 29,
        TokenType::Dot => 30,
        TokenType::Equals => 31,
        TokenType::Arrow => 32,
        TokenType::Plus => 33,
        TokenType::Minus => 34,
        TokenType::Star => 35,
        TokenType::Slash => 36,
        TokenType::PlusEquals => 37,
        TokenType::MinusEquals => 38,
        TokenType::StarEquals => 39,
        TokenType::SlashEquals => 40,
        TokenType::PlusPlus => 41,
        TokenType::MinusMinus => 42,
        TokenType::EqualsEquals => 43,
        TokenType::NotEquals => 44,
        TokenType::LessThan => 45,
        TokenType::GreaterThan => 46,
        TokenType::LessThanOrEquals => 47,
        TokenType::GreaterThanOrEquals => 48,
    }
}

impl TokenType {
    /// The kind of this token type, as `token_kind` numbers it.
    fn kind(&self) -> (r: u8)
        ensures
            r as int == token_kind(*self),
    {
        match self {
            TokenType::Int64Literal(_) => 0,
            TokenType::Float64Literal(_) => 1,
            TokenType::CharLiteral(_) => 2,
            TokenType::StringLiteral(_) => 3,
            TokenType::Let => 4,
            TokenType::Return => 5,
            TokenType::True => 6,
            TokenType::False => 7,
            TokenType::Void => 8,
            TokenType::Bool => 9,
            TokenType::Char => 10,
            TokenType::Int8 => 11,
            TokenType::Int16 => 12,
            TokenType::Int32 => 13,
            TokenType::Int64 => 14,
            TokenType::UInt8 => 15,
            TokenType::UInt16 => 16,
            TokenType::UInt32 => 17,
            TokenType::UInt64 => 18,
            TokenType::Float32 => 19,
            TokenType::Float64 => 20,
            TokenType::String => 21,
            TokenType::Identifier(_) => 22,
            TokenType::LeftParenthesis => 23,
            TokenType::RightParenthesis => 24,
            TokenType::LeftBrace => 25,
            TokenType::RightBrace => 26,
            TokenType::Colon => 27,
            TokenType::Semicolon => 28,
            TokenType::Comma => 29,
            TokenType::Dot => 30,
            TokenType::Equals => 31,
            TokenType::Arrow => 32,
            TokenType::Plus => 33,
            TokenType::Minus => 34,
            TokenType::Star => 35,
            TokenType::Slash => 36,
            TokenType::PlusEquals => 37,
            TokenType::MinusEquals => 38,
            TokenType::StarEquals => 39,
            TokenType::SlashEquals => 40,
            TokenType::PlusPlus => 41,
            TokenType::MinusMinus => 42,
            TokenType::EqualsEquals => 43,
            TokenType::NotEquals => 44,
            TokenType::LessThan => 45,
            TokenType::GreaterThan => 46,
            TokenType::LessThanOrEquals => 47,
            TokenType::GreaterThanOrEquals => 48,
        }
    }
}

impl PartialEq for TokenType {
    fn eq(&self, other: &Self) -> (r: bool) {
        self.kind() == other.kind()
    }
}

impl vstd::std_specs::cmp::PartialEqSpecImpl for TokenType {
    open spec fn obeys_eq_spec() -> bool {
        true
    }

    open spec fn eq_spec(&self, other: &Self) -> bool {
        token_kind(*self) == token_kind(*other)
    }
}

} // verus!
