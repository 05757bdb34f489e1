//! How tokens are written in diagnostics: the text that `Debug` writes for
//! them.

use vstd::prelude::*;
use vstd::string::*;
use crate::text::{
    char_debug, char_debug_text, decimal, push_decimal, push_signed_decimal, signed_decimal,
    str_debug, str_debug_text,
};
use crate::token::{Token, TokenType};

verus! {

/// The text of a token kind: its name, followed by its value between
/// parentheses where it has one. A floating-point literal shows the text it
/// was written with.
pub open spec fn token_type_text(t: TokenType) -> Seq<char> {
    match t {
        TokenType::Int64Literal(n) => "Int64Literal("@ + signed_decimal(n as int) + ")"@,
        TokenType::Float64Literal(s) => "Float64Literal("@ + s@ + ")"@,
        TokenType::CharLiteral(c) => "CharLiteral("@ + char_debug_text(c) + ")"@,
        TokenType::StringLiteral(s) => "StringLiteral("@ + str_debug_text(s@) + ")"@,
        TokenType::Identifier(s) => "Identifier("@ + str_debug_text(s@) + ")"@,
        TokenType::Let => "Let"@,
        TokenType::Return => "Return"@,
        TokenType::True => "True"@,
        TokenType::False => "False"@,
        TokenType::Void => "Void"@,
        TokenType::Bool => "Bool"@,
        TokenType::Char => "Char"@,
        TokenType::Int8 => "Int8"@,
        TokenType::Int16 => "Int16"@,
        TokenType::Int32 => "Int32"@,
        TokenType::Int64 => "Int64"@,
        TokenType::UInt8 => "UInt8"@,
        TokenType::UInt16 => "UInt16"@,
        TokenType::UInt32 => "UInt32"@,
        TokenType::UInt64 => "UInt64"@,
        TokenType::Float32 => "Float32"@,
        TokenType::Float64 => "Float64"@,
        TokenType::String => "String"@,
        TokenType::LeftParenthesis => "LeftParenthesis"@,
        TokenType::RightParenthesis => "RightParenthesis"@,
        TokenType::LeftBrace => "LeftBrace"@,
        TokenType::RightBrace => "RightBrace"@,
        TokenType::Colon => "Colon"@,
        TokenType::Semicolon => "Semicolon"@,
        TokenType::Comma => "Comma"@,
        TokenType::Dot => "Dot"@,
        TokenType::Equals => "Equals"@,
        TokenType::Arrow => "Arrow"@,
        TokenType::Plus => "Plus"@,
        TokenType::Minus => "Minus"@,
        TokenType::Star => "Star"@,
        TokenType::Slash => "Slash"@,
        TokenType::PlusEquals => "PlusEquals"@,
        TokenType::MinusEquals => "MinusEquals"@,
        TokenType::StarEquals => "StarEquals"@,
        TokenType::SlashEquals => "SlashEquals"@,
        TokenType::PlusPlus => "PlusPlus"@,
        TokenType::MinusMinus => "MinusMinus"@,
        TokenType::EqualsEquals => "EqualsEquals"@,
        TokenType::NotEquals => "NotEquals"@,
        TokenType::LessThan => "LessThan"@,
        TokenType::GreaterThan => "GreaterThan"@,
        TokenType::LessThanOrEquals => "LessThanOrEquals"@,
        TokenType::GreaterThanOrEquals => "GreaterThanOrEquals"@,
    }
}

/// The text of a token: its kind and its line, as `Debug` writes a struct.
pub open spec fn token_text(t: Token) -> Seq<char> {
    "Token { token_type: "@ + token_type_text(t.token_type) + ", line: "@ + decimal(t.line as nat)
        + " }"@
}

fn wrapped(name: &str, inner: String) -> (r: String)
    ensures
        r@ == name@ + inner@ + ")"@,
{
    let mut s = String::from_str(name);
    s.append(inner.as_str());
    s.append(")");
    s
}

/// The text of a token kind, as `token_type_text` states it.
pub(crate) fn describe_token_type(t: &TokenType) -> (r: String)
    ensures
        r@ == token_type_text(*t),
{
    match t {
        TokenType::Int64Literal(n) => {
            let mut s = String::from_str("Int64Literal(");
            push_signed_decimal(&mut s, *n);
            s.append(")");
            s
        },
        TokenType::Float64Literal(text) => wrapped("Float64Literal(", text.clone()),
        TokenType::CharLiteral(c) => wrapped("CharLiteral(", char_debug(*c)),
        TokenType::StringLiteral(text) => wrapped("StringLiteral(", str_debug(text)),
        TokenType::Identifier(text) => wrapped("Identifier(", str_debug(text)),
        TokenType::Let => String::from_str("Let"),
        TokenType::Return => String::from_str("Return"),
        TokenType::True => String::from_str("True"),
        TokenType::False => String::from_str("False"),
        TokenType::Void => String::from_str("Void"),
        TokenType::Bool => String::from_str("Bool"),
        TokenType::Char => String::from_str("Char"),
        TokenType::Int8 => String::from_str("Int8"),
        TokenType::Int16 => String::from_str("Int16"),
        TokenType::Int32 => String::from_str("Int32"),
        TokenType::Int64 => String::from_str("Int64"),
        TokenType::UInt8 => String::from_str("UInt8"),
        TokenType::UInt16 => String::from_str("UInt16"),
        TokenType::UInt32 => String::from_str("UInt32"),
        TokenType::UInt64 => String::from_str("UInt64"),
        TokenType::Float32 => String::from_str("Float32"),
        TokenType::Float64 => String::from_str("Float64"),
        TokenType::String => String::from_str("String"),
        TokenType::LeftParenthesis => String::from_str("LeftParenthesis"),
        TokenType::RightParenthesis => String::from_str("RightParenthesis"),
        TokenType::LeftBrace => String::from_str("LeftBrace"),
        TokenType::RightBrace => String::from_str("RightBrace"),
        TokenType::Colon => String::from_str("Colon"),
        TokenType::Semicolon => String::from_str("Semicolon"),
        TokenType::Comma => String::from_str("Comma"),
        TokenType::Dot => String::from_str("Dot"),
        TokenType::Equals => String::from_str("Equals"),
        TokenType::Arrow => String::from_str("Arrow"),
        TokenType::Plus => String::from_str("Plus"),
        TokenType::Minus => String::from_str("Minus"),
        TokenType::Star => String::from_str("Star"),
        TokenType::Slash => String::from_str("Slash"),
        TokenType::PlusEquals => String::from_str("PlusEquals"),
        TokenType::MinusEquals => String::from_str("MinusEquals"),
        TokenType::StarEquals => String::from_str("StarEquals"),
        TokenType::SlashEquals => String::from_str("SlashEquals"),
        TokenType::PlusPlus => String::from_str("PlusPlus"),
        TokenType::MinusMinus => String::from_str("MinusMinus"),
        TokenType::EqualsEquals => String::from_str("EqualsEquals"),
        TokenType::NotEquals => String::from_str("NotEquals"),
        TokenType::LessThan => String::from_str("LessThan"),
        TokenType::GreaterThan => String::from_str("GreaterThan"),
        TokenType::LessThanOrEquals => String::from_str("LessThanOrEquals"),
        TokenType::GreaterThanOrEquals => String::from_str("GreaterThanOrEquals"),
    }
}

/// The text of a token, as `token_text` states it.
pub(crate) fn describe_token(t: &Token) -> (r: String)
    ensures
        r@ == token_text(*t),
{
    let mut s = String::from_str("Token { token_type: ");
    s.append(describe_token_type(&t.token_type).as_str());
    s.append(", line: ");
    push_decimal(&mut s, t.line as u64);
    s.append(" }");
    proof {
        assert(s@ =~= token_text(*t));
    }
    s
}

} // verus!
