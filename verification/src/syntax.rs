//! The grammar that the parser follows, stated as spec functions over a
//! sequence of tokens and a position in it. Each function says what parsing
//! one construct from a position yields: the construct and the position
//! after it, an error and the position where the parser stopped, or that
//! the parser would read past the last token. The parser in `parser.rs` is
//! proved to compute exactly what these functions describe.

use vstd::prelude::*;
use crate::describe::{token_text, token_type_text};
use crate::nodes::{Parameter, SpecExpression, SpecFunctionDefinition, SpecItem, SpecStatement, Type};
use crate::text::decimal;
use crate::token::{token_kind, Token, TokenType};

verus! {

/// The mathematical value of a parse error: its kind, message and line.
pub enum SpecParseError {
    ExpectedType(Seq<char>, int),
    ExpectedSemicolon(Seq<char>, int),
    UnexpectedToken(Seq<char>, int),
    NoTokenFound(Seq<char>, int),
}

/// How parsing a construct stops without yielding it.
pub enum Halt {
    /// An error, and the position where the parser stopped.
    Failed(SpecParseError, int),
    /// The parser would read past the last token.
    Stuck,
}

/// What parsing a construct yields.
pub enum Parsed<T> {
    /// The construct and the position after it.
    Done(T, int),
    Halted(Halt),
}

/// The tokens that the parser requires at some point.
#[derive(Clone, Copy)]
pub enum Expected {
    TypeName,
    Identifier,
    LeftParenthesis,
    RightParenthesis,
    LeftBrace,
    RightBrace,
    Equals,
    Semicolon,
    Return,
}

pub open spec fn expected_matches(x: Expected, t: TokenType) -> bool {
    match x {
        Expected::TypeName => t.is_type_keyword(),
        Expected::Identifier => t is Identifier,
        Expected::LeftParenthesis => t is LeftParenthesis,
        Expected::RightParenthesis => t is RightParenthesis,
        Expected::LeftBrace => t is LeftBrace,
        Expected::RightBrace => t is RightBrace,
        Expected::Equals => t is Equals,
        Expected::Semicolon => t is Semicolon,
        Expected::Return => t is Return,
    }
}

/// The expected tokens as a diagnostic lists them.
pub open spec fn expected_text(x: Expected) -> Seq<char> {
    match x {
        Expected::TypeName => "TokenType::Void, TokenType::Bool, TokenType::Char, TokenType::Int8, TokenType::Int16, TokenType::Int32, TokenType::Int64, TokenType::UInt8, TokenType::UInt16, TokenType::UInt32, TokenType::UInt64, TokenType::Float32, TokenType::Float64, TokenType::String"@,
        Expected::Identifier => "TokenType::Identifier(_)"@,
        Expected::LeftParenthesis => "TokenType::LeftParenthesis"@,
        Expected::RightParenthesis => "TokenType::RightParenthesis"@,
        Expected::LeftBrace => "TokenType::LeftBrace"@,
        Expected::RightBrace => "TokenType::RightBrace"@,
        Expected::Equals => "TokenType::Equals"@,
        Expected::Semicolon => "TokenType::Semicolon"@,
        Expected::Return => "TokenType::Return"@,
    }
}

pub open spec fn msg_expected(x: Expected, found: TokenType) -> Seq<char> {
    "Expected one of `"@ + expected_text(x) + "` but found '"@ + token_type_text(found) + "'."@
}

pub open spec fn msg_unexpected_token(found: TokenType, line: int) -> Seq<char> {
    "Unexpected token "@ + token_type_text(found) + " at line "@ + decimal(line as nat) + "."@
}

pub open spec fn msg_unexpected_item(t: Token) -> Seq<char> {
    "Unexpected token found ("@ + token_text(t) + ")"@
}

/// Requiring a token of kind `x` at `pos`: `None` where it is there (it is
/// not consumed); else the parser stops after the token found there, or is
/// stuck where there is none.
pub open spec fn expect(toks: Seq<Token>, pos: int, x: Expected) -> Option<Halt> {
    if !(0 <= pos < toks.len()) {
        Some(Halt::Stuck)
    } else if expected_matches(x, toks[pos].token_type) {
        None
    } else {
        Some(
            Halt::Failed(
                SpecParseError::UnexpectedToken(
                    msg_expected(x, toks[pos].token_type),
                    toks[pos].line as int,
                ),
                pos + 1,
            ),
        )
    }
}

/// Whether the token at `pos` exists and is of the same kind as `t`.
pub open spec fn check(toks: Seq<Token>, pos: int, t: TokenType) -> bool {
    0 <= pos < toks.len() && token_kind(toks[pos].token_type) == token_kind(t)
}

/// The type that a token names, if any.
pub open spec fn type_of(t: TokenType) -> Option<Type> {
    match t {
        TokenType::Void => Some(Type::Void),
        TokenType::Bool => Some(Type::Bool),
        TokenType::Char => Some(Type::Char),
        TokenType::Int8 => Some(Type::Int8),
        TokenType::Int16 => Some(Type::Int16),
        TokenType::Int32 => Some(Type::Int32),
        TokenType::Int64 => Some(Type::Int64),
        TokenType::UInt8 => Some(Type::UInt8),
        TokenType::UInt16 => Some(Type::UInt16),
        TokenType::UInt32 => Some(Type::UInt32),
        TokenType::UInt64 => Some(Type::UInt64),
        TokenType::Float32 => Some(Type::Float32),
        TokenType::Float64 => Some(Type::Float64),
        TokenType::String => Some(Type::String),
        TokenType::Identifier(name) => Some(Type::Named(name)),
        _ => None,
    }
}

/// The name that an identifier token carries.
pub open spec fn identifier_name(t: TokenType) -> String {
    match t {
        TokenType::Identifier(name) => name,
        _ => arbitrary(),
    }
}

/// A type: the token at `pos`, which is consumed.
pub open spec fn parse_type(toks: Seq<Token>, pos: int) -> Parsed<Type> {
    if !(0 <= pos < toks.len()) {
        Parsed::Halted(Halt::Stuck)
    } else {
        match type_of(toks[pos].token_type) {
            Some(ty) => Parsed::Done(ty, pos + 1),
            None => Parsed::Halted(
                Halt::Failed(
                    SpecParseError::ExpectedType("Expected a type token."@, toks[pos].line as int),
                    pos + 1,
                ),
            ),
        }
    }
}

/// A primary expression: a literal, an identifier, or a call
/// `name(arguments)`.
pub open spec fn parse_primary(toks: Seq<Token>, pos: int) -> Parsed<SpecExpression>
    decreases toks.len() - pos, 0nat,
{
    if !(0 <= pos < toks.len()) {
        Parsed::Halted(Halt::Stuck)
    } else {
        let t = toks[pos];
        match t.token_type {
            TokenType::Int64Literal(n) => Parsed::Done(SpecExpression::IntLiteral(n), pos + 1),
            TokenType::Float64Literal(s) => Parsed::Done(SpecExpression::FloatLiteral(s), pos + 1),
            TokenType::StringLiteral(s) => Parsed::Done(SpecExpression::StringLiteral(s), pos + 1),
            TokenType::True => Parsed::Done(SpecExpression::BooleanLiteral(true), pos + 1),
            TokenType::False => Parsed::Done(SpecExpression::BooleanLiteral(false), pos + 1),
            TokenType::Identifier(name) => if check(toks, pos + 1, TokenType::LeftParenthesis) {
                match parse_call_args(toks, pos + 2) {
                    Parsed::Done(arguments, q) => match expect(toks, q, Expected::RightParenthesis) {
                        Some(h) => Parsed::Halted(h),
                        None => Parsed::Done(SpecExpression::Call { callee: name, arguments }, q + 1),
                    },
                    Parsed::Halted(h) => Parsed::Halted(h),
                }
            } else {
                Parsed::Done(SpecExpression::Identifier(name), pos + 1)
            },
            _ => Parsed::Halted(
                Halt::Failed(
                    SpecParseError::UnexpectedToken(
                        msg_unexpected_token(t.token_type, t.line as int),
                        t.line as int,
                    ),
                    pos + 1,
                ),
            ),
        }
    }
}

/// The arguments of a call, after its `(`: none where the next token is `)`
/// (which is not consumed), else a list of expressions separated by commas.
pub open spec fn parse_call_args(toks: Seq<Token>, pos: int) -> Parsed<Seq<SpecExpression>>
    decreases toks.len() - pos, 2nat,
{
    if check(toks, pos, TokenType::RightParenthesis) {
        Parsed::Done(seq![], pos)
    } else {
        argument_list(toks, pos, seq![])
    }
}

/// The rest of a list of arguments from `pos`, after the arguments `read`.
/// (An expression always ends after the position where it starts; see
/// `lemma_expression_advances`.)
pub open spec fn argument_list(toks: Seq<Token>, pos: int, read: Seq<SpecExpression>) -> Parsed<
    Seq<SpecExpression>,
>
    decreases toks.len() - pos, 1nat,
{
    match parse_primary(toks, pos) {
        Parsed::Done(e, q) => if check(toks, q, TokenType::Comma) && pos <= q {
            argument_list(toks, q + 1, read.push(e))
        } else {
            Parsed::Done(read.push(e), q)
        },
        Parsed::Halted(h) => Parsed::Halted(h),
    }
}

/// An expression (for now, a primary expression).
pub open spec fn parse_expression(toks: Seq<Token>, pos: int) -> Parsed<SpecExpression> {
    parse_primary(toks, pos)
}

/// A variable declaration `type name = expression;`.
pub open spec fn parse_let(toks: Seq<Token>, pos: int) -> Parsed<SpecStatement> {
    if let Some(h) = expect(toks, pos, Expected::TypeName) {
        Parsed::Halted(h)
    } else {
        let variable_type = type_of(toks[pos].token_type)->0;
        if let Some(h) = expect(toks, pos + 1, Expected::Identifier) {
            Parsed::Halted(h)
        } else {
            let name = identifier_name(toks[pos + 1].token_type);
            if let Some(h) = expect(toks, pos + 2, Expected::Equals) {
                Parsed::Halted(h)
            } else {
                match parse_expression(toks, pos + 3) {
                    Parsed::Done(initializer, q) => if let Some(h) = expect(toks, q, Expected::Semicolon) {
                        Parsed::Halted(h)
                    } else {
                        Parsed::Done(
                            SpecStatement::Variable { name, variable_type, initializer: Some(initializer) },
                            q + 1,
                        )
                    },
                    Parsed::Halted(h) => Parsed::Halted(h),
                }
            }
        }
    }
}

/// A return statement `return expression;`.
pub open spec fn parse_return(toks: Seq<Token>, pos: int) -> Parsed<SpecStatement> {
    if let Some(h) = expect(toks, pos, Expected::Return) {
        Parsed::Halted(h)
    } else {
        match parse_expression(toks, pos + 1) {
            Parsed::Done(e, q) => if let Some(h) = expect(toks, q, Expected::Semicolon) {
                Parsed::Halted(h)
            } else {
                Parsed::Done(SpecStatement::Return(e), q + 1)
            },
            Parsed::Halted(h) => Parsed::Halted(h),
        }
    }
}

/// A statement: a declaration where it starts with a type name, a return
/// where it starts with `return`, else an expression.
pub open spec fn parse_statement(toks: Seq<Token>, pos: int) -> Parsed<SpecStatement> {
    if !(0 <= pos < toks.len()) {
        Parsed::Halted(
            Halt::Failed(
                SpecParseError::NoTokenFound(
                    "Expected to parse statement, but no token found."@,
                    0,
                ),
                pos,
            ),
        )
    } else if toks[pos].token_type.is_type_keyword() {
        parse_let(toks, pos)
    } else if toks[pos].token_type is Return {
        parse_return(toks, pos)
    } else {
        match parse_expression(toks, pos) {
            Parsed::Done(e, q) => Parsed::Done(SpecStatement::Expression(e), q),
            Parsed::Halted(h) => Parsed::Halted(h),
        }
    }
}

/// The statements of a block from `pos`, after the statements `read`, up to
/// and including the closing `}`.
pub open spec fn block_rest(toks: Seq<Token>, pos: int, read: Seq<SpecStatement>) -> Parsed<
    Seq<SpecStatement>,
>
    decreases toks.len() - pos,
    via block_rest_decreases
{
    if check(toks, pos, TokenType::RightBrace) || !(pos < toks.len()) {
        if let Some(h) = expect(toks, pos, Expected::RightBrace) {
            Parsed::Halted(h)
        } else {
            Parsed::Done(read, pos + 1)
        }
    } else {
        match parse_statement(toks, pos) {
            Parsed::Done(s, q) => block_rest(toks, q, read.push(s)),
            Parsed::Halted(h) => Parsed::Halted(h),
        }
    }
}

/// A block `{ statements }`.
pub open spec fn parse_block(toks: Seq<Token>, pos: int) -> Parsed<Seq<SpecStatement>> {
    if let Some(h) = expect(toks, pos, Expected::LeftBrace) {
        Parsed::Halted(h)
    } else {
        block_rest(toks, pos + 1, seq![])
    }
}

/// The rest of a parameter list from `pos`, after the parameters `read`.
pub open spec fn parameter_list(toks: Seq<Token>, pos: int, read: Seq<Parameter>) -> Parsed<
    Seq<Parameter>,
>
    decreases toks.len() - pos,
{
    if let Some(h) = expect(toks, pos, Expected::TypeName) {
        Parsed::Halted(h)
    } else if let Some(h) = expect(toks, pos + 1, Expected::Identifier) {
        Parsed::Halted(h)
    } else {
        let parameter = Parameter {
            name: identifier_name(toks[pos + 1].token_type),
            parameter_type: type_of(toks[pos].token_type)->0,
        };
        if check(toks, pos + 2, TokenType::Comma) {
            parameter_list(toks, pos + 3, read.push(parameter))
        } else {
            Parsed::Done(read.push(parameter), pos + 2)
        }
    }
}

/// The parameters of a function, after its `(`: none where the next token
/// is `)` (which is not consumed), else `type name` pairs separated by
/// commas.
pub open spec fn parse_parameters(toks: Seq<Token>, pos: int) -> Parsed<Seq<Parameter>> {
    if check(toks, pos, TokenType::RightParenthesis) {
        Parsed::Done(seq![], pos)
    } else {
        parameter_list(toks, pos, seq![])
    }
}

/// A function definition `type name(parameters) { statements }`.
pub open spec fn parse_function(toks: Seq<Token>, pos: int) -> Parsed<SpecFunctionDefinition> {
    if let Some(h) = expect(toks, pos, Expected::TypeName) {
        Parsed::Halted(h)
    } else if let Some(h) = expect(toks, pos + 1, Expected::Identifier) {
        Parsed::Halted(h)
    } else if let Some(h) = expect(toks, pos + 2, Expected::LeftParenthesis) {
        Parsed::Halted(h)
    } else {
        let return_type = type_of(toks[pos].token_type)->0;
        let name = identifier_name(toks[pos + 1].token_type);
        match parse_parameters(toks, pos + 3) {
            Parsed::Done(parameters, p) => if let Some(h) = expect(toks, p, Expected::RightParenthesis) {
                Parsed::Halted(h)
            } else if let Some(h) = expect(toks, p + 1, Expected::LeftBrace) {
                Parsed::Halted(h)
            } else {
                match parse_block(toks, p + 1) {
                    Parsed::Done(body, q) => Parsed::Done(
                        SpecFunctionDefinition { name, parameters, return_type, body },
                        q,
                    ),
                    Parsed::Halted(h) => Parsed::Halted(h),
                }
            },
            Parsed::Halted(h) => Parsed::Halted(h),
        }
    }
}

/// An item: a function definition where the token at `pos` is a type name;
/// else an error after that token. The token must exist.
pub open spec fn parse_item(toks: Seq<Token>, pos: int) -> Parsed<SpecItem> {
    if !(0 <= pos < toks.len()) {
        Parsed::Halted(Halt::Stuck)
    } else if toks[pos].token_type.is_type_keyword() {
        match parse_function(toks, pos) {
            Parsed::Done(f, q) => Parsed::Done(SpecItem::Function(f), q),
            Parsed::Halted(h) => Parsed::Halted(h),
        }
    } else {
        Parsed::Halted(
            Halt::Failed(
                SpecParseError::UnexpectedToken(msg_unexpected_item(toks[pos]), toks[pos].line as int),
                pos + 1,
            ),
        )
    }
}

/// What parsing a sequence of tokens yields: items and errors, each in
/// source order.
#[verifier::ext_equal]
pub struct ParsedItems {
    pub items: Seq<SpecItem>,
    pub errors: Seq<SpecParseError>,
}

pub open spec fn no_items() -> ParsedItems {
    ParsedItems { items: seq![], errors: seq![] }
}

/// Parsing items from `pos` to the end, after `acc` has been collected; an
/// item that fails leaves its error and parsing goes on where it stopped.
/// `None` where the parser would read past the last token.
pub open spec fn items_rest(toks: Seq<Token>, pos: int, acc: ParsedItems) -> Option<ParsedItems>
    decreases toks.len() - pos,
    via items_rest_decreases
{
    if !(0 <= pos < toks.len()) {
        Some(acc)
    } else {
        match parse_item(toks, pos) {
            Parsed::Done(item, q) => items_rest(toks, q, ParsedItems { items: acc.items.push(item), ..acc }),
            Parsed::Halted(Halt::Failed(e, q)) => items_rest(
                toks,
                q,
                ParsedItems { errors: acc.errors.push(e), ..acc },
            ),
            Parsed::Halted(Halt::Stuck) => None,
        }
    }
}

/// Whether a parse result ends (where it ends at all) within `[lo, hi]`.
pub open spec fn ends_within<T>(r: Parsed<T>, lo: int, hi: int) -> bool {
    match r {
        Parsed::Done(_, q) => lo <= q <= hi,
        Parsed::Halted(Halt::Failed(_, q)) => lo <= q <= hi,
        Parsed::Halted(Halt::Stuck) => true,
    }
}

pub proof fn lemma_expect_ends(toks: Seq<Token>, pos: int, x: Expected)
    requires
        0 <= pos,
    ensures
        expect(toks, pos, x) matches Some(Halt::Failed(_, q)) ==> q == pos + 1 && q <= toks.len(),
        expect(toks, pos, x) is None ==> pos < toks.len() && expected_matches(x, toks[pos].token_type),
{
}

/// An expression ends after the position where it starts (and within the
/// tokens).
pub proof fn lemma_expression_advances(toks: Seq<Token>, pos: int)
    requires
        0 <= pos,
    ensures
        ends_within(parse_primary(toks, pos), pos + 1, toks.len() as int),
    decreases toks.len() - pos, 0nat,
{
    if pos + 1 < toks.len() && check(toks, pos + 1, TokenType::LeftParenthesis) {
        lemma_call_args_advances(toks, pos + 2);
    }
}

/// The arguments of a call end no earlier than where they start.
pub proof fn lemma_call_args_advances(toks: Seq<Token>, pos: int)
    requires
        0 <= pos,
    ensures
        ends_within(parse_call_args(toks, pos), pos, toks.len() as int),
    decreases toks.len() - pos, 2nat,
{
    if !check(toks, pos, TokenType::RightParenthesis) {
        lemma_argument_list_advances(toks, pos, seq![]);
    }
}

pub proof fn lemma_argument_list_advances(toks: Seq<Token>, pos: int, read: Seq<SpecExpression>)
    requires
        0 <= pos,
    ensures
        ends_within(argument_list(toks, pos, read), pos + 1, toks.len() as int),
    decreases toks.len() - pos, 1nat,
{
    lemma_expression_advances(toks, pos);
    match parse_primary(toks, pos) {
        Parsed::Done(e, q) => if check(toks, q, TokenType::Comma) && pos <= q {
            lemma_argument_list_advances(toks, q + 1, read.push(e));
        },
        _ => {},
    }
}

/// A statement ends after the position where it starts.
pub proof fn lemma_statement_advances(toks: Seq<Token>, pos: int)
    requires
        0 <= pos < toks.len(),
    ensures
        ends_within(parse_statement(toks, pos), pos + 1, toks.len() as int),
{
    lemma_expression_advances(toks, pos);
    lemma_expression_advances(toks, pos + 1);
    lemma_expression_advances(toks, pos + 3);
}

#[via_fn]
proof fn block_rest_decreases(toks: Seq<Token>, pos: int, read: Seq<SpecStatement>) {
    if 0 <= pos < toks.len() {
        lemma_statement_advances(toks, pos);
    }
}

pub proof fn lemma_block_rest_advances(toks: Seq<Token>, pos: int, read: Seq<SpecStatement>)
    requires
        0 <= pos <= toks.len(),
    ensures
        ends_within(block_rest(toks, pos, read), pos + 1, toks.len() as int),
    decreases toks.len() - pos,
{
    if !(check(toks, pos, TokenType::RightBrace) || !(pos < toks.len())) {
        lemma_statement_advances(toks, pos);
        match parse_statement(toks, pos) {
            Parsed::Done(s, q) => lemma_block_rest_advances(toks, q, read.push(s)),
            _ => {},
        }
    }
}

pub proof fn lemma_parameter_list_advances(toks: Seq<Token>, pos: int, read: Seq<Parameter>)
    requires
        0 <= pos,
    ensures
        ends_within(parameter_list(toks, pos, read), pos + 1, toks.len() as int),
    decreases toks.len() - pos,
{
    if expect(toks, pos, Expected::TypeName) is None && expect(toks, pos + 1, Expected::Identifier) is None {
        if check(toks, pos + 2, TokenType::Comma) {
            let parameter = Parameter {
                name: identifier_name(toks[pos + 1].token_type),
                parameter_type: type_of(toks[pos].token_type)->0,
            };
            lemma_parameter_list_advances(toks, pos + 3, read.push(parameter));
        }
    }
}

/// A function definition ends after the position where it starts.
pub proof fn lemma_function_advances(toks: Seq<Token>, pos: int)
    requires
        0 <= pos,
    ensures
        ends_within(parse_function(toks, pos), pos + 1, toks.len() as int),
{
    if pos + 3 <= toks.len() && !check(toks, pos + 3, TokenType::RightParenthesis) {
        lemma_parameter_list_advances(toks, pos + 3, seq![]);
    }
    match parse_parameters(toks, pos + 3) {
        Parsed::Done(_, p) => if p + 2 <= toks.len() {
            lemma_block_rest_advances(toks, p + 2, seq![]);
        },
        _ => {},
    }
}

/// An item ends after the position where it starts.
pub proof fn lemma_item_advances(toks: Seq<Token>, pos: int)
    requires
        0 <= pos < toks.len(),
    ensures
        ends_within(parse_item(toks, pos), pos + 1, toks.len() as int),
{
    lemma_function_advances(toks, pos);
}

#[via_fn]
proof fn items_rest_decreases(toks: Seq<Token>, pos: int, acc: ParsedItems) {
    if 0 <= pos < toks.len() {
        lemma_item_advances(toks, pos);
    }
}

} // verus!
