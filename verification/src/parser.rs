//! The parser: turns tokens into items (function definitions) and errors.

use vstd::prelude::*;
use vstd::string::*;
use crate::describe::{describe_token, describe_token_type};
use crate::nodes::{
    expression_values, statement_values, Block, Expression, FunctionDefinition, Item, Parameter,
    Statement, Type,
};
use crate::syntax::{
    argument_list, block_rest, check, expect, expected_matches, expected_text, identifier_name,
    items_rest, lemma_expression_advances, lemma_item_advances, lemma_statement_advances,
    msg_expected, msg_unexpected_item, msg_unexpected_token, no_items, parameter_list,
    parse_block, parse_call_args, parse_expression, parse_function, parse_item, parse_let,
    parse_parameters, parse_primary, parse_return, parse_statement, parse_type, type_of,
    Expected, Halt, Parsed, ParsedItems, SpecParseError,
};
use crate::text::push_decimal;
use crate::token::{Token, TokenType};

verus! {

/////////////////////////////////////////////////////
// Helpers
/////////////////////////////////////////////////////

/// An error met while parsing: a message and the line of the token it was
/// met at (0 where there is no token).
#[derive(Debug, Clone, PartialEq)]
pub enum ParseError {
    ExpectedType(String, u32),
    ExpectedSemicolon(String, u32),
    UnexpectedToken(String, u32),
    NoTokenFound(String, u32),
}

impl View for ParseError {
    type V = SpecParseError;

    open spec fn view(&self) -> SpecParseError {
        match self {
            ParseError::ExpectedType(m, l) => SpecParseError::ExpectedType(m@, *l as int),
            ParseError::ExpectedSemicolon(m, l) => SpecParseError::ExpectedSemicolon(m@, *l as int),
            ParseError::UnexpectedToken(m, l) => SpecParseError::UnexpectedToken(m@, *l as int),
            ParseError::NoTokenFound(m, l) => SpecParseError::NoTokenFound(m@, *l as int),
        }
    }
}

/// Why parsing a construct stopped.
enum Stop {
    Error(ParseError),
    /// Parsing would read past the last token.
    OutOfTokens,
}

/// `stop`, with the parser at `current`, is how the grammar says parsing
/// halts.
spec fn halted_as(stop: Stop, current: int, h: Halt) -> bool {
    match h {
        Halt::Failed(e, q) => stop matches Stop::Error(x) && x@ == e && current == q,
        Halt::Stuck => stop is OutOfTokens,
    }
}

/// `r`, with the parser at `current`, is what the grammar says parsing
/// yields, the value taken by `value`.
spec fn yields<T, V>(r: Result<T, Stop>, current: int, parsed: Parsed<V>, value: spec_fn(T) -> V) -> bool {
    match parsed {
        Parsed::Done(v, q) => r matches Ok(x) && value(x) == v && current == q,
        Parsed::Halted(h) => r matches Err(stop) && halted_as(stop, current, h),
    }
}

/// The items and errors collected, as values.
pub open spec fn items_view(items: Seq<Item>, errors: Seq<ParseError>) -> ParsedItems {
    ParsedItems {
        items: items.map_values(|i: Item| i@),
        errors: errors.map_values(|e: ParseError| e@),
    }
}

fn is_type_token(t: &TokenType) -> (r: bool)
    ensures
        r == t.is_type_keyword(),
{
    match t {
        TokenType::Void | TokenType::Bool | TokenType::Char | TokenType::Int8 | TokenType::Int16
        | TokenType::Int32 | TokenType::Int64 | TokenType::UInt8 | TokenType::UInt16
        | TokenType::UInt32 | TokenType::UInt64 | TokenType::Float32 | TokenType::Float64
        | TokenType::String => true,
        _ => false,
    }
}

fn matches_expected(x: Expected, t: &TokenType) -> (r: bool)
    ensures
        r == expected_matches(x, *t),
{
    match x {
        Expected::TypeName => is_type_token(t),
        Expected::Identifier => matches!(t, TokenType::Identifier(_)),
        Expected::LeftParenthesis => matches!(t, TokenType::LeftParenthesis),
        Expected::RightParenthesis => matches!(t, TokenType::RightParenthesis),
        Expected::LeftBrace => matches!(t, TokenType::LeftBrace),
        Expected::RightBrace => matches!(t, TokenType::RightBrace),
        Expected::Equals => matches!(t, TokenType::Equals),
        Expected::Semicolon => matches!(t, TokenType::Semicolon),
        Expected::Return => matches!(t, TokenType::Return),
    }
}

fn expected_list(x: Expected) -> (r: &'static str)
    ensures
        r@ == expected_text(x),
{
    match x {
        Expected::TypeName => "TokenType::Void, TokenType::Bool, TokenType::Char, TokenType::Int8, TokenType::Int16, TokenType::Int32, TokenType::Int64, TokenType::UInt8, TokenType::UInt16, TokenType::UInt32, TokenType::UInt64, TokenType::Float32, TokenType::Float64, TokenType::String",
        Expected::Identifier => "TokenType::Identifier(_)",
        Expected::LeftParenthesis => "TokenType::LeftParenthesis",
        Expected::RightParenthesis => "TokenType::RightParenthesis",
        Expected::LeftBrace => "TokenType::LeftBrace",
        Expected::RightBrace => "TokenType::RightBrace",
        Expected::Equals => "TokenType::Equals",
        Expected::Semicolon => "TokenType::Semicolon",
        Expected::Return => "TokenType::Return",
    }
}

fn expected_message(x: Expected, found: &TokenType) -> (r: String)
    ensures
        r@ == msg_expected(x, *found),
{
    let mut s = String::from_str("Expected one of `");
    s.append(expected_list(x));
    s.append("` but found '");
    s.append(describe_token_type(found).as_str());
    s.append("'.");
    s
}

fn unexpected_token_message(found: &TokenType, line: u32) -> (r: String)
    ensures
        r@ == msg_unexpected_token(*found, line as int),
{
    let mut s = String::from_str("Unexpected token ");
    s.append(describe_token_type(found).as_str());
    s.append(" at line ");
    push_decimal(&mut s, line as u64);
    s.append(".");
    proof {
        assert(s@ =~= msg_unexpected_token(*found, line as int));
    }
    s
}

fn unexpected_item_message(t: &Token) -> (r: String)
    ensures
        r@ == msg_unexpected_item(*t),
{
    let mut s = String::from_str("Unexpected token found (");
    s.append(describe_token(t).as_str());
    s.append(")");
    s
}

/// The type that a token names, if any.
fn type_token(t: &TokenType) -> (r: Option<Type>)
    ensures
        r == type_of(*t),
{
    match t {
        TokenType::Void => Some(Type::Void),
        TokenType::Bool => Some(Type::Bool),
        TokenType::Char => Some(Type::Char),
        TokenType::Int8 => Some(Type::Int8),
        TokenType::Int16 => Some(Type::Int16),
        TokenType::Int32 => Some(Type::Int32),
        TokenType::Int64 => Some(Type::Int64),
        TokenType::UInt8 => Some(Type::UInt8),
        TokenType::UInt16 => Some(Type::UInt16),
        TokenType::UInt32 => Some(Type::UInt32),
        TokenType::UInt64 => Some(Type::UInt64),
        TokenType::Float32 => Some(Type::Float32),
        TokenType::Float64 => Some(Type::Float64),
        TokenType::String => Some(Type::String),
        TokenType::Identifier(identifier) => Some(Type::Named(identifier.clone())),
        _ => None,
    }
}

/// The name an identifier token carries.
fn identifier_of(t: &TokenType) -> (r: String)
    requires
        t is Identifier,
    ensures
        r == identifier_name(*t),
{
    match t {
        TokenType::Identifier(name) => name.clone(),
        _ => String::new(),
    }
}

/////////////////////////////////////////////////////
// Parser
/////////////////////////////////////////////////////

/// Reads a sequence of tokens from a position.
#[derive(Debug)]
pub struct Parser {
    pub tokens: Vec<Token>,
    pub current: usize,
}

impl Parser {
    /// What parsing items from the current position to the end yields, `None`
    /// where the parser would read past the last token.
    pub open spec fn outcome(&self) -> Option<ParsedItems> {
        items_rest(self.tokens@, self.current as int, no_items())
    }

    /////////////////////////////////////////////////////
    // Public functions
    /////////////////////////////////////////////////////

    /// A parser at the first of `tokens`.
    pub fn new(tokens: Vec<Token>) -> (r: Self)
        ensures
            r.tokens@ == tokens@,
            r.current == 0,
    {
        Self { tokens: tokens, current: 0 }
    }

    /////////////////////////////////////////////////////
    // Private functions
    /////////////////////////////////////////////////////

    fn is_at_end(&self, token_to_check_or_current_char: Option<usize>) -> (r: bool)
        ensures
            r == (match token_to_check_or_current_char {
                Some(i) => i as int,
                None => self.current as int,
            } >= self.tokens@.len()),
    {
        let token: usize = match token_to_check_or_current_char {
            Some(i) => i,
            None => self.current,
        };
        token >= self.tokens.len()
    }

    fn peek(&self, offset: Option<usize>) -> (r: Option<&Token>)
        requires
            self.current + match offset {
                Some(o) => o as int,
                None => 0,
            } <= usize::MAX,
        ensures
            ({
                let index = self.current + match offset {
                    Some(o) => o as int,
                    None => 0,
                };
                &&& r is Some <==> index < self.tokens@.len()
                &&& r matches Some(t) ==> *t == self.tokens@[index]
            }),
    {
        let off: usize = match offset {
            Some(o) => o,
            None => 0,
        };
        let index: usize = self.current + off;
        if self.is_at_end(Some(index)) {
            return None;
        }
        Some(&self.tokens[index])
    }

    /// Moves past the current token, which must exist.
    fn consume(&mut self)
        requires
            old(self).current < old(self).tokens@.len(),
        ensures
            final(self).tokens == old(self).tokens,
            final(self).current == old(self).current + 1,
    {
        let length = self.tokens.len();
        assert(self.current < length);
        self.current += 1;
    }

    /// Whether the current token exists and is of the same kind as
    /// `token_type`.
    fn check(&self, token_type: TokenType) -> (r: bool)
        ensures
            r == check(self.tokens@, self.current as int, token_type),
    {
        let peeked = self.peek(None);

        if let Some(value) = peeked {
            if value.token_type == token_type {
                return true;
            }

            return false;
        }

        return false;
    }

    /// Requires a token of kind `x` here, as `expect` says; on a mismatch
    /// the token is consumed.
    fn expect(&mut self, x: Expected) -> (r: Result<(), Stop>)
        requires
            old(self).current <= old(self).tokens@.len(),
        ensures
            final(self).tokens == old(self).tokens,
            final(self).current <= final(self).tokens@.len(),
            match expect(old(self).tokens@, old(self).current as int, x) {
                None => r is Ok && final(self).current == old(self).current,
                Some(h) => r matches Err(stop) && halted_as(stop, final(self).current as int, h),
            },
    {
        match self.peek(None) {
            Some(value) => {
                if matches_expected(x, &value.token_type) {
                    Ok(())
                } else {
                    let line = value.line;
                    let message = expected_message(x, &value.token_type);
                    self.consume();
                    Err(Stop::Error(ParseError::UnexpectedToken(message, line)))
                }
            },
            None => Err(Stop::OutOfTokens),
        }
    }
}


proof fn lemma_expression_values_push(es: Seq<Expression>, e: Expression)
    ensures
        expression_values(es.push(e)) == expression_values(es).push(e@),
{
    assert(es.push(e).drop_last() =~= es);
}

impl Parser {
    /// A type: the current token, which is consumed.
    fn parse_type(&mut self) -> (r: Result<Type, Stop>)
        requires
            old(self).current <= old(self).tokens@.len(),
        ensures
            final(self).tokens == old(self).tokens,
            final(self).current <= final(self).tokens@.len(),
            yields(r, final(self).current as int, parse_type(old(self).tokens@, old(self).current as int), |t: Type| t),
    {
        if self.is_at_end(None) {
            return Err(Stop::OutOfTokens);
        }
        let index = self.current;
        self.consume();
        let token = &self.tokens[index];
        match type_token(&token.token_type) {
            Some(ty) => Ok(ty),
            None => Err(Stop::Error(ParseError::ExpectedType(String::from_str("Expected a type token."), token.line))),
        }
    }

    /// An expression (for now, a primary expression).
    fn parse_expression(&mut self) -> (r: Result<Expression, Stop>)
        requires
            old(self).current <= old(self).tokens@.len(),
        ensures
            final(self).tokens == old(self).tokens,
            final(self).current <= final(self).tokens@.len(),
            yields(r, final(self).current as int, parse_expression(old(self).tokens@, old(self).current as int), |e: Expression| e@),
        decreases old(self).tokens@.len() - old(self).current, 1nat,
    {
        self.parse_primary()
    }

    /// A primary expression: a literal, an identifier, or a call.
    fn parse_primary(&mut self) -> (r: Result<Expression, Stop>)
        requires
            old(self).current <= old(self).tokens@.len(),
        ensures
            final(self).tokens == old(self).tokens,
            final(self).current <= final(self).tokens@.len(),
            yields(r, final(self).current as int, parse_primary(old(self).tokens@, old(self).current as int), |e: Expression| e@),
        decreases old(self).tokens@.len() - old(self).current, 0nat,
    {
        if self.is_at_end(None) {
            return Err(Stop::OutOfTokens);
        }
        let index = self.current;
        self.consume();
        let token = &self.tokens[index];
        match &token.token_type {
            TokenType::Int64Literal(n) => Ok(Expression::IntLiteral(*n)),
            TokenType::Float64Literal(f) => Ok(Expression::FloatLiteral(f.clone())),
            TokenType::StringLiteral(s) => Ok(Expression::StringLiteral(s.clone())),
            TokenType::True => Ok(Expression::BooleanLiteral(true)),
            TokenType::False => Ok(Expression::BooleanLiteral(false)),
            TokenType::Identifier(identifier) => {
                let name = identifier.clone();
                // Could be a call:  name(args)
                if self.check(TokenType::LeftParenthesis) {
                    self.consume();
                    let arguments = match self.parse_call_args() {
                        Ok(arguments) => arguments,
                        Err(stop) => {
                            return Err(stop);
                        },
                    };
                    match self.expect(Expected::RightParenthesis) {
                        Ok(()) => {},
                        Err(stop) => {
                            return Err(stop);
                        },
                    }
                    self.consume();
                    Ok(Expression::Call { callee: name, arguments: arguments })
                } else {
                    Ok(Expression::Identifier(name))
                }
            },
            other => {
                let message = unexpected_token_message(other, token.line);
                Err(Stop::Error(ParseError::UnexpectedToken(message, token.line)))
            },
        }
    }

    /// The arguments of a call, after its `(`.
    fn parse_call_args(&mut self) -> (r: Result<Vec<Expression>, Stop>)
        requires
            old(self).current <= old(self).tokens@.len(),
        ensures
            final(self).tokens == old(self).tokens,
            final(self).current <= final(self).tokens@.len(),
            yields(
                r,
                final(self).current as int,
                parse_call_args(old(self).tokens@, old(self).current as int),
                |v: Vec<Expression>| expression_values(v@),
            ),
        decreases old(self).tokens@.len() - old(self).current, 2nat,
    {
        let mut arguments: Vec<Expression> = Vec::new();

        if self.check(TokenType::RightParenthesis) {
            return Ok(arguments);
        }

        loop
            invariant
                self.tokens == old(self).tokens,
                old(self).current <= self.current <= self.tokens@.len(),
                !check(old(self).tokens@, old(self).current as int, TokenType::RightParenthesis),
                argument_list(self.tokens@, self.current as int, expression_values(arguments@))
                    == argument_list(old(self).tokens@, old(self).current as int, seq![]),
            decreases self.tokens@.len() - self.current,
        {
            let ghost at = self.current as int;
            let ghost read = expression_values(arguments@);
            proof {
                lemma_expression_advances(self.tokens@, at);
            }
            let argument = match self.parse_expression() {
                Ok(argument) => argument,
                Err(stop) => {
                    return Err(stop);
                },
            };
            proof {
                lemma_expression_values_push(arguments@, argument);
            }
            arguments.push(argument);
            if !self.check(TokenType::Comma) {
                return Ok(arguments);
            }
            self.consume();
        }
    }
}


impl Parser {
    /// A variable declaration `type name = expression;`.
    fn parse_let(&mut self) -> (r: Result<Statement, Stop>)
        requires
            old(self).current <= old(self).tokens@.len(),
        ensures
            final(self).tokens == old(self).tokens,
            final(self).current <= final(self).tokens@.len(),
            yields(r, final(self).current as int, parse_let(old(self).tokens@, old(self).current as int), |s: Statement| s@),
    {
        match self.expect(Expected::TypeName) {
            Ok(()) => {},
            Err(stop) => {
                return Err(stop);
            },
        }
        let let_type = match self.parse_type() {
            Ok(ty) => ty,
            Err(stop) => {
                return Err(stop);
            },
        };

        match self.expect(Expected::Identifier) {
            Ok(()) => {},
            Err(stop) => {
                return Err(stop);
            },
        }
        let variable_name = identifier_of(&self.tokens[self.current].token_type);
        self.consume();

        match self.expect(Expected::Equals) {
            Ok(()) => {},
            Err(stop) => {
                return Err(stop);
            },
        }
        self.consume();

        let initializer = match self.parse_expression() {
            Ok(e) => e,
            Err(stop) => {
                return Err(stop);
            },
        };

        match self.expect(Expected::Semicolon) {
            Ok(()) => {},
            Err(stop) => {
                return Err(stop);
            },
        }
        self.consume();

        Ok(Statement::Variable { name: variable_name, variable_type: let_type, initializer: Some(initializer) })
    }

    /// A return statement `return expression;`.
    fn parse_return(&mut self) -> (r: Result<Statement, Stop>)
        requires
            old(self).current <= old(self).tokens@.len(),
        ensures
            final(self).tokens == old(self).tokens,
            final(self).current <= final(self).tokens@.len(),
            yields(r, final(self).current as int, parse_return(old(self).tokens@, old(self).current as int), |s: Statement| s@),
    {
        match self.expect(Expected::Return) {
            Ok(()) => {},
            Err(stop) => {
                return Err(stop);
            },
        }
        self.consume();

        let expression = match self.parse_expression() {
            Ok(e) => e,
            Err(stop) => {
                return Err(stop);
            },
        };

        match self.expect(Expected::Semicolon) {
            Ok(()) => {},
            Err(stop) => {
                return Err(stop);
            },
        }
        self.consume();

        Ok(Statement::Return(expression))
    }

    /// A statement.
    fn parse_statement(&mut self) -> (r: Result<Statement, Stop>)
        requires
            old(self).current <= old(self).tokens@.len(),
        ensures
            final(self).tokens == old(self).tokens,
            final(self).current <= final(self).tokens@.len(),
            yields(r, final(self).current as int, parse_statement(old(self).tokens@, old(self).current as int), |s: Statement| s@),
    {
        match self.peek(None) {
            Some(token) => {
                if is_type_token(&token.token_type) {
                    self.parse_let()
                } else if matches!(token.token_type, TokenType::Return) {
                    self.parse_return()
                } else {
                    match self.parse_expression() {
                        Ok(e) => Ok(Statement::Expression(e)),
                        Err(stop) => Err(stop),
                    }
                }
            },
            None => {
                Err(Stop::Error(ParseError::NoTokenFound(
                    String::from_str("Expected to parse statement, but no token found."),
                    0,
                )))
            },
        }
    }

    /// A block `{ statements }`.
    fn parse_block(&mut self) -> (r: Result<Vec<Statement>, Stop>)
        requires
            old(self).current <= old(self).tokens@.len(),
        ensures
            final(self).tokens == old(self).tokens,
            final(self).current <= final(self).tokens@.len(),
            yields(
                r,
                final(self).current as int,
                parse_block(old(self).tokens@, old(self).current as int),
                |v: Vec<Statement>| statement_values(v@),
            ),
    {
        let mut statements: Vec<Statement> = Vec::new();

        match self.expect(Expected::LeftBrace) {
            Ok(()) => {},
            Err(stop) => {
                return Err(stop);
            },
        }
        self.consume();
        proof {
            assert(statement_values(statements@) =~= seq![]);
        }
        while !self.check(TokenType::RightBrace) && !self.is_at_end(None)
            invariant
                self.tokens == old(self).tokens,
                self.current <= self.tokens@.len(),
                block_rest(self.tokens@, self.current as int, statement_values(statements@))
                    == parse_block(old(self).tokens@, old(self).current as int),
            decreases self.tokens@.len() - self.current,
        {
            let ghost at = self.current as int;
            proof {
                lemma_statement_advances(self.tokens@, at);
            }
            let statement = match self.parse_statement() {
                Ok(statement) => statement,
                Err(stop) => {
                    return Err(stop);
                },
            };
            proof {
                assert(statement_values(statements@.push(statement))
                    =~= statement_values(statements@).push(statement@));
            }
            statements.push(statement);
        }
        match self.expect(Expected::RightBrace) {
            Ok(()) => {},
            Err(stop) => {
                return Err(stop);
            },
        }
        self.consume();

        Ok(statements)
    }
}


impl Parser {
    /// The parameters of a function, after its `(`.
    fn parse_parameters(&mut self) -> (r: Result<Vec<Parameter>, Stop>)
        requires
            old(self).current <= old(self).tokens@.len(),
        ensures
            final(self).tokens == old(self).tokens,
            final(self).current <= final(self).tokens@.len(),
            yields(
                r,
                final(self).current as int,
                parse_parameters(old(self).tokens@, old(self).current as int),
                |v: Vec<Parameter>| v@,
            ),
    {
        let mut params: Vec<Parameter> = Vec::new();

        if self.check(TokenType::RightParenthesis) {
            return Ok(params);
        }

        loop
            invariant
                self.tokens == old(self).tokens,
                self.current <= self.tokens@.len(),
                !check(old(self).tokens@, old(self).current as int, TokenType::RightParenthesis),
                parameter_list(self.tokens@, self.current as int, params@)
                    == parameter_list(old(self).tokens@, old(self).current as int, seq![]),
            decreases self.tokens@.len() - self.current,
        {
            match self.expect(Expected::TypeName) {
                Ok(()) => {},
                Err(stop) => {
                    return Err(stop);
                },
            }
            let parameter_type = match self.parse_type() {
                Ok(ty) => ty,
                Err(stop) => {
                    return Err(stop);
                },
            };

            match self.expect(Expected::Identifier) {
                Ok(()) => {},
                Err(stop) => {
                    return Err(stop);
                },
            }
            let parameter_name = identifier_of(&self.tokens[self.current].token_type);
            self.consume();

            params.push(Parameter { name: parameter_name, parameter_type: parameter_type });

            if !self.check(TokenType::Comma) {
                return Ok(params);
            }
            self.consume(); // Consume the ','
        }
    }

    /// A function definition `type name(parameters) { statements }`.
    fn parse_function(&mut self) -> (r: Result<FunctionDefinition, Stop>)
        requires
            old(self).current <= old(self).tokens@.len(),
        ensures
            final(self).tokens == old(self).tokens,
            final(self).current <= final(self).tokens@.len(),
            yields(
                r,
                final(self).current as int,
                parse_function(old(self).tokens@, old(self).current as int),
                |f: FunctionDefinition| f@,
            ),
    {
        match self.expect(Expected::TypeName) {
            Ok(()) => {},
            Err(stop) => {
                return Err(stop);
            },
        }
        let return_type = match self.parse_type() {
            Ok(ty) => ty,
            Err(stop) => {
                return Err(stop);
            },
        };

        match self.expect(Expected::Identifier) {
            Ok(()) => {},
            Err(stop) => {
                return Err(stop);
            },
        }
        let function_name = identifier_of(&self.tokens[self.current].token_type);
        self.consume();

        match self.expect(Expected::LeftParenthesis) {
            Ok(()) => {},
            Err(stop) => {
                return Err(stop);
            },
        }
        self.consume();
        let parameters = match self.parse_parameters() {
            Ok(parameters) => parameters,
            Err(stop) => {
                return Err(stop);
            },
        };
        match self.expect(Expected::RightParenthesis) {
            Ok(()) => {},
            Err(stop) => {
                return Err(stop);
            },
        }
        self.consume();

        match self.expect(Expected::LeftBrace) {
            Ok(()) => {},
            Err(stop) => {
                return Err(stop);
            },
        }
        let statements = match self.parse_block() {
            Ok(statements) => statements,
            Err(stop) => {
                return Err(stop);
            },
        };

        Ok(FunctionDefinition {
            name: function_name,
            parameters: parameters,
            return_type: return_type,
            body: Block { statements: statements },
        })
    }

    /// An item: a function definition where the current token (which must
    /// exist) is a type name; else an error, after that token.
    fn parse_item(&mut self) -> (r: Result<Item, Stop>)
        requires
            old(self).current < old(self).tokens@.len(),
        ensures
            final(self).tokens == old(self).tokens,
            final(self).current <= final(self).tokens@.len(),
            yields(r, final(self).current as int, parse_item(old(self).tokens@, old(self).current as int), |i: Item| i@),
    {
        let index = self.current;
        let token = &self.tokens[index];
        if is_type_token(&token.token_type) {
            match self.parse_function() {
                Ok(function) => Ok(Item::Function(function)),
                Err(stop) => Err(stop),
            }
        } else {
            let message = unexpected_item_message(token);
            let line = token.line;
            self.consume();
            Err(Stop::Error(ParseError::UnexpectedToken(message, line)))
        }
    }

    /// Parses items to the end of the tokens; `None` where the parser would
    /// read past the last token.
    fn parse_all(self) -> (r: Option<(Vec<Item>, Vec<ParseError>)>)
        ensures
            match r {
                Some((items, errors)) => self.outcome() == Some(items_view(items@, errors@)),
                None => self.outcome() is None,
            },
    {
        let mut parser = self;
        let mut items: Vec<Item> = Vec::new();
        let mut errors: Vec<ParseError> = Vec::new();
        proof {
            assert(items_view(items@, errors@) =~= no_items());
        }

        while !parser.is_at_end(None)
            invariant
                parser.tokens == self.tokens,
                self.outcome() == items_rest(parser.tokens@, parser.current as int, items_view(items@, errors@)),
            decreases parser.tokens@.len() - parser.current,
        {
            let ghost at = parser.current as int;
            let ghost acc = items_view(items@, errors@);
            proof {
                lemma_item_advances(parser.tokens@, at);
            }
            match parser.parse_item() {
                Ok(item) => {
                    items.push(item);
                    proof {
                        assert(items_view(items@, errors@) =~= ParsedItems { items: acc.items.push(item@), ..acc });
                    }
                },
                Err(Stop::Error(error)) => {
                    errors.push(error);
                    proof {
                        assert(items_view(items@, errors@) =~= ParsedItems { errors: acc.errors.push(error@), ..acc });
                    }
                },
                Err(Stop::OutOfTokens) => {
                    return None;
                },
            }
        }

        Some((items, errors))
    }

    /// Parses items from the current position to the end of the tokens: a
    /// function definition for each one that parses, an error for each one
    /// that does not (parsing goes on after the token where it stopped).
    ///
    /// Parsing must not read past the last token (`outcome` is not `None`):
    /// every construct it starts must be complete.
    pub fn get_items(self) -> (r: (Vec<Item>, Vec<ParseError>))
        requires
            self.outcome() is Some,
        ensures
            self.outcome() == Some(items_view(r.0@, r.1@)),
    {
        match self.parse_all() {
            Some(parsed) => parsed,
            None => {
                proof {
                    assert(false);
                }
                (Vec::new(), Vec::new())
            },
        }
    }

    /// As `get_items`, but `None` where parsing would read past the last
    /// token.
    pub fn try_get_items(self) -> (r: Option<(Vec<Item>, Vec<ParseError>)>)
        ensures
            match r {
                Some((items, errors)) => self.outcome() == Some(items_view(items@, errors@)),
                None => self.outcome() is None,
            },
    {
        self.parse_all()
    }
}

} // verus!
