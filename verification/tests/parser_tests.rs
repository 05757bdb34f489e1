use forge::lexer::Lexer;
use forge::nodes::{Expression, Item, Statement, Type};
use forge::parser::{ParseError, Parser};
use forge::token::{Token, TokenType};

fn tokens(source: &str) -> Vec<Token> {
    let (tokens, errors, _) = Lexer::new(source).get_tokens();
    assert!(errors.is_empty());
    tokens
}

fn parse(source: &str) -> (Vec<Item>, Vec<ParseError>) {
    Parser::new(tokens(source)).get_items()
}

fn unexpected(message: &str, line: u32) -> ParseError {
    ParseError::UnexpectedToken(message.to_string(), line)
}

#[test]
fn no_tokens_no_items() {
    let (items, errors) = Parser::new(Vec::new()).get_items();
    assert!(items.is_empty());
    assert!(errors.is_empty());
}

#[test]
fn new_parser_starts_at_the_first_token() {
    let parser = Parser::new(tokens("void f"));
    assert_eq!(parser.current, 0);
    assert_eq!(parser.tokens.len(), 2);
}

#[test]
fn function_with_return() {
    let (items, errors) = parse("int32 main() { return 0; }");
    assert!(errors.is_empty());
    assert_eq!(items.len(), 1);
    let Item::Function(f) = &items[0];
    assert_eq!(f.name, "main");
    assert!(matches!(f.return_type, Type::Int32));
    assert!(f.parameters.is_empty());
    assert_eq!(f.body.statements.len(), 1);
    assert!(matches!(f.body.statements[0], Statement::Return(Expression::IntLiteral(0))));
}

#[test]
fn parameters_and_declarations() {
    let source = "void f(int32 a, bool b, char c) {\n  string s = \"hi\";\n  float64 x = 1.5;\n  bool t = true;\n  uint8 n = a;\n  return false;\n}";
    let (items, errors) = parse(source);
    assert!(errors.is_empty());
    let Item::Function(f) = &items[0];
    assert_eq!(f.name, "f");
    assert!(matches!(f.return_type, Type::Void));
    let params: Vec<(&str, &Type)> = f.parameters.iter().map(|p| (p.name.as_str(), &p.parameter_type)).collect();
    assert_eq!(params.len(), 3);
    assert_eq!(params[0].0, "a");
    assert!(matches!(params[0].1, Type::Int32));
    assert_eq!(params[1].0, "b");
    assert!(matches!(params[1].1, Type::Bool));
    assert_eq!(params[2].0, "c");
    assert!(matches!(params[2].1, Type::Char));
    let body = &f.body.statements;
    assert_eq!(body.len(), 5);
    match &body[0] {
        Statement::Variable { name, variable_type: Type::String, initializer: Some(Expression::StringLiteral(s)) } => {
            assert_eq!(name, "s");
            assert_eq!(s, "hi");
        },
        other => panic!("unexpected {:?}", other),
    }
    match &body[1] {
        Statement::Variable { name, variable_type: Type::Float64, initializer: Some(Expression::FloatLiteral(text)) } => {
            assert_eq!(name, "x");
            assert_eq!(text, "1.5");
        },
        other => panic!("unexpected {:?}", other),
    }
    assert!(matches!(&body[2], Statement::Variable { variable_type: Type::Bool, initializer: Some(Expression::BooleanLiteral(true)), .. }));
    match &body[3] {
        Statement::Variable { variable_type: Type::UInt8, initializer: Some(Expression::Identifier(a)), .. } => assert_eq!(a, "a"),
        other => panic!("unexpected {:?}", other),
    }
    assert!(matches!(&body[4], Statement::Return(Expression::BooleanLiteral(false))));
}

#[test]
fn calls_as_expression_statements() {
    let (items, errors) = parse("void main() { print(a, 1, g()) h }");
    assert!(errors.is_empty());
    let Item::Function(f) = &items[0];
    assert_eq!(f.body.statements.len(), 2);
    match &f.body.statements[0] {
        Statement::Expression(Expression::Call { callee, arguments }) => {
            assert_eq!(callee, "print");
            assert_eq!(arguments.len(), 3);
            assert!(matches!(&arguments[0], Expression::Identifier(a) if a == "a"));
            assert!(matches!(&arguments[1], Expression::IntLiteral(1)));
            assert!(matches!(&arguments[2], Expression::Call { callee, arguments } if callee == "g" && arguments.is_empty()));
        },
        other => panic!("unexpected {:?}", other),
    }
    assert!(matches!(&f.body.statements[1], Statement::Expression(Expression::Identifier(h)) if h == "h"));
}

#[test]
fn semicolon_after_expression_statement_is_an_error_and_parsing_resumes() {
    let (items, errors) = parse("void main() { print(x); }\nint32 g() { return 1; }");
    assert_eq!(items.len(), 1);
    let Item::Function(g) = &items[0];
    assert_eq!(g.name, "g");
    assert_eq!(
        errors,
        vec![
            unexpected("Unexpected token Semicolon at line 1.", 1),
            unexpected("Unexpected token found (Token { token_type: RightBrace, line: 1 })", 1),
        ]
    );
}

#[test]
fn item_must_start_with_a_type() {
    let (items, errors) = parse("foo 7");
    assert!(items.is_empty());
    assert_eq!(
        errors,
        vec![
            unexpected("Unexpected token found (Token { token_type: Identifier(\"foo\"), line: 1 })", 1),
            unexpected("Unexpected token found (Token { token_type: Int64Literal(7), line: 1 })", 1),
        ]
    );
}

#[test]
fn expected_identifier_after_return_type() {
    let (items, errors) = parse("int32 5");
    assert!(items.is_empty());
    assert_eq!(
        errors,
        vec![unexpected("Expected one of `TokenType::Identifier(_)` but found 'Int64Literal(5)'.", 1)]
    );
}

#[test]
fn expected_type_lists_every_type_name() {
    let (_, errors) = parse("void f(x y) { }");
    assert_eq!(
        errors[0],
        unexpected(
            "Expected one of `TokenType::Void, TokenType::Bool, TokenType::Char, TokenType::Int8, TokenType::Int16, TokenType::Int32, TokenType::Int64, TokenType::UInt8, TokenType::UInt16, TokenType::UInt32, TokenType::UInt64, TokenType::Float32, TokenType::Float64, TokenType::String` but found 'Identifier(\"x\")'.",
            1
        )
    );
}

#[test]
fn messages_show_literal_values() {
    let (_, errors) = parse("int32 'a'");
    assert_eq!(errors[0], unexpected("Expected one of `TokenType::Identifier(_)` but found 'CharLiteral('a')'.", 1));
    let (_, errors) = parse("int32 \"q\\\"t\"");
    assert_eq!(
        errors[0],
        unexpected("Expected one of `TokenType::Identifier(_)` but found 'StringLiteral(\"q\\\"t\")'.", 1)
    );
    let (_, errors) = parse("void f() { return = ; }");
    assert_eq!(errors[0], unexpected("Unexpected token Equals at line 1.", 1));
}

#[test]
fn negative_literal_in_hand_made_tokens() {
    let toks = vec![
        Token { token_type: TokenType::Void, line: 4 },
        Token { token_type: TokenType::Int64Literal(-12), line: 4 },
    ];
    let (_, errors) = Parser::new(toks).get_items();
    assert_eq!(errors, vec![unexpected("Expected one of `TokenType::Identifier(_)` but found 'Int64Literal(-12)'.", 4)]);
}

#[test]
fn missing_pieces_of_a_declaration() {
    let (_, errors) = parse("void f() { int32 = 1; }");
    assert_eq!(errors[0], unexpected("Expected one of `TokenType::Identifier(_)` but found 'Equals'.", 1));
    let (_, errors) = parse("void f() { int32 x 1; }");
    assert_eq!(errors[0], unexpected("Expected one of `TokenType::Equals` but found 'Int64Literal(1)'.", 1));
    let (_, errors) = parse("void f() { int32 x = 1 }");
    assert_eq!(errors[0], unexpected("Expected one of `TokenType::Semicolon` but found 'RightBrace'.", 1));
    let (_, errors) = parse("void f() { return 1 }");
    assert_eq!(errors[0], unexpected("Expected one of `TokenType::Semicolon` but found 'RightBrace'.", 1));
    let (_, errors) = parse("void f( { }");
    assert_eq!(errors[0].clone(), unexpected("Expected one of `TokenType::Void, TokenType::Bool, TokenType::Char, TokenType::Int8, TokenType::Int16, TokenType::Int32, TokenType::Int64, TokenType::UInt8, TokenType::UInt16, TokenType::UInt32, TokenType::UInt64, TokenType::Float32, TokenType::Float64, TokenType::String` but found 'LeftBrace'.", 1));
    let (_, errors) = parse("void f() x");
    assert_eq!(errors[0], unexpected("Expected one of `TokenType::LeftBrace` but found 'Identifier(\"x\")'.", 1));
    let (_, errors) = parse("void f x");
    assert_eq!(errors[0], unexpected("Expected one of `TokenType::LeftParenthesis` but found 'Identifier(\"x\")'.", 1));
    let (_, errors) = parse("void f(int32 a b) { }");
    assert_eq!(errors[0], unexpected("Expected one of `TokenType::RightParenthesis` but found 'Identifier(\"b\")'.", 1));
    let (_, errors) = parse("void f() { g(1 2) }");
    assert_eq!(errors[0], unexpected("Expected one of `TokenType::RightParenthesis` but found 'Int64Literal(2)'.", 1));
}

#[test]
fn incomplete_input_cannot_be_parsed() {
    assert!(Parser::new(tokens("int32 main")).try_get_items().is_none());
    assert!(Parser::new(tokens("int32 main() {")).try_get_items().is_none());
    assert!(Parser::new(tokens("int32 main() { return")).try_get_items().is_none());
    assert!(Parser::new(tokens("void f() { g(1,")).try_get_items().is_none());
    assert!(Parser::new(tokens("void")).try_get_items().is_none());
    let parsed = Parser::new(tokens("void f() { }")).try_get_items().unwrap();
    assert_eq!(parsed.0.len(), 1);
}

#[test]
fn at_most_one_result_per_token() {
    let toks = tokens("x y z int32 f() { return 1; } ; ; 4");
    let n = toks.len();
    let (items, errors) = Parser::new(toks).get_items();
    assert!(items.len() + errors.len() <= n);
    assert_eq!(items.len(), 1);
    assert_eq!(errors.len(), 6);
}

#[test]
fn parsing_starts_at_the_current_position() {
    let mut parser = Parser::new(tokens("oops void f() { }"));
    parser.current = 1;
    let (items, errors) = parser.get_items();
    assert_eq!(items.len(), 1);
    assert!(errors.is_empty());
}
