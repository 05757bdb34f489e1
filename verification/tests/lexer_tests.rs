use forge::lexer::{LexError, Lexer};
use forge::token::{Token, TokenType};

/// Compares two values by their debug text, which shows every payload
/// (`TokenType`'s `==` compares only kinds).
fn same<T: std::fmt::Debug>(left: T, right: T) {
    assert_eq!(format!("{:?}", left), format!("{:?}", right));
}

fn lex(source: &str) -> (Vec<Token>, Vec<LexError>, Vec<String>) {
    Lexer::new(source).get_tokens()
}

fn kinds(source: &str) -> Vec<TokenType> {
    lex(source).0.into_iter().map(|t| t.token_type).collect()
}

fn lines(source: &str) -> Vec<u32> {
    lex(source).0.into_iter().map(|t| t.line).collect()
}

fn ident(s: &str) -> TokenType {
    TokenType::Identifier(s.to_string())
}

#[test]
fn empty_source_yields_nothing() {
    let (tokens, errors, notices) = lex("");
    assert!(tokens.is_empty());
    assert!(errors.is_empty());
    assert!(notices.is_empty());
}

#[test]
fn whitespace_yields_nothing() {
    let (tokens, errors, notices) = lex("  \t\n\r\n   \t");
    assert!(tokens.is_empty());
    assert!(errors.is_empty());
    assert!(notices.is_empty());
}

#[test]
fn keywords_and_type_names() {
    same(
        kinds("let return true false void bool char int8 int16 int32 int64 uint8 uint16 uint32 uint64 float32 float64 string"),
        vec![
            TokenType::Let, TokenType::Return, TokenType::True, TokenType::False,
            TokenType::Void, TokenType::Bool, TokenType::Char,
            TokenType::Int8, TokenType::Int16, TokenType::Int32, TokenType::Int64,
            TokenType::UInt8, TokenType::UInt16, TokenType::UInt32, TokenType::UInt64,
            TokenType::Float32, TokenType::Float64, TokenType::String,
        ]
    );
}

#[test]
fn identifiers_are_maximal_words() {
    same(
        kinds("foo _bar baz9 letter int320 x_y"),
        vec![ident("foo"), ident("_bar"), ident("baz9"), ident("letter"), ident("int320"), ident("x_y")]
    );
}

#[test]
fn unicode_letters_form_identifiers() {
    same(kinds("héllo 京都"), vec![ident("héllo"), ident("京都")]);
}

#[test]
fn integer_literals() {
    same(
        kinds("42 007 0 9223372036854775807"),
        vec![
            TokenType::Int64Literal(42),
            TokenType::Int64Literal(7),
            TokenType::Int64Literal(0),
            TokenType::Int64Literal(i64::MAX),
        ]
    );
}

#[test]
fn float_literals_keep_their_text() {
    same(
        kinds("3.14 12. 1.2.3"),
        vec![
            TokenType::Float64Literal("3.14".to_string()),
            TokenType::Float64Literal("12.".to_string()),
            TokenType::Float64Literal("1.2".to_string()),
            TokenType::Dot,
            TokenType::Int64Literal(3),
        ]
    );
}

#[test]
fn number_then_word() {
    same(kinds("12abc"), vec![TokenType::Int64Literal(12), ident("abc")]);
}

#[test]
fn oversized_integer_cannot_be_lexed() {
    assert!(Lexer::new("let x 9223372036854775808").try_get_tokens().is_none());
    assert!(Lexer::new("99999999999999999999").try_get_tokens().is_none());
    // With a dot it is a float literal and lexes.
    let lexed = Lexer::new("99999999999999999999.5").try_get_tokens().unwrap();
    same(lexed.0[0].token_type.clone(), TokenType::Float64Literal("99999999999999999999.5".to_string()));
}

#[test]
fn string_literals_and_escapes() {
    same(
        kinds(r#""hello" "a\nb\t\r\\\'\"\0" """#),
        vec![
            TokenType::StringLiteral("hello".to_string()),
            TokenType::StringLiteral("a\nb\t\r\\'\"\0".to_string()),
            TokenType::StringLiteral(String::new()),
        ]
    );
}

#[test]
fn unterminated_string() {
    let (tokens, errors, _) = lex("\"abc");
    assert!(tokens.is_empty());
    same(errors, vec![LexError::StringParseError("Unterminated string on line 1".to_string(), 1)]);
}

#[test]
fn unknown_escape_in_string_resumes_at_the_escaped_character() {
    let (tokens, errors, _) = lex("\"a\\q\"");
    same(tokens.into_iter().map(|t| t.token_type).collect::<Vec<_>>(), vec![ident("q")]);
    same(
        errors,
        vec![
            LexError::CharacterParseError("Unknown escape sequence '\\q' on line 1".to_string(), 1),
            LexError::StringParseError("Unterminated string on line 1".to_string(), 1),
        ]
    );
}

#[test]
fn backslash_at_end_of_source() {
    let (tokens, errors, _) = lex("\"\\");
    assert!(tokens.is_empty());
    same(
        errors,
        vec![LexError::CharacterParseError("Unexpected end of file after '\\' on line 1".to_string(), 1)]
    );
}

#[test]
fn char_literals() {
    same(
        kinds(r"'a' '\n' '\'' '\\' ' '"),
        vec![
            TokenType::CharLiteral('a'),
            TokenType::CharLiteral('\n'),
            TokenType::CharLiteral('\''),
            TokenType::CharLiteral('\\'),
            TokenType::CharLiteral(' '),
        ]
    );
}

#[test]
fn char_literal_errors() {
    let (tokens, errors, _) = lex("'ab'");
    same(tokens.into_iter().map(|t| t.token_type).collect::<Vec<_>>(), vec![ident("b")]);
    same(
        errors,
        vec![
            LexError::CharacterParseError("Expected closing ' on line 1 but got 'b'".to_string(), 1),
            LexError::CharacterParseError("Unterminated char literal on line 1".to_string(), 1),
        ]
    );

    let (_, errors, _) = lex("'");
    same(errors, vec![LexError::CharacterParseError("Unterminated char literal on line 1".to_string(), 1)]);

    let (_, errors, _) = lex("'a");
    same(errors, vec![LexError::CharacterParseError("Unterminated char literal on line 1".to_string(), 1)]);

    let (_, errors, _) = lex("'\\x'");
    same(
        errors[0].clone(),
        LexError::CharacterParseError("Unknown escape sequence '\\x' on line 1".to_string(), 1)
    );
}

#[test]
fn punctuation_and_operators() {
    same(
        kinds("( ) { } : ; , . -> -- -= - == = += ++ + *= * /= / != < <= > >="),
        vec![
            TokenType::LeftParenthesis, TokenType::RightParenthesis,
            TokenType::LeftBrace, TokenType::RightBrace,
            TokenType::Colon, TokenType::Semicolon, TokenType::Comma, TokenType::Dot,
            TokenType::Arrow, TokenType::MinusMinus, TokenType::MinusEquals, TokenType::Minus,
            TokenType::EqualsEquals, TokenType::Equals,
            TokenType::PlusEquals, TokenType::PlusPlus, TokenType::Plus,
            TokenType::StarEquals, TokenType::Star,
            TokenType::SlashEquals, TokenType::Slash,
            TokenType::NotEquals,
            TokenType::LessThan, TokenType::LessThanOrEquals,
            TokenType::GreaterThan, TokenType::GreaterThanOrEquals,
        ]
    );
}

#[test]
fn operators_take_the_longest_match_without_spaces() {
    same(
        kinds("a->b---c<=>=="),
        vec![
            ident("a"), TokenType::Arrow, ident("b"), TokenType::MinusMinus, TokenType::Minus,
            ident("c"), TokenType::LessThanOrEquals, TokenType::GreaterThanOrEquals, TokenType::Equals,
        ]
    );
}

#[test]
fn lone_bang_is_reported_and_skipped() {
    let (tokens, errors, notices) = lex("a\n! b");
    same(tokens.into_iter().map(|t| t.token_type).collect::<Vec<_>>(), vec![ident("a"), ident("b")]);
    assert!(errors.is_empty());
    same(notices, vec!["Invalid token found on line 2, '!'.".to_string()]);
}

#[test]
fn unknown_characters_are_skipped() {
    let (tokens, errors, notices) = lex("@ # $ x");
    same(tokens.into_iter().map(|t| t.token_type).collect::<Vec<_>>(), vec![ident("x")]);
    assert!(errors.is_empty());
    assert!(notices.is_empty());
}

#[test]
fn lines_count_every_line_break() {
    // "\r\n" counts as two line breaks.
    same(lines("a\nb\r\nc\rd"), vec![1, 2, 4, 5]);
}

#[test]
fn line_breaks_inside_literals_are_not_counted() {
    let (tokens, _, _) = lex("\"x\ny\" z\n'\n' w");
    same(tokens[0].token_type.clone(), TokenType::StringLiteral("x\ny".to_string()));
    same(tokens.iter().map(|t| t.line).collect::<Vec<_>>(), vec![1, 1, 2, 2]);
}

#[test]
fn error_lines_follow_the_line_counter() {
    let (_, errors, _) = lex("\n\n\"open");
    same(errors, vec![LexError::StringParseError("Unterminated string on line 3".to_string(), 3)]);
    let (_, errors, _) = lex("\n\n\n\n\n\n\n\n\n\n\n\n'xy'");
    same(
        errors[0].clone(),
        LexError::CharacterParseError("Expected closing ' on line 13 but got 'y'".to_string(), 13)
    );
}

#[test]
fn token_lines_never_decrease_and_counts_are_bounded() {
    let source = "int32 main()\n{\n  int32 x = 5;\r\n  return \"s\" ! @;\n}\n";
    let (tokens, errors, notices) = lex(source);
    for pair in tokens.windows(2) {
        assert!(1 <= pair[0].line && pair[0].line <= pair[1].line);
    }
    assert!(tokens.len() + errors.len() + notices.len() <= source.chars().count());
}

#[test]
fn identifiers_are_never_keywords() {
    for t in kinds("lets returned True FALSE Void int") {
        match t {
            TokenType::Identifier(w) => assert!(!["let", "return", "true", "false", "void", "int8"].contains(&w.as_str())),
            other => panic!("unexpected {:?}", other),
        }
    }
}

#[test]
fn readme_example() {
    let source = "using system.io;\n\nint32 main() \n{\n    let msg /*: string8 */ = \"Hello from Forge!\";\n    io.print(msg);\n}\n";
    let (tokens, errors, notices) = lex(source);
    assert!(errors.is_empty());
    assert!(notices.is_empty());
    let expected = vec![
        (ident("using"), 1), (ident("system"), 1), (TokenType::Dot, 1), (ident("io"), 1), (TokenType::Semicolon, 1),
        (TokenType::Int32, 3), (ident("main"), 3), (TokenType::LeftParenthesis, 3), (TokenType::RightParenthesis, 3),
        (TokenType::LeftBrace, 4),
        (TokenType::Let, 5), (ident("msg"), 5), (TokenType::Slash, 5), (TokenType::Star, 5), (TokenType::Colon, 5),
        (ident("string8"), 5), (TokenType::Star, 5), (TokenType::Slash, 5), (TokenType::Equals, 5),
        (TokenType::StringLiteral("Hello from Forge!".to_string()), 5), (TokenType::Semicolon, 5),
        (ident("io"), 6), (TokenType::Dot, 6), (ident("print"), 6), (TokenType::LeftParenthesis, 6), (ident("msg"), 6),
        (TokenType::RightParenthesis, 6), (TokenType::Semicolon, 6),
        (TokenType::RightBrace, 7),
    ];
    let got: Vec<(TokenType, u32)> = tokens.into_iter().map(|t| (t.token_type, t.line)).collect();
    same(got, expected);
}

#[test]
fn step_by_step_helpers() {
    let mut lexer = Lexer::new("  \n x\\n");
    assert!(!lexer.is_at_end(None));
    assert!(lexer.is_at_end(Some(7)));
    same(lexer.peek(None), Some(' '));
    same(lexer.peek(Some(4)), Some('x'));
    same(lexer.peek(Some(7)), None);
    lexer.skip_whitespace();
    same(lexer.peek(None), Some('x'));
    same(lexer.consume(), 'x');
    same(lexer.consume(), '\\');
    same(lexer.parse_escape_sequence(), Ok('\n'));
    assert!(lexer.is_at_end(None));
    same(
        lexer.parse_escape_sequence(),
        Err(LexError::CharacterParseError("Unexpected end of file after '\\' on line 2".to_string(), 2))
    );
}

#[test]
fn escape_sequence_leaves_an_unknown_character_unread() {
    let mut lexer = Lexer::new("z");
    same(
        lexer.parse_escape_sequence(),
        Err(LexError::CharacterParseError("Unknown escape sequence '\\z' on line 1".to_string(), 1))
    );
    same(lexer.peek(None), Some('z'));
}

#[test]
fn token_type_equality_compares_kinds() {
    assert!(ident("a") == ident("b"));
    assert!(TokenType::Int64Literal(1) == TokenType::Int64Literal(2));
    assert!(TokenType::StringLiteral("x".to_string()) == TokenType::StringLiteral(String::new()));
    assert!(TokenType::Float64Literal("1.0".to_string()) == TokenType::Float64Literal("2.5".to_string()));
    assert!(TokenType::CharLiteral('a') == TokenType::CharLiteral('b'));
    assert!(TokenType::Let == TokenType::Let);
    assert!(TokenType::Let != TokenType::Return);
    assert!(ident("let") != TokenType::Let);
    assert!(TokenType::StringLiteral("a".to_string()) != ident("a"));
}

fn escape_text(x: char) -> String {
    match x {
        '\n' => "\\n".to_string(),
        '\t' => "\\t".to_string(),
        '\r' => "\\r".to_string(),
        '\\' => "\\\\".to_string(),
        '\'' => "\\'".to_string(),
        '"' => "\\\"".to_string(),
        '\0' => "\\0".to_string(),
        other => other.to_string(),
    }
}

#[test]
fn char_literals_read_back_what_was_written() {
    for x in ['a', ' ', '\n', '\t', '\r', '\\', '\'', '"', '\0', '京', '!', '0'] {
        let source = format!("'{}' rest", escape_text(x));
        let (tokens, errors, _) = lex(&source);
        assert!(errors.is_empty());
        same(tokens[0].token_type.clone(), TokenType::CharLiteral(x));
        same(tokens[1].token_type.clone(), ident("rest"));
    }
}

#[test]
fn string_literals_read_back_what_was_written() {
    let text = "a\n\t\r\\'\"\0 京 ok";
    let source = format!("\"{}\" rest", text.chars().map(escape_text).collect::<String>());
    let (tokens, errors, _) = lex(&source);
    assert!(errors.is_empty());
    same(tokens[0].token_type.clone(), TokenType::StringLiteral(text.to_string()));
    same(tokens[1].token_type.clone(), ident("rest"));
}

#[test]
fn whitespace_prefix_shifts_lines() {
    let body = "int32 x 'ab'\n\"open";
    let (tokens, errors, notices) = lex(body);
    let (shifted_tokens, shifted_errors, shifted_notices) = lex(&format!(" \t\n\n\r {}", body));
    assert_eq!(tokens.len(), shifted_tokens.len());
    for (a, b) in tokens.iter().zip(shifted_tokens.iter()) {
        same(a.token_type.clone(), b.token_type.clone());
        assert_eq!(b.line, a.line + 3);
    }
    same(
        shifted_errors,
        vec![
            LexError::CharacterParseError("Expected closing ' on line 4 but got 'b'".to_string(), 4),
            // The second `'` takes the line break as its character, so the
            // line counter does not move.
            LexError::CharacterParseError("Expected closing ' on line 4 but got '\"'".to_string(), 4),
            LexError::StringParseError("Unterminated string on line 4".to_string(), 4),
        ],
    );
    assert_eq!(errors.len(), 3);
    assert_eq!(notices.len(), shifted_notices.len());
}

#[test]
fn lex_char_reads_up_to_the_closing_quote() {
    for x in ['a', '\n', '\\', '\'', '"', '\0', '京'] {
        let source = format!("'{}'rest", escape_text(x));
        let mut lexer = Lexer::new(&source);
        lexer.consume();
        same(lexer.lex_char(), Ok(TokenType::CharLiteral(x)));
        same(lexer.peek(None), Some('r'));
    }
}

#[test]
fn lex_string_reads_up_to_the_closing_quote() {
    let text = "a\n\t\r\\'\"\0 京 ok";
    let source = format!("\"{}\"rest", text.chars().map(escape_text).collect::<String>());
    let mut lexer = Lexer::new(&source);
    lexer.consume();
    same(lexer.lex_string(), Ok(TokenType::StringLiteral(text.to_string())));
    same(lexer.peek(None), Some('r'));
}
