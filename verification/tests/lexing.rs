use angi::compiler::lexer::{LexResult, Lexer};
use angi::compiler::token::Token;

#[test]
fn lexing_test_expr_simple() {
    let lex = Lexer::new_from_str("1 + 1");
    let tokens: Vec<LexResult> = lex.collect();
    assert_eq!(
        tokens,
        vec![
            Ok((1, Token::Number(1), (1, 1))),
            Ok((1, Token::Plus, (3, 3))),
            Ok((1, Token::Number(1), (5, 5))),
            Ok((1, Token::EndOfFile, (6, 6)))
        ]
    )
}

#[test]
fn lexing_test_table() {
    let lex = Lexer::new_from_str(
        r#"
    {
       name = "Tien";
    }
"#,
    );
    let tokens: Vec<LexResult> = lex.collect();
    assert_eq!(
        tokens,
        vec![
            Ok((1, Token::NewLine, (1, 1))),
            Ok((2, Token::LeftBrace, (5, 5))),
            Ok((2, Token::NewLine, (6, 6))),
            Ok((3, Token::Name("name".into()), (8, 11))),
            Ok((3, Token::Equal, (13, 13))),
            Ok((3, Token::String("Tien".into()), (15, 20))),
            Ok((3, Token::Semicolon, (21, 21))),
            Ok((3, Token::NewLine, (22, 22))),
            Ok((4, Token::RightBrace, (5, 5))),
            Ok((4, Token::NewLine, (6, 6))),
            Ok((5, Token::EndOfFile, (1, 1)))
        ]
    )
}

#[test]
fn lexing_test_1() {
    let lex = Lexer::new_from_str("1 + 1");
    let tokens: Vec<LexResult> = lex.collect();
    assert_eq!(
        tokens,
        vec![
            Ok((1, Token::Number(1), (1, 1))),
            Ok((1, Token::Plus, (3, 3))),
            Ok((1, Token::Number(1), (5, 5))),
            Ok((1, Token::EndOfFile, (6, 6)))
        ]
    )
}

fn kinds(src: &str) -> Vec<Token> {
    Lexer::new_from_str(src).collect().into_iter().map(|r| r.unwrap().1).collect()
}

#[test]
fn keywords_and_names() {
    assert_eq!(
        kinds("let in true false lets x_1"),
        vec![
            Token::Let,
            Token::In,
            Token::True,
            Token::False,
            Token::Name("lets".into()),
            Token::Name("x_1".into()),
            Token::EndOfFile
        ]
    );
    assert_eq!(Token::str_to_keyword("let"), Some(Token::Let));
    assert_eq!(Token::str_to_keyword("le"), None);
    assert!(Token::Plus.is_prefix_token());
    assert!(Token::Dash.is_prefix_token());
    assert!(!Token::Star.is_prefix_token());
}

#[test]
fn names_start_with_any_letter() {
    assert_eq!(kinds("\u{e9}a"), vec![Token::Name("\u{e9}a".into()), Token::EndOfFile]);
    assert_eq!(kinds("_a"), vec![Token::Name("a".into()), Token::EndOfFile]);
}

#[test]
fn punctuation_and_arrows() {
    assert_eq!(
        kinds("{}[]()=;,+*/%-|=>->|>"),
        vec![
            Token::LeftBrace,
            Token::RightBrace,
            Token::LeftBracket,
            Token::RightBracket,
            Token::LeftParen,
            Token::RightParen,
            Token::Equal,
            Token::Semicolon,
            Token::Comma,
            Token::Plus,
            Token::Star,
            Token::Slash,
            Token::Percent,
            Token::Dash,
            Token::Bar,
            Token::EqualRightArrow,
            Token::RightArrow,
            Token::Pipe,
            Token::EndOfFile
        ]
    );
}

#[test]
fn numbers_with_sign_and_bounds() {
    assert_eq!(
        kinds("-12 2147483647 -2147483648 007"),
        vec![
            Token::Number(-12),
            Token::Number(2147483647),
            Token::Number(-2147483648),
            Token::Number(7),
            Token::EndOfFile
        ]
    );
    assert_eq!(kinds("20- 4"), vec![Token::Number(20), Token::Dash, Token::Number(4), Token::EndOfFile]);
}

#[test]
fn a_number_that_is_none_is_an_error() {
    let tokens: Vec<LexResult> = Lexer::new_from_str("1.5").collect();
    assert!(tokens[0].is_err());
    assert_eq!(tokens[1], Ok((1, Token::Number(5), (3, 3))));
    assert_eq!(tokens[2], Ok((1, Token::EndOfFile, (4, 4))));
    let tokens: Vec<LexResult> = Lexer::new_from_str("2147483648").collect();
    assert!(tokens[0].is_err());
}

#[test]
fn strings_keep_their_backslashes() {
    let tokens: Vec<LexResult> = Lexer::new_from_str(r#""a\"b" "open"#).collect();
    assert_eq!(tokens[0], Ok((1, Token::String(r#"a\"b"#.into()), (1, 6))));
    assert_eq!(tokens[1], Ok((1, Token::String("open".into()), (8, 13))));
    assert_eq!(tokens[2], Ok((1, Token::EndOfFile, (14, 14))));
}

#[test]
fn next_goes_on_after_the_end() {
    let mut lex = Lexer::new("x".chars());
    assert_eq!(lex.next(), Some(Ok((1, Token::Name("x".into()), (1, 1)))));
    assert_eq!(lex.next(), Some(Ok((1, Token::EndOfFile, (2, 2)))));
    assert_eq!(lex.next(), None);
    assert_eq!(lex.next(), Some(Ok((1, Token::EndOfFile, (2, 2)))));
    assert_eq!(lex.next(), None);
}

#[test]
fn new_starts_where_the_characters_start() {
    let mut chars = "ab cd".chars();
    chars.next();
    chars.next();
    let tokens: Vec<LexResult> = Lexer::new(chars).collect();
    assert_eq!(
        tokens,
        vec![Ok((1, Token::Name("cd".into()), (2, 3))), Ok((1, Token::EndOfFile, (4, 4)))]
    );
}
