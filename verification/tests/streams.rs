use angi::compiler::ast::{Expr, Operator};
use angi::compiler::lexer::Lexer;
use angi::compiler::parser::{
    expr_calle, expr_function, expr_list, expr_math_bp, expr_operand, expr_table, expr_with_bp,
    get_params_of_function, infix_binding_power, lookahead, prefix_binding_power, set_field,
    skip_new_line, Lookahead, TokenStream,
};
use angi::compiler::token::Token;
use angi::vm::utils::{
    chars_of, payload_at_end, read_n_bytes_from_end_of_bytes, read_u32_from_end_of_bytes,
    u8_slice_to_binary_string, write_bytes, write_u8,
};

fn stream(src: &str) -> TokenStream {
    TokenStream::new(Lexer::new_from_str(src))
}

#[test]
fn the_stream_looks_ahead_without_taking() {
    let mut tokens = stream("a )");
    assert_eq!(lookahead(&mut tokens), Lookahead::Name);
    assert_eq!(tokens.peek(), Some(&Ok((1, Token::Name("a".into()), (1, 1)))));
    assert_eq!(tokens.next(), Some(Ok((1, Token::Name("a".into()), (1, 1)))));
    assert_eq!(lookahead(&mut tokens), Lookahead::RightParen);
    assert_eq!(tokens.next(), Some(Ok((1, Token::RightParen, (3, 3)))));
    assert_eq!(lookahead(&mut tokens), Lookahead::EndOfFile);
    assert_eq!(tokens.next(), Some(Ok((1, Token::EndOfFile, (4, 4)))));
    assert_eq!(lookahead(&mut tokens), Lookahead::Other);
    assert_eq!(tokens.peek(), None);
    assert_eq!(tokens.next(), None);
    assert_eq!(tokens.next(), None);
}

#[test]
fn the_lexer_comes_back_after_what_was_taken() {
    let mut tokens = stream("a b c");
    tokens.next();
    tokens.peek();
    let mut lexer = tokens.into_lexer();
    assert_eq!(lexer.next(), Some(Ok((1, Token::Name("c".into()), (5, 5)))));
}

#[test]
fn ends_of_lines_are_skipped() {
    let mut tokens = stream("\n\n\n7");
    skip_new_line(&mut tokens);
    assert_eq!(tokens.next(), Some(Ok((4, Token::Number(7), (1, 1)))));
    let mut tokens = stream("7\n");
    skip_new_line(&mut tokens);
    assert_eq!(tokens.next(), Some(Ok((1, Token::Number(7), (1, 1)))));
}

#[test]
fn the_parts_of_the_grammar() {
    assert_eq!(
        expr_table(&mut stream("a = 1; }")),
        Ok(Expr::Table { fields: vec![("a".into(), Expr::Number(1))] })
    );
    assert_eq!(
        expr_list(&mut stream("1,\n 2\n]")),
        Ok(Expr::List { items: vec![Expr::Number(1), Expr::Number(2)] })
    );
    assert_eq!(expr_list(&mut stream("]")), Ok(Expr::List { items: vec![] }));
    assert_eq!(expr_operand(&mut stream("x + 1")), Ok(Expr::Var("x".into())));
    assert_eq!(get_params_of_function(&mut stream("a, b) => 1")), Ok(vec!["a".into(), "b".into()]));
    assert!(get_params_of_function(&mut stream("a, 1)")).is_err());
    assert_eq!(
        expr_function(&mut stream("=> 1"), vec!["p".into()]),
        Ok(Expr::FunctionDeclare { params: vec!["p".into()], body: Box::new(Expr::Number(1)) })
    );
    assert_eq!(
        expr_calle(&mut stream("1, x)"), "f".into()),
        Ok(Expr::FunctionCall { name: "f".into(), args: vec![Expr::Number(1), Expr::Var("x".into())] })
    );
    assert!(expr_calle(&mut stream("1 x)"), "f".into()).is_err());
    assert_eq!(prefix_binding_power(Operator::Sub), ((), 9));
    assert_eq!(infix_binding_power(Operator::Add), (1, 2));
    assert_eq!(infix_binding_power(Operator::Sub), (1, 2));
    assert_eq!(infix_binding_power(Operator::Mul), (3, 4));
    assert_eq!(infix_binding_power(Operator::Div), (3, 4));
}

#[test]
fn the_binding_power_bounds_the_expression() {
    let mut tokens = stream("1 * 2 + 3");
    assert_eq!(
        expr_with_bp(&mut tokens, 3),
        Ok(Expr::Binary {
            op: Operator::Mul,
            lhs: Box::new(Expr::Number(1)),
            rhs: Box::new(Expr::Number(2)),
        })
    );
    assert_eq!(tokens.next(), Some(Ok((1, Token::Plus, (7, 7)))));
}

#[test]
fn arithmetic_alone() {
    assert_eq!(
        expr_math_bp(&mut stream("- (1 + 3) / 2\n"), 0),
        Ok(Expr::Binary {
            op: Operator::Div,
            lhs: Box::new(Expr::Unary {
                op: Operator::Sub,
                rhs: Box::new(Expr::Binary {
                    op: Operator::Add,
                    lhs: Box::new(Expr::Number(1)),
                    rhs: Box::new(Expr::Number(3)),
                }),
            }),
            rhs: Box::new(Expr::Number(2)),
        })
    );
    assert!(expr_math_bp(&mut stream("x + 1"), 0).is_err());
    assert!(expr_math_bp(&mut stream("1 ; 2"), 0).is_err());
    assert!(expr_math_bp(&mut stream("(1 + 2"), 0).is_err());
    assert_eq!(expr_math_bp(&mut stream("true"), 0), Ok(Expr::Boolean(true)));
}

#[test]
fn fields_are_set_by_name() {
    let mut fields = vec![("a".to_string(), Expr::Number(1))];
    set_field(&mut fields, "b".into(), Expr::Number(2));
    set_field(&mut fields, "a".into(), Expr::Number(3));
    assert_eq!(fields, vec![("a".to_string(), Expr::Number(3)), ("b".to_string(), Expr::Number(2))]);
}

#[test]
fn bytes_in_binary() {
    assert_eq!(u8_slice_to_binary_string(&[]), "");
    assert_eq!(u8_slice_to_binary_string(&[5]), "00000101");
    assert_eq!(u8_slice_to_binary_string(&[0x80, 0xFF, 0x01]), "10000000 11111111 00000001");
}

#[test]
fn the_payload_at_the_end_of_a_file() {
    let mut file = vec![9u8; 10];
    write_bytes(&mut file, &[1, 2, 3]);
    write_bytes(&mut file, &7u32.to_be_bytes());
    assert_eq!(read_u32_from_end_of_bytes(&file), Some(7));
    assert_eq!(payload_at_end(&file), Some(vec![1, 2, 3, 0, 0, 0, 7]));
    assert_eq!(read_n_bytes_from_end_of_bytes(&file, 2), Some(vec![0, 7]));
    assert_eq!(read_n_bytes_from_end_of_bytes(&file, 18), None);
    assert_eq!(read_u32_from_end_of_bytes(&[1, 2, 3]), None);
    assert_eq!(payload_at_end(&[0, 0, 0, 9]), None);
    assert_eq!(payload_at_end(&[0, 0, 0, 4]), Some(vec![0, 0, 0, 4]));
    let mut one = Vec::new();
    write_u8(&mut one, 200);
    assert_eq!(one, vec![200]);
    assert_eq!(chars_of("a\u{e9}"), vec!['a', '\u{e9}']);
}
