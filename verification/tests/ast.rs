use angi::compiler::ast::{Expr, Operator};
use angi::compiler::lexer::Lexer;
use angi::compiler::optimization::{calculate_expr, optimization};
use angi::compiler::parser::parse;

fn binary(op: Operator, lhs: Expr, rhs: Expr) -> Expr {
    Expr::Binary { op, lhs: Box::new(lhs), rhs: Box::new(rhs) }
}

#[test]
fn ast_test_1() {
    let mut lex = Lexer::new_from_str("1 + 1\n");
    let expr = parse(&mut lex);
    assert_eq!(
        expr,
        Ok(Expr::Binary {
            op: Operator::Add,
            lhs: Box::new(Expr::Number(1)),
            rhs: Box::new(Expr::Number(1)),
        })
    );
}

#[test]
fn ast_test_2() {
    let mut lex = Lexer::new_from_str("1 + 2\n");
    let expr = parse(&mut lex);
    assert_eq!(
        expr,
        Ok(Expr::Binary {
            op: Operator::Add,
            lhs: Box::new(Expr::Number(1)),
            rhs: Box::new(Expr::Number(2)),
        })
    );
}

#[test]
fn ast_test_3() {
    let mut lex = Lexer::new_from_str("20- 4\n");
    let expr = parse(&mut lex);
    assert_eq!(
        expr,
        Ok(Expr::Binary {
            op: Operator::Sub,
            lhs: Box::new(Expr::Number(20)),
            rhs: Box::new(Expr::Number(4)),
        })
    );
}

#[test]
fn ast_test_4() {
    let mut lex = Lexer::new_from_str("100 *3\n");
    let expr = parse(&mut lex);
    assert_eq!(
        expr,
        Ok(Expr::Binary {
            op: Operator::Mul,
            lhs: Box::new(Expr::Number(100)),
            rhs: Box::new(Expr::Number(3)),
        })
    );
}

#[test]
fn test_ast_test_5() {
    let mut lex = Lexer::new_from_str("1 + 2 * 5\n");
    let expr = parse(&mut lex);
    assert_eq!(
        expr,
        Ok(Expr::Binary {
            op: Operator::Add,
            lhs: Box::new(Expr::Number(1)),
            rhs: Box::new(Expr::Binary {
                op: Operator::Mul,
                lhs: Box::new(Expr::Number(2)),
                rhs: Box::new(Expr::Number(5)),
            }),
        })
    );
}

#[test]
fn test_ast_test_6() {
    let mut lex = Lexer::new_from_str("1 * 2 + 5\n");
    let expr = parse(&mut lex);
    assert_eq!(
        expr,
        Ok(Expr::Binary {
            op: Operator::Add,
            lhs: Box::new(Expr::Binary {
                op: Operator::Mul,
                lhs: Box::new(Expr::Number(1)),
                rhs: Box::new(Expr::Number(2)),
            }),
            rhs: Box::new(Expr::Number(5)),
        })
    );
}

#[test]
fn test_ast_test_7() {
    let mut lex = Lexer::new_from_str("1 + 2 + 5\n");
    let expr = parse(&mut lex);
    assert_eq!(
        expr,
        Ok(Expr::Binary {
            op: Operator::Add,
            lhs: Box::new(Expr::Binary {
                op: Operator::Add,
                lhs: Box::new(Expr::Number(1)),
                rhs: Box::new(Expr::Number(2)),
            }),
            rhs: Box::new(Expr::Number(5)),
        })
    );
}

#[test]
fn test_ast_test_8() {
    let mut lex = Lexer::new_from_str("1 + 2 / 12\n");
    let expr = parse(&mut lex);
    assert_eq!(
        expr,
        Ok(Expr::Binary {
            op: Operator::Add,
            lhs: Box::new(Expr::Number(1)),
            rhs: Box::new(Expr::Binary {
                op: Operator::Div,
                lhs: Box::new(Expr::Number(2)),
                rhs: Box::new(Expr::Number(12)),
            }),
        })
    );
}

#[test]
fn ast_test_plus_two_num() {
    let mut lex = Lexer::new_from_str("100 +300\n");
    let expr = parse(&mut lex);
    assert_eq!(
        expr,
        Ok(Expr::Binary {
            op: Operator::Add,
            lhs: Box::new(Expr::Number(100)),
            rhs: Box::new(Expr::Number(300)),
        })
    );
}

#[test]
fn ast_test_subtract_two_num() {
    let mut lex = Lexer::new_from_str("20- 4\n");
    let expr = parse(&mut lex);
    assert_eq!(
        expr,
        Ok(Expr::Binary {
            op: Operator::Sub,
            lhs: Box::new(Expr::Number(20)),
            rhs: Box::new(Expr::Number(4)),
        })
    );
}

#[test]
fn ast_test_multi_two_num() {
    let mut lex = Lexer::new_from_str("100 *3\n");
    let expr = parse(&mut lex);
    assert_eq!(
        expr,
        Ok(Expr::Binary {
            op: Operator::Mul,
            lhs: Box::new(Expr::Number(100)),
            rhs: Box::new(Expr::Number(3)),
        })
    );
}

#[test]
fn ast_test_divide_two_num() {
    let mut lex = Lexer::new_from_str("20000/ 3\n");
    let expr = parse(&mut lex);
    assert_eq!(
        expr,
        Ok(Expr::Binary {
            op: Operator::Div,
            lhs: Box::new(Expr::Number(20000)),
            rhs: Box::new(Expr::Number(3)),
        })
    );
}

#[test]
fn ast_ast_test_5() {
    let mut lex = Lexer::new_from_str("1 + 2 * 5\n");
    let expr = parse(&mut lex);
    assert_eq!(
        expr,
        Ok(Expr::Binary {
            op: Operator::Add,
            lhs: Box::new(Expr::Number(1)),
            rhs: Box::new(Expr::Binary {
                op: Operator::Mul,
                lhs: Box::new(Expr::Number(2)),
                rhs: Box::new(Expr::Number(5)),
            }),
        })
    );
}

#[test]
fn ast_ast_test_6() {
    let mut lex = Lexer::new_from_str("1 * 2 + 5\n");
    let expr = parse(&mut lex);
    assert_eq!(
        expr,
        Ok(Expr::Binary {
            op: Operator::Add,
            lhs: Box::new(Expr::Binary {
                op: Operator::Mul,
                lhs: Box::new(Expr::Number(1)),
                rhs: Box::new(Expr::Number(2)),
            }),
            rhs: Box::new(Expr::Number(5)),
        })
    );
}

#[test]
fn ast_ast_test_7() {
    let mut lex = Lexer::new_from_str("1 + 2 + 5\n");
    let expr = parse(&mut lex);
    assert_eq!(
        expr,
        Ok(Expr::Binary {
            op: Operator::Add,
            lhs: Box::new(Expr::Binary {
                op: Operator::Add,
                lhs: Box::new(Expr::Number(1)),
                rhs: Box::new(Expr::Number(2)),
            }),
            rhs: Box::new(Expr::Number(5)),
        })
    );
}

#[test]
fn ast_ast_test_8() {
    let mut lex = Lexer::new_from_str("1 + 2 / 12\n");
    let expr = parse(&mut lex);
    assert_eq!(
        expr,
        Ok(Expr::Binary {
            op: Operator::Add,
            lhs: Box::new(Expr::Number(1)),
            rhs: Box::new(Expr::Binary {
                op: Operator::Div,
                lhs: Box::new(Expr::Number(2)),
                rhs: Box::new(Expr::Number(12)),
            }),
        })
    );
}

#[test]
fn ast_test_9() {
    let mut lex = Lexer::new_from_str("3 * (2 + 4)\n");
    let expr = parse(&mut lex);
    assert_eq!(
        expr,
        Ok(Expr::Binary {
            op: Operator::Mul,
            lhs: Box::new(Expr::Number(3)),
            rhs: Box::new(Expr::Binary {
                op: Operator::Add,
                lhs: Box::new(Expr::Number(2)),
                rhs: Box::new(Expr::Number(4)),
            }),
        })
    );
}

#[test]
fn ast_test_10() {
    let mut lex = Lexer::new_from_str("- 100\n");
    let expr = parse(&mut lex);
    assert_eq!(expr, Ok(Expr::Unary { op: Operator::Sub, rhs: Box::new(Expr::Number(100)) }));
}

#[test]
fn ast_test_11() {
    let mut lex = Lexer::new_from_str("- (1 + 3) / 2\n");
    let expr = parse(&mut lex);
    assert_eq!(
        expr,
        Ok(Expr::Binary {
            op: Operator::Div,
            lhs: Box::new(Expr::Unary {
                op: Operator::Sub,
                rhs: Box::new(Expr::Binary {
                    op: Operator::Add,
                    lhs: Box::new(Expr::Number(1)),
                    rhs: Box::new(Expr::Number(3)),
                }),
            }),
            rhs: Box::new(Expr::Number(2)),
        },)
    );
}

#[test]
fn ast_test_12() {
    let mut lex = Lexer::new_from_str(
        r#"



(2 + 4) / 3
"#,
    );
    let expr = parse(&mut lex);
    assert_eq!(
        expr,
        Ok(Expr::Binary {
            op: Operator::Div,
            lhs: Box::new(Expr::Binary {
                op: Operator::Add,
                lhs: Box::new(Expr::Number(2)),
                rhs: Box::new(Expr::Number(4)),
            }),
            rhs: Box::new(Expr::Number(3)),
        })
    );
}

#[test]
fn ast_test_table() {
    let mut lex = Lexer::new_from_str(
        r#"
    {
       name = "Tien";
       age = 10 + 11;
    }
    "#,
    );
    let expr = parse(&mut lex);

    assert_eq!(
        expr,
        Ok(Expr::Table {
            fields: vec![
                (String::from("name"), Expr::LiteralString(String::from("Tien"))),
                (
                    String::from("age"),
                    Expr::Binary {
                        op: Operator::Add,
                        lhs: Box::new(Expr::Number(10)),
                        rhs: Box::new(Expr::Number(11)),
                    }
                ),
            ]
        })
    );
}

fn parse_str(src: &str) -> Result<Expr, angi::compiler::error::ParseError> {
    let mut lex = Lexer::new_from_str(src);
    parse(&mut lex)
}

#[test]
fn a_field_given_twice_keeps_its_place_and_the_later_value() {
    assert_eq!(
        parse_str("{ a = 1; b = 2; a = 3; }"),
        Ok(Expr::Table {
            fields: vec![("a".to_string(), Expr::Number(3)), ("b".to_string(), Expr::Number(2))]
        })
    );
}

#[test]
fn lists_lambdas_and_calls() {
    assert_eq!(
        parse_str("[1, \"a\",\n true]"),
        Ok(Expr::List {
            items: vec![Expr::Number(1), Expr::LiteralString("a".into()), Expr::Boolean(true)]
        })
    );
    assert_eq!(
        parse_str("(a, b) => f(a, 2)"),
        Ok(Expr::FunctionDeclare {
            params: vec!["a".into(), "b".into()],
            body: Box::new(Expr::FunctionCall {
                name: "f".into(),
                args: vec![Expr::Var("a".into()), Expr::Number(2)]
            })
        })
    );
    assert_eq!(
        parse_str("() => g()"),
        Ok(Expr::FunctionDeclare {
            params: vec![],
            body: Box::new(Expr::FunctionCall { name: "g".into(), args: vec![] })
        })
    );
}

#[test]
fn parse_errors_have_their_place() {
    let err = parse_str("{ 1 = 2; }").unwrap_err();
    assert_eq!(err.error, "Expect Token::Name, but find Number");
    assert_eq!(err.location, (1, 3));
    assert_eq!(parse_str("{ a 2; }").unwrap_err().error, "Expect equal");
    assert_eq!(parse_str("{ a = 2\n}").unwrap_err().error, "Expect semicolon");
    assert_eq!(parse_str("{ a = 2 }").unwrap_err().error, "bad token, expect operator");
    assert_eq!(parse_str("[1 2]").unwrap_err().error, "bad token, expect operator");
    assert_eq!(parse_str("").unwrap_err().error, "bad token, expect left");
    assert_eq!(parse_str("(1 + 2").unwrap_err().error, "Parse Error: Cannot find Token::RightParen");
    assert_eq!(parse_str("(a) 1").unwrap_err().error, "Parse Error: Expect '=>' token");
    assert!(parse_str("1.5").is_err());
}

#[test]
fn folding_computes_arithmetic_on_numbers() {
    let mut ast = parse_str("{ a = 1 + 2 * 5; b = { c = (8 - 2) / 4; }; d = [1 + 1]; }").unwrap();
    optimization(&mut ast);
    assert_eq!(
        ast,
        Expr::Table {
            fields: vec![
                ("a".to_string(), Expr::Number(11)),
                (
                    "b".to_string(),
                    Expr::Table { fields: vec![("c".to_string(), Expr::Number(1))] }
                ),
                (
                    "d".to_string(),
                    Expr::List {
                        items: vec![binary(Operator::Add, Expr::Number(1), Expr::Number(1))]
                    }
                ),
            ]
        }
    );
}

#[test]
fn folding_leaves_what_has_no_value() {
    let by_zero = binary(Operator::Div, Expr::Number(1), Expr::Number(0));
    assert_eq!(calculate_expr(&by_zero), None);
    let mut ast = binary(Operator::Div, Expr::Number(1), Expr::Number(0));
    optimization(&mut ast);
    assert_eq!(ast, by_zero);
    let too_large = binary(Operator::Add, Expr::Number(i32::MAX), Expr::Number(1));
    assert_eq!(calculate_expr(&too_large), None);
    let with_var = binary(Operator::Add, Expr::Var("x".into()), Expr::Number(1));
    assert_eq!(calculate_expr(&with_var), None);
    let negative = Expr::Unary { op: Operator::Sub, rhs: Box::new(Expr::Number(5)) };
    assert_eq!(calculate_expr(&negative), Some(-5));
    assert_eq!(
        calculate_expr(&binary(Operator::Div, Expr::Number(-7), Expr::Number(2))),
        Some(-3)
    );
}

#[test]
fn clone_of_an_expression_is_equal() {
    let ast = parse_str("{ a = [1, (x) => x]; b = f(2); }").unwrap();
    assert_eq!(ast.clone(), ast);
}
