//! The grammar of the language, as mathematical functions from a run of
//! tokens to the expression that its start spells and the tokens that are
//! left.

use vstd::prelude::*;
use crate::compiler::ast::{ExprView, Operator};
use crate::compiler::bytecode::position;
use crate::compiler::lexer::SpannedView;
use crate::compiler::token::TokenView;

verus! {

/// A run of tokens as the lexer gives them: each a token with its place, or
/// an error of the lexer.
pub type Tokens = Seq<Result<SpannedView, ()>>;

/// Why tokens spell no expression: the message and the place of the error.
pub type Failure = (Seq<char>, (u32, u32));

/// An expression and the tokens after it, or why the tokens spell none and
/// the tokens after the place of the error.
pub type Parsed = (Result<ExprView, Failure>, Tokens);

/// A failure with a message and no place.
pub open spec fn failure(message: Seq<char>) -> Failure {
    (message, (0u32, 0u32))
}

/// The name of a token's kind, as error messages give it.
pub open spec fn spec_token_name(token: TokenView) -> Seq<char> {
    match token {
        TokenView::LeftBrace => "LeftBrace"@,
        TokenView::RightBrace => "RightBrace"@,
        TokenView::LeftBracket => "LeftBracket"@,
        TokenView::RightBracket => "RightBracket"@,
        TokenView::LeftParen => "LeftParen"@,
        TokenView::RightParen => "RightParen"@,
        TokenView::Equal => "Equal"@,
        TokenView::Semicolon => "Semicolon"@,
        TokenView::Comma => "Comma"@,
        TokenView::RightArrow => "RightArrow"@,
        TokenView::EqualRightArrow => "EqualRightArrow"@,
        TokenView::Bar => "Bar"@,
        TokenView::Plus => "Plus"@,
        TokenView::Dash => "Dash"@,
        TokenView::Star => "Star"@,
        TokenView::Slash => "Slash"@,
        TokenView::Percent => "Percent"@,
        TokenView::Pipe => "Pipe"@,
        TokenView::Bind => "Bind"@,
        TokenView::Name(_) => "Name"@,
        TokenView::String(_) => "String"@,
        TokenView::Number(_) => "Number"@,
        TokenView::Let => "Let"@,
        TokenView::In => "In"@,
        TokenView::True => "True"@,
        TokenView::False => "False"@,
        TokenView::NewLine => "NewLine"@,
        TokenView::EndOfFile => "EndOfFile"@,
        TokenView::Sentinel => "Sentinel"@,
    }
}

/// The failure of a table that has something else than a name where a field
/// must start.
pub open spec fn no_field_name(ts: Tokens) -> Failure {
    if ts.len() > 0 {
        match ts[0] {
            Ok((line, token, (start, _))) => (
                "Expect Token::Name, but find "@ + spec_token_name(token),
                (line, start),
            ),
            Err(_) => failure("Unexpect Parser Err"@),
        }
    } else {
        failure("Unexpect Parser Err"@)
    }
}

/// The first token of a run, where the run starts with a token.
pub open spec fn first_token(ts: Tokens) -> Option<TokenView> {
    if ts.len() > 0 {
        match ts[0] {
            Ok((_, token, _)) => Some(token),
            Err(_) => None,
        }
    } else {
        None
    }
}

/// The run without its first token; the empty run stays empty.
pub open spec fn rest_of(ts: Tokens) -> Tokens {
    if ts.len() > 0 {
        ts.drop_first()
    } else {
        ts
    }
}

/// The run without the ends of lines that it starts with.
pub open spec fn spec_skip_new_line(ts: Tokens) -> Tokens
    decreases ts.len(),
{
    if first_token(ts) == Some(TokenView::NewLine) {
        spec_skip_new_line(ts.drop_first())
    } else {
        ts
    }
}

/// How tightly an operator binds the operand before it and the operand after
/// it.
pub open spec fn spec_infix_binding_power(op: Operator) -> (u8, u8) {
    match op {
        Operator::Add | Operator::Sub => (1u8, 2u8),
        Operator::Mul | Operator::Div => (3u8, 4u8),
    }
}

/// The operator that a token stands for between two operands.
pub open spec fn spec_infix_operator(token: Option<TokenView>) -> Option<Operator> {
    match token {
        Some(TokenView::Plus) => Some(Operator::Add),
        Some(TokenView::Dash) => Some(Operator::Sub),
        Some(TokenView::Star) => Some(Operator::Mul),
        Some(TokenView::Slash) => Some(Operator::Div),
        _ => None,
    }
}

/// Whether an expression ends before a token: the end of a line or of the
/// source, a closing parenthesis or bracket, a semicolon, a comma, or `=>`.
pub open spec fn ends_expr(token: Option<TokenView>) -> bool {
    match token {
        Some(TokenView::EndOfFile)
        | Some(TokenView::NewLine)
        | Some(TokenView::RightParen)
        | Some(TokenView::Semicolon)
        | Some(TokenView::Comma)
        | Some(TokenView::RightBracket)
        | Some(TokenView::EqualRightArrow) => true,
        _ => false,
    }
}

/// The fields of a table after a field was set: a name that the table holds
/// gets the new value in its place, a new name comes after the others.
pub open spec fn spec_set_field(
    fields: Seq<(Seq<char>, ExprView)>,
    name: Seq<char>,
    value: ExprView,
) -> Seq<(Seq<char>, ExprView)> {
    let at = position(Seq::new(fields.len(), |i: int| fields[i].0), name, 0);
    if at < fields.len() {
        fields.update(at, (fields[at].0, value))
    } else {
        fields.push((name, value))
    }
}

/// The operators after an operand: each operator that binds at least as
/// tightly as `min_pb` takes the operand after it, and the two operands
/// become one.
pub open spec fn spec_infix(ts: Tokens, lhs: ExprView, min_pb: u8) -> Parsed
    decreases ts.len(), 0nat,
{
    let token = first_token(ts);
    if ends_expr(token) {
        (Ok(lhs), ts)
    } else {
        match spec_infix_operator(token) {
            None => (Err(failure("bad token, expect operator"@)), ts),
            Some(op) => {
                let (l_pb, r_pb) = spec_infix_binding_power(op);
                if l_pb < min_pb {
                    (Ok(lhs), ts)
                } else {
                    let right = spec_expr(ts.drop_first(), r_pb);
                    match right.0 {
                        Err(e) => (Err(e), right.1),
                        Ok(rhs) => if right.1.len() < ts.len() {
                            spec_infix(
                                right.1,
                                ExprView::Binary { op, lhs: Box::new(lhs), rhs: Box::new(rhs) },
                                min_pb,
                            )
                        } else {
                            (Err(failure("bad token, expect operator"@)), right.1)
                        },
                    }
                }
            },
        }
    }
}

/// The names of the parameters of a lambda up to the closing parenthesis,
/// after those in `params`.
pub open spec fn spec_params(ts: Tokens, params: Seq<Seq<char>>) -> (
    Result<Seq<Seq<char>>, Failure>,
    Tokens,
)
    decreases ts.len(),
{
    match first_token(ts) {
        Some(TokenView::Name(name)) => spec_params(ts.drop_first(), params.push(name)),
        Some(TokenView::Comma) => spec_params(ts.drop_first(), params),
        Some(TokenView::RightParen) => (Ok(params), ts.drop_first()),
        _ => (Err(failure("Parse Error: Unexpect token when get params"@)), rest_of(ts)),
    }
}

/// A lambda after its parameters: `=>` and the body.
pub open spec fn spec_function(ts: Tokens, params: Seq<Seq<char>>) -> Parsed
    decreases ts.len(), 2nat,
{
    if first_token(ts) == Some(TokenView::EqualRightArrow) {
        let body = spec_expr(ts.drop_first(), 0);
        match body.0 {
            Err(e) => (Err(e), body.1),
            Ok(expr) => (Ok(ExprView::FunctionDeclare { params, body: Box::new(expr) }), body.1),
        }
    } else {
        (Err(failure("Parse Error: Expect '=>' token"@)), rest_of(ts))
    }
}

/// The arguments of a call after the first, up to the closing parenthesis.
pub open spec fn spec_more_args(ts: Tokens, name: Seq<char>, args: Seq<ExprView>) -> Parsed
    decreases ts.len(), 0nat,
{
    match first_token(ts) {
        Some(TokenView::RightParen) => (Ok(ExprView::FunctionCall { name, args }), ts.drop_first()),
        Some(TokenView::Comma) => {
            let arg = spec_expr(ts.drop_first(), 0);
            match arg.0 {
                Err(e) => (Err(e), arg.1),
                Ok(expr) => if arg.1.len() < ts.len() {
                    spec_more_args(arg.1, name, args.push(expr))
                } else {
                    (Err(failure("Parse Error: Unexpect ',' when get args"@)), arg.1)
                },
            }
        },
        _ => (Err(failure("Parse Error: Unexpect ',' when get args"@)), rest_of(ts)),
    }
}

/// The arguments of a call of `name` up to the closing parenthesis.
pub open spec fn spec_calle(ts: Tokens, name: Seq<char>) -> Parsed
    decreases ts.len(), 6nat,
{
    if first_token(ts) == Some(TokenView::RightParen) {
        (Ok(ExprView::FunctionCall { name, args: Seq::empty() }), ts.drop_first())
    } else {
        let arg = spec_expr(ts, 0);
        match arg.0 {
            Err(e) => (Err(e), arg.1),
            Ok(expr) => if arg.1.len() < ts.len() {
                spec_more_args(arg.1, name, seq![expr])
            } else {
                (Err(failure("Parse Error: Unexpect ',' when get args"@)), arg.1)
            },
        }
    }
}

/// The fields of a table up to its closing brace, after those in `fields`.
pub open spec fn spec_fields(ts: Tokens, fields: Seq<(Seq<char>, ExprView)>) -> Parsed
    decreases ts.len(), 0nat,
{
    match first_token(ts) {
        Some(TokenView::RightBrace) => (Ok(ExprView::Table { fields }), ts.drop_first()),
        Some(TokenView::NewLine) => spec_fields(ts.drop_first(), fields),
        Some(TokenView::Name(name)) => {
            let after_name = ts.drop_first();
            if first_token(after_name) == Some(TokenView::Equal) {
                let value = spec_expr(after_name.drop_first(), 0);
                match value.0 {
                    Err(e) => (Err(e), value.1),
                    Ok(expr) => if first_token(value.1) == Some(TokenView::Semicolon) {
                        if value.1.len() <= ts.len() {
                            spec_fields(value.1.drop_first(), spec_set_field(fields, name, expr))
                        } else {
                            (Err(failure("Expect semicolon"@)), value.1.drop_first())
                        }
                    } else {
                        (Err(failure("Expect semicolon"@)), rest_of(value.1))
                    },
                }
            } else {
                (Err(failure("Expect equal"@)), rest_of(after_name))
            }
        },
        _ => (Err(no_field_name(ts)), rest_of(ts)),
    }
}

/// A table after its opening brace.
pub open spec fn spec_table(ts: Tokens) -> Parsed
    decreases ts.len(), 1nat,
{
    let start = spec_skip_new_line(ts);
    if start.len() <= ts.len() {
        spec_fields(start, Seq::empty())
    } else {
        (Err(failure("Unexpect Parser Err"@)), start)
    }
}

/// The items of a list up to its closing bracket, after those in `items`.
pub open spec fn spec_items(ts: Tokens, items: Seq<ExprView>) -> Parsed
    decreases ts.len(), 6nat,
{
    match first_token(ts) {
        Some(TokenView::RightBracket) => (Ok(ExprView::List { items }), ts.drop_first()),
        Some(TokenView::NewLine) => spec_items(ts.drop_first(), items),
        _ => {
            let item = spec_expr(ts, 0);
            match item.0 {
                Err(e) => (Err(e), item.1),
                Ok(expr) => {
                    let after = spec_skip_new_line(item.1);
                    if after.len() >= ts.len() {
                        (Err(failure("Expect Comma"@)), after)
                    } else if first_token(after) == Some(TokenView::RightBracket) {
                        spec_items(after, items.push(expr))
                    } else if first_token(after) == Some(TokenView::Comma) {
                        spec_items(after.drop_first(), items.push(expr))
                    } else {
                        (Err(failure("Expect Comma"@)), rest_of(after))
                    }
                },
            }
        },
    }
}

/// A list after its opening bracket.
pub open spec fn spec_list(ts: Tokens) -> Parsed
    decreases ts.len(), 7nat,
{
    let start = spec_skip_new_line(ts);
    if start.len() <= ts.len() {
        spec_items(start, Seq::empty())
    } else {
        (Err(failure("Expect Comma"@)), start)
    }
}

/// An operand: a number, a string, `true` or `false`, a variable, a call, a
/// table, a list, a lambda, an expression in parentheses, or a sign before
/// an operand.
pub open spec fn spec_operand(ts: Tokens) -> Parsed
    decreases ts.len(), 4nat,
{
    let rest = rest_of(ts);
    match first_token(ts) {
        Some(TokenView::Number(number)) => (Ok(ExprView::Number(number)), rest),
        Some(TokenView::String(text)) => (Ok(ExprView::LiteralString(text)), rest),
        Some(TokenView::False) => (Ok(ExprView::Boolean(false)), rest),
        Some(TokenView::True) => (Ok(ExprView::Boolean(true)), rest),
        Some(TokenView::LeftParen) => match first_token(rest) {
            Some(TokenView::RightParen) => spec_function(rest.drop_first(), Seq::empty()),
            Some(TokenView::Name(_)) => {
                let params = spec_params(rest, Seq::empty());
                match params.0 {
                    Err(e) => (Err(e), params.1),
                    Ok(names) => if params.1.len() < ts.len() {
                        spec_function(params.1, names)
                    } else {
                        (Err(failure("Parse Error: Expect '=>' token"@)), params.1)
                    },
                }
            },
            _ => {
                let inner = spec_expr(rest, 0);
                match inner.0 {
                    Err(e) => (Err(e), inner.1),
                    Ok(expr) => if first_token(inner.1) == Some(TokenView::RightParen) {
                        (Ok(expr), inner.1.drop_first())
                    } else {
                        (Err(failure("Parse Error: Cannot find Token::RightParen"@)), rest_of(inner.1))
                    },
                }
            },
        },
        Some(TokenView::Plus) => {
            let operand = spec_expr(rest, 9);
            match operand.0 {
                Err(e) => (Err(e), operand.1),
                Ok(expr) => (
                    Ok(ExprView::Unary { op: Operator::Add, rhs: Box::new(expr) }),
                    operand.1,
                ),
            }
        },
        Some(TokenView::Dash) => {
            let operand = spec_expr(rest, 9);
            match operand.0 {
                Err(e) => (Err(e), operand.1),
                Ok(expr) => (
                    Ok(ExprView::Unary { op: Operator::Sub, rhs: Box::new(expr) }),
                    operand.1,
                ),
            }
        },
        Some(TokenView::Name(name)) => if first_token(rest) == Some(TokenView::LeftParen) {
            spec_calle(rest.drop_first(), name)
        } else {
            (Ok(ExprView::Var(name)), rest)
        },
        Some(TokenView::LeftBrace) => spec_table(rest),
        Some(TokenView::LeftBracket) => spec_list(rest),
        _ => (Err(failure("bad token, expect left"@)), rest),
    }
}

/// An expression whose operators all bind at least as tightly as `min_pb`:
/// an operand, and then for each operator that binds tightly enough the
/// operand after it.
pub open spec fn spec_expr(ts: Tokens, min_pb: u8) -> Parsed
    decreases ts.len(), 5nat,
{
    let operand = spec_operand(ts);
    match operand.0 {
        Err(e) => (Err(e), operand.1),
        Ok(lhs) => if operand.1.len() < ts.len() {
            spec_infix(operand.1, lhs, min_pb)
        } else {
            (Err(failure("bad token, expect left"@)), operand.1)
        },
    }
}

/// Whether an arithmetic expression ends before a token: the end of a line
/// or of the source, or a closing parenthesis.
pub open spec fn ends_math(token: Option<TokenView>) -> bool {
    match token {
        Some(TokenView::EndOfFile) | Some(TokenView::NewLine) | Some(TokenView::RightParen) => true,
        _ => false,
    }
}

/// The operators after an operand of an arithmetic expression.
pub open spec fn spec_math_infix(ts: Tokens, lhs: ExprView, min_pb: u8) -> Parsed
    decreases ts.len(), 0nat,
{
    let token = first_token(ts);
    if ends_math(token) {
        (Ok(lhs), ts)
    } else {
        match spec_infix_operator(token) {
            None => (Err(failure("bad token, expect operator"@)), ts),
            Some(op) => {
                let (l_pb, r_pb) = spec_infix_binding_power(op);
                if l_pb < min_pb {
                    (Ok(lhs), ts)
                } else {
                    let right = spec_math(ts.drop_first(), r_pb);
                    match right.0 {
                        Err(e) => (Err(e), right.1),
                        Ok(rhs) => if right.1.len() < ts.len() {
                            spec_math_infix(
                                right.1,
                                ExprView::Binary { op, lhs: Box::new(lhs), rhs: Box::new(rhs) },
                                min_pb,
                            )
                        } else {
                            (Err(failure("bad token, expect operator"@)), right.1)
                        },
                    }
                }
            },
        }
    }
}

/// An operand of an arithmetic expression: a number, a string, `true` or
/// `false`, an arithmetic expression in parentheses, or a sign before an
/// operand.
pub open spec fn spec_math_operand(ts: Tokens) -> Parsed
    decreases ts.len(), 1nat,
{
    let rest = rest_of(ts);
    match first_token(ts) {
        Some(TokenView::Number(number)) => (Ok(ExprView::Number(number)), rest),
        Some(TokenView::String(text)) => (Ok(ExprView::LiteralString(text)), rest),
        Some(TokenView::False) => (Ok(ExprView::Boolean(false)), rest),
        Some(TokenView::True) => (Ok(ExprView::Boolean(true)), rest),
        Some(TokenView::LeftParen) => {
            let inner = spec_math(rest, 0);
            match inner.0 {
                Err(e) => (Err(e), inner.1),
                Ok(expr) => if first_token(inner.1) == Some(TokenView::RightParen) {
                    (Ok(expr), inner.1.drop_first())
                } else {
                    (Err(failure("Parse Error: Cannot find Token::RightParen"@)), rest_of(inner.1))
                },
            }
        },
        Some(TokenView::Plus) => {
            let operand = spec_math(rest, 9);
            match operand.0 {
                Err(e) => (Err(e), operand.1),
                Ok(expr) => (
                    Ok(ExprView::Unary { op: Operator::Add, rhs: Box::new(expr) }),
                    operand.1,
                ),
            }
        },
        Some(TokenView::Dash) => {
            let operand = spec_math(rest, 9);
            match operand.0 {
                Err(e) => (Err(e), operand.1),
                Ok(expr) => (
                    Ok(ExprView::Unary { op: Operator::Sub, rhs: Box::new(expr) }),
                    operand.1,
                ),
            }
        },
        _ => (Err(failure("bad token, expect left"@)), rest),
    }
}

/// An arithmetic expression whose operators all bind at least as tightly as
/// `min_pb`.
pub open spec fn spec_math(ts: Tokens, min_pb: u8) -> Parsed
    decreases ts.len(), 2nat,
{
    let operand = spec_math_operand(ts);
    match operand.0 {
        Err(e) => (Err(e), operand.1),
        Ok(lhs) => if operand.1.len() < ts.len() {
            spec_math_infix(operand.1, lhs, min_pb)
        } else {
            (Err(failure("bad token, expect left"@)), operand.1)
        },
    }
}

/// The expression that a run of tokens spells, after the ends of lines
/// before it.
pub open spec fn spec_parse(ts: Tokens) -> Result<ExprView, Failure> {
    spec_expr(spec_skip_new_line(ts), 0).0
}

} // verus!
