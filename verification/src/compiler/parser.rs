//! The parser: it reads the tokens of a source and gives its syntax tree.
//! Arithmetic is parsed by binding power: `*` and `/` bind tighter than `+`
//! and `-`, and a sign before an operand tighter than both.

use vstd::prelude::*;
use crate::compiler::ast::{exprs_view, fields_view, names_view, Expr, ExprView, Operator};
use crate::compiler::bytecode::position;
use crate::compiler::error::ParseError;
use crate::compiler::grammar::{
    failure,
    first_token,
    no_field_name,
    rest_of,
    spec_calle,
    spec_expr,
    spec_fields,
    spec_function,
    spec_infix,
    spec_infix_binding_power,
    spec_infix_operator,
    spec_items,
    spec_list,
    spec_math,
    spec_math_infix,
    spec_math_operand,
    spec_more_args,
    spec_operand,
    spec_params,
    spec_parse,
    spec_set_field,
    spec_skip_new_line,
    spec_table,
    spec_token_name,
    Failure,
    Parsed,
    Tokens,
};
use crate::compiler::lexer::{lemma_tokens_next, result_view, LexResult, Lexer};
use crate::compiler::token::{Token, TokenView};
use crate::vm::utils::str_equal;

verus! {

/// The tokens of a lexer, with one token of lookahead. Once the lexer has
/// ended its stream, the stream stays ended.
pub struct TokenStream {
    lexer: Lexer,
    peeked: Option<LexResult>,
    done: bool,
}

/// What the parser gave: what the expression says, or the message and the
/// place of the error.
pub open spec fn parsed_view(r: Result<Expr, ParseError>) -> Result<ExprView, Failure> {
    match r {
        Ok(expr) => Ok(expr@),
        Err(e) => Err((e.error@, e.location)),
    }
}

impl TokenStream {
    /// Whether the stream's lexer rests between two tokens.
    pub closed spec fn wf(&self) -> bool {
        self.lexer@.rested()
    }

    /// The tokens that the stream has yet to give.
    pub closed spec fn spec_tokens(&self) -> Tokens {
        if self.done {
            Seq::empty()
        } else {
            match self.peeked {
                Some(r) => seq![result_view(r)] + self.lexer@.tokens(),
                None => self.lexer@.tokens(),
            }
        }
    }

    /// What the lexer of the stream holds.
    pub closed spec fn spec_lexer(&self) -> crate::compiler::lexer::LexModel {
        self.lexer@
    }

    /// A stream of the tokens of a lexer.
    pub fn new(lexer: Lexer) -> (r: Self)
        requires
            lexer@.rested(),
        ensures
            r.wf(),
            r.spec_tokens() == lexer@.tokens(),
            r.spec_lexer() == lexer@,
    {
        TokenStream { lexer, peeked: None, done: false }
    }

    /// The lexer of the stream, as the tokens taken so far left it. A token
    /// that was looked at and not taken is lost.
    pub fn into_lexer(self) -> (r: Lexer)
        requires
            self.wf(),
        ensures
            r@.rested(),
            r@ == self.spec_lexer(),
    {
        self.lexer
    }

    /// Looks at the next token without taking it.
    pub fn peek(&mut self) -> (r: Option<&LexResult>)
        requires
            old(self).wf(),
        ensures
            final(self).wf(),
            final(self).spec_tokens() == old(self).spec_tokens(),
            match r {
                Some(result) => old(self).spec_tokens().len() > 0 && result_view(*result) == old(
                    self,
                ).spec_tokens()[0],
                None => old(self).spec_tokens().len() == 0,
            },
    {
        if self.done {
            return None;
        }
        if self.peeked.is_none() {
            proof {
                lemma_tokens_next(self.lexer@);
            }
            match self.lexer.next() {
                Some(result) => {
                    self.peeked = Some(result);
                },
                None => {
                    self.done = true;
                    return None;
                },
            }
        }
        self.peeked.as_ref()
    }

    /// Takes the next token.
    pub fn next(&mut self) -> (r: Option<LexResult>)
        requires
            old(self).wf(),
        ensures
            final(self).wf(),
            final(self).spec_tokens() == rest_of(old(self).spec_tokens()),
            match r {
                Some(result) => old(self).spec_tokens().len() > 0 && result_view(result) == old(
                    self,
                ).spec_tokens()[0],
                None => old(self).spec_tokens().len() == 0,
            },
    {
        if self.done {
            return None;
        }
        if self.peeked.is_some() {
            let r = self.peeked.take();
            assert(self.spec_tokens() =~= old(self).spec_tokens().drop_first());
            return r;
        }
        proof {
            lemma_tokens_next(self.lexer@);
        }
        match self.lexer.next() {
            Some(result) => {
                assert(self.spec_tokens() =~= old(self).spec_tokens().drop_first());
                Some(result)
            },
            None => {
                self.done = true;
                None
            },
        }
    }

    /// Takes the next token, where the stream gives a token.
    fn next_token(&mut self) -> (r: Option<(u32, Token, (u32, u32))>)
        requires
            old(self).wf(),
        ensures
            final(self).wf(),
            final(self).spec_tokens() == rest_of(old(self).spec_tokens()),
            match r {
                Some((line, token, place)) => old(self).spec_tokens().len() > 0 && old(
                    self,
                ).spec_tokens()[0] == Ok::<_, ()>((line, token@, place)),
                None => first_token(old(self).spec_tokens()) is None,
            },
    {
        match self.next() {
            Some(Ok(spanned)) => Some(spanned),
            _ => None,
        }
    }
}

/// The name of a token's kind, for an error message.
fn token_name(token: &Token) -> (r: String)
    ensures
        r@ == spec_token_name(token@),
{
    let name = match token {
        Token::LeftBrace => "LeftBrace",
        Token::RightBrace => "RightBrace",
        Token::LeftBracket => "LeftBracket",
        Token::RightBracket => "RightBracket",
        Token::LeftParen => "LeftParen",
        Token::RightParen => "RightParen",
        Token::Equal => "Equal",
        Token::Semicolon => "Semicolon",
        Token::Comma => "Comma",
        Token::RightArrow => "RightArrow",
        Token::EqualRightArrow => "EqualRightArrow",
        Token::Bar => "Bar",
        Token::Plus => "Plus",
        Token::Dash => "Dash",
        Token::Star => "Star",
        Token::Slash => "Slash",
        Token::Percent => "Percent",
        Token::Pipe => "Pipe",
        Token::Bind => "Bind",
        Token::Name(_) => "Name",
        Token::String(_) => "String",
        Token::Number(_) => "Number",
        Token::Let => "Let",
        Token::In => "In",
        Token::True => "True",
        Token::False => "False",
        Token::NewLine => "NewLine",
        Token::EndOfFile => "EndOfFile",
        Token::Sentinel => "Sentinel",
    };
    String::from_str(name)
}

fn parse_error(message: &str) -> (r: ParseError)
    ensures
        (r.error@, r.location) == failure(message@),
{
    ParseError { error: String::from_str(message), location: (0, 0) }
}

/// How tightly a sign before an operand binds what follows it.
pub fn prefix_binding_power(op: Operator) -> (r: ((), u8))
    ensures
        r.1 == 9,
{
    ((), 9)
}

/// How tightly an operator binds the operand before it and the operand after
/// it: the operand after it is bound the tighter, so that operators of one
/// kind group to the left.
pub fn infix_binding_power(op: Operator) -> (r: (u8, u8))
    ensures
        r == spec_infix_binding_power(op),
{
    match op {
        Operator::Add | Operator::Sub => (1, 2),
        Operator::Mul | Operator::Div => (3, 4),
    }
}

/// What stands next in the stream, as the parser tells tokens apart where it
/// only looks at them.
#[derive(Clone, Copy, PartialEq, Eq, Structural, Debug)]
pub enum Lookahead {
    RightBrace,
    RightBracket,
    LeftParen,
    RightParen,
    NewLine,
    EndOfFile,
    Semicolon,
    Comma,
    EqualRightArrow,
    Plus,
    Dash,
    Star,
    Slash,
    Name,
    /// Any other token, an error of the lexer, or the end of the stream.
    Other,
}

/// The kind of a token that was looked at.
pub open spec fn spec_lookahead(token: Option<TokenView>) -> Lookahead {
    match token {
        Some(TokenView::RightBrace) => Lookahead::RightBrace,
        Some(TokenView::RightBracket) => Lookahead::RightBracket,
        Some(TokenView::LeftParen) => Lookahead::LeftParen,
        Some(TokenView::RightParen) => Lookahead::RightParen,
        Some(TokenView::NewLine) => Lookahead::NewLine,
        Some(TokenView::EndOfFile) => Lookahead::EndOfFile,
        Some(TokenView::Semicolon) => Lookahead::Semicolon,
        Some(TokenView::Comma) => Lookahead::Comma,
        Some(TokenView::EqualRightArrow) => Lookahead::EqualRightArrow,
        Some(TokenView::Plus) => Lookahead::Plus,
        Some(TokenView::Dash) => Lookahead::Dash,
        Some(TokenView::Star) => Lookahead::Star,
        Some(TokenView::Slash) => Lookahead::Slash,
        Some(TokenView::Name(_)) => Lookahead::Name,
        _ => Lookahead::Other,
    }
}

/// Looks at the next token and tells its kind.
pub fn lookahead(lexer: &mut TokenStream) -> (r: Lookahead)
    requires
        old(lexer).wf(),
    ensures
        final(lexer).wf(),
        final(lexer).spec_tokens() == old(lexer).spec_tokens(),
        r == spec_lookahead(first_token(old(lexer).spec_tokens())),
{
    match lexer.peek() {
        Some(Ok((_, token, _))) => match token {
            Token::RightBrace => Lookahead::RightBrace,
            Token::RightBracket => Lookahead::RightBracket,
            Token::LeftParen => Lookahead::LeftParen,
            Token::RightParen => Lookahead::RightParen,
            Token::NewLine => Lookahead::NewLine,
            Token::EndOfFile => Lookahead::EndOfFile,
            Token::Semicolon => Lookahead::Semicolon,
            Token::Comma => Lookahead::Comma,
            Token::EqualRightArrow => Lookahead::EqualRightArrow,
            Token::Plus => Lookahead::Plus,
            Token::Dash => Lookahead::Dash,
            Token::Star => Lookahead::Star,
            Token::Slash => Lookahead::Slash,
            Token::Name(_) => Lookahead::Name,
            _ => Lookahead::Other,
        },
        _ => Lookahead::Other,
    }
}

/// Skipping the ends of lines at the start of a run leaves no more tokens
/// than there were.
pub proof fn lemma_skip_new_line(ts: Tokens)
    ensures
        spec_skip_new_line(ts).len() <= ts.len(),
        first_token(spec_skip_new_line(ts)) != Some(TokenView::NewLine),
    decreases ts.len(),
{
    if first_token(ts) == Some(TokenView::NewLine) {
        lemma_skip_new_line(ts.drop_first());
    }
}

/// Skips the ends of lines that stand next in the stream.
pub fn skip_new_line(lexer: &mut TokenStream)
    requires
        old(lexer).wf(),
    ensures
        final(lexer).wf(),
        final(lexer).spec_tokens() == spec_skip_new_line(old(lexer).spec_tokens()),
        final(lexer).spec_tokens().len() <= old(lexer).spec_tokens().len(),
{
    proof {
        lemma_skip_new_line(lexer.spec_tokens());
    }
    loop
        invariant_except_break
            lexer.wf(),
            spec_skip_new_line(old(lexer).spec_tokens()) == spec_skip_new_line(
                lexer.spec_tokens(),
            ),
        ensures
            lexer.wf(),
            lexer.spec_tokens() == spec_skip_new_line(old(lexer).spec_tokens()),
        decreases lexer.spec_tokens().len(),
    {
        if lookahead(lexer) != Lookahead::NewLine {
            break ;
        }
        let _ = lexer.next();
    }
}

/// Sets a field of a table: a name that the table holds gets the new value
/// in its place, a new name comes after the others.
pub fn set_field(fields: &mut Vec<(String, Expr)>, name: String, value: Expr)
    ensures
        fields_view(final(fields)@) == spec_set_field(fields_view(old(fields)@), name@, value@),
{
    let ghost views = fields_view(fields@);
    let ghost keys = Seq::new(views.len(), |i: int| views[i].0);
    let mut i: usize = 0;
    while i < fields.len()
        invariant
            i <= fields@.len(),
            *fields == *old(fields),
            views == fields_view(fields@),
            keys == Seq::new(views.len(), |i: int| views[i].0),
            position(keys, name@, 0) == position(keys, name@, i as int),
        ensures
            i <= fields@.len(),
            *fields == *old(fields),
            i == position(keys, name@, 0),
        decreases fields@.len() - i,
    {
        assert(keys[i as int] == fields@[i as int].0@);
        if str_equal(fields[i].0.as_str(), name.as_str()) {
            break ;
        }
        i += 1;
    }
    if i < fields.len() {
        let slot = &mut fields[i];
        slot.1 = value;
        assert(fields_view(fields@) =~= views.update(i as int, (views[i as int].0, value@)));
    } else {
        fields.push((name, value));
        assert(fields_view(fields@) =~= views.push((name@, value@)));
    }
}

/// What a table gives once a field's value is parsed.
pub open spec fn finish_field(
    value: Parsed,
    fields: Seq<(Seq<char>, ExprView)>,
    name: Seq<char>,
) -> Parsed {
    match value.0 {
        Err(e) => (Err(e), value.1),
        Ok(expr) => if first_token(value.1) == Some(TokenView::Semicolon) {
            spec_fields(value.1.drop_first(), spec_set_field(fields, name, expr))
        } else {
            (Err(failure("Expect semicolon"@)), rest_of(value.1))
        },
    }
}

/// Parses the fields of a table up to its closing brace; the opening brace
/// was read. Each field is a name, an equals sign, an expression and a
/// semicolon; ends of lines between the fields are skipped. A name that is
/// given twice keeps its place and gets the later value.
pub fn expr_table(lexer: &mut TokenStream) -> (r: Result<Expr, ParseError>)
    requires
        old(lexer).wf(),
    ensures
        final(lexer).wf(),
        (parsed_view(r), final(lexer).spec_tokens()) == spec_table(old(lexer).spec_tokens()),
        final(lexer).spec_tokens().len() <= old(lexer).spec_tokens().len(),
        r is Ok ==> final(lexer).spec_tokens().len() < old(lexer).spec_tokens().len(),
    decreases old(lexer).spec_tokens().len(), 1nat,
{
    let mut attr_set: Vec<(String, Expr)> = Vec::new();
    skip_new_line(lexer);
    let ghost start = lexer.spec_tokens();
    assert(fields_view(attr_set@) =~= Seq::empty());
    loop
        invariant
            lexer.wf(),
            lexer.spec_tokens().len() <= old(lexer).spec_tokens().len(),
            spec_table(old(lexer).spec_tokens()) == spec_fields(
                lexer.spec_tokens(),
                fields_view(attr_set@),
            ),
        decreases lexer.spec_tokens().len(),
    {
        let ghost ts = lexer.spec_tokens();
        let ghost fields = fields_view(attr_set@);
        let ahead = lookahead(lexer);
        if ahead == Lookahead::RightBrace {
            let _ = lexer.next();
            let r = Expr::Table { fields: attr_set };
            assert(r@ == ExprView::Table { fields });
            return Ok(r);
        }
        if ahead == Lookahead::NewLine {
            let _ = lexer.next();
            continue ;
        }
        let name = match lexer.next_token() {
            Some((line_of_code, token, (start_pos, _))) => match token {
                Token::Name(name) => name,
                token => {
                    return Err(
                        ParseError {
                            error: String::from_str("Expect Token::Name, but find ").concat(
                                token_name(&token).as_str(),
                            ),
                            location: (line_of_code, start_pos),
                        },
                    );
                },
            },
            None => {
                return Err(parse_error("Unexpect Parser Err"));
            },
        };
        match lexer.next_token() {
            Some((_, Token::Equal, _)) => {},
            _ => {
                return Err(parse_error("Expect equal"));
            },
        }
        let ghost before_value = lexer.spec_tokens();
        let value = expr_with_bp(lexer, 0);
        assert(spec_fields(ts, fields) == finish_field(
            (parsed_view(value), lexer.spec_tokens()),
            fields,
            name@,
        ));
        let rhs = match value {
            Ok(rhs) => rhs,
            Err(e) => {
                return Err(e);
            },
        };
        match lexer.next_token() {
            Some((_, Token::Semicolon, _)) => {},
            _ => {
                return Err(parse_error("Expect semicolon"));
            },
        }
        set_field(&mut attr_set, name, rhs);
    }
}

/// What a list gives once an item is parsed.
pub open spec fn finish_item(item: Parsed, items: Seq<ExprView>, before: int) -> Parsed {
    match item.0 {
        Err(e) => (Err(e), item.1),
        Ok(expr) => {
            let after = spec_skip_new_line(item.1);
            if after.len() >= before {
                (Err(failure("Expect Comma"@)), after)
            } else if first_token(after) == Some(TokenView::RightBracket) {
                spec_items(after, items.push(expr))
            } else if first_token(after) == Some(TokenView::Comma) {
                spec_items(after.drop_first(), items.push(expr))
            } else {
                (Err(failure("Expect Comma"@)), rest_of(after))
            }
        },
    }
}

/// Parses the items of a list up to its closing bracket; the opening bracket
/// was read. The items are expressions with commas between them; ends of
/// lines between the items are skipped.
pub fn expr_list(lexer: &mut TokenStream) -> (r: Result<Expr, ParseError>)
    requires
        old(lexer).wf(),
    ensures
        final(lexer).wf(),
        (parsed_view(r), final(lexer).spec_tokens()) == spec_list(old(lexer).spec_tokens()),
        final(lexer).spec_tokens().len() <= old(lexer).spec_tokens().len(),
        r is Ok ==> final(lexer).spec_tokens().len() < old(lexer).spec_tokens().len(),
    decreases old(lexer).spec_tokens().len(), 7nat,
{
    let mut items: Vec<Expr> = Vec::new();
    skip_new_line(lexer);
    assert(exprs_view(items@) =~= Seq::empty());
    loop
        invariant
            lexer.wf(),
            lexer.spec_tokens().len() <= old(lexer).spec_tokens().len(),
            spec_list(old(lexer).spec_tokens()) == spec_items(
                lexer.spec_tokens(),
                exprs_view(items@),
            ),
        decreases lexer.spec_tokens().len(),
    {
        let ghost ts = lexer.spec_tokens();
        let ghost views = exprs_view(items@);
        let ahead = lookahead(lexer);
        if ahead == Lookahead::RightBracket {
            let _ = lexer.next();
            let r = Expr::List { items };
            assert(r@ == ExprView::List { items: views });
            return Ok(r);
        }
        if ahead == Lookahead::NewLine {
            let _ = lexer.next();
            continue ;
        }
        let item = expr_with_bp(lexer, 0);
        assert(spec_items(ts, views) == finish_item(
            (parsed_view(item), lexer.spec_tokens()),
            views,
            ts.len() as int,
        ));
        let rhs = match item {
            Ok(rhs) => rhs,
            Err(e) => {
                return Err(e);
            },
        };
        let ghost pushed = views.push(rhs@);
        items.push(rhs);
        assert(exprs_view(items@) =~= pushed);
        skip_new_line(lexer);
        if lookahead(lexer) == Lookahead::RightBracket {
            continue ;
        }
        match lexer.next_token() {
            Some((_, Token::Comma, _)) => {},
            _ => {
                return Err(parse_error("Expect Comma"));
            },
        }
    }
}

/// Parses an operand: a number, a string, `true` or `false`, a variable, a
/// call, a table, a list, a lambda, an expression in parentheses, or a sign
/// before an operand.
#[verifier::rlimit(60)]
pub fn expr_operand(lexer: &mut TokenStream) -> (r: Result<Expr, ParseError>)
    requires
        old(lexer).wf(),
    ensures
        final(lexer).wf(),
        (parsed_view(r), final(lexer).spec_tokens()) == spec_operand(old(lexer).spec_tokens()),
        final(lexer).spec_tokens().len() <= old(lexer).spec_tokens().len(),
        r is Ok ==> final(lexer).spec_tokens().len() < old(lexer).spec_tokens().len(),
    decreases old(lexer).spec_tokens().len(), 4nat,
{
    let ghost ts = lexer.spec_tokens();
    let first = match lexer.next_token() {
        Some((_, token, _)) => token,
        None => {
            return Err(parse_error("bad token, expect left"));
        },
    };
    match first {
        Token::Number(num) => Ok(Expr::Number(num)),
        Token::String(str) => Ok(Expr::LiteralString(str)),
        Token::False => Ok(Expr::Boolean(false)),
        Token::True => Ok(Expr::Boolean(true)),
        Token::LeftParen => {
            let ahead = lookahead(lexer);
            if ahead == Lookahead::RightParen {
                let _ = lexer.next();
                let params: Vec<String> = Vec::new();
                assert(names_view(params@) =~= Seq::empty());
                expr_function(lexer, params)
            } else if ahead == Lookahead::Name {
                let params = match get_params_of_function(lexer) {
                    Ok(params) => params,
                    Err(e) => {
                        return Err(e);
                    },
                };
                expr_function(lexer, params)
            } else {
                let inner = match expr_with_bp(lexer, 0) {
                    Ok(inner) => inner,
                    Err(e) => {
                        return Err(e);
                    },
                };
                match lexer.next_token() {
                    Some((_, Token::RightParen, _)) => Ok(inner),
                    _ => Err(parse_error("Parse Error: Cannot find Token::RightParen")),
                }
            }
        },
        Token::Plus => {
            let ((), r_bp) = prefix_binding_power(Operator::Add);
            match expr_with_bp(lexer, r_bp) {
                Ok(rhs) => Ok(Expr::Unary { op: Operator::Add, rhs: Box::new(rhs) }),
                Err(e) => Err(e),
            }
        },
        Token::Dash => {
            let ((), r_bp) = prefix_binding_power(Operator::Sub);
            match expr_with_bp(lexer, r_bp) {
                Ok(rhs) => Ok(Expr::Unary { op: Operator::Sub, rhs: Box::new(rhs) }),
                Err(e) => Err(e),
            }
        },
        Token::Name(name) => {
            if lookahead(lexer) == Lookahead::LeftParen {
                let _ = lexer.next();
                expr_calle(lexer, name)
            } else {
                Ok(Expr::Var(name))
            }
        },
        Token::LeftBrace => expr_table(lexer),
        Token::LeftBracket => expr_list(lexer),
        _ => Err(parse_error("bad token, expect left")),
    }
}

/// Parses an expression whose operators all bind at least as tightly as
/// `min_pb`: an operand, and then for each operator that binds tightly
/// enough the operand after it.
///
/// The expression ends before the end of a line or of the source, a closing
/// parenthesis or bracket, a semicolon, a comma, or `=>`. Any other token
/// after an operand is an error.
pub fn expr_with_bp(lexer: &mut TokenStream, min_pb: u8) -> (r: Result<Expr, ParseError>)
    requires
        old(lexer).wf(),
    ensures
        final(lexer).wf(),
        (parsed_view(r), final(lexer).spec_tokens()) == spec_expr(
            old(lexer).spec_tokens(),
            min_pb,
        ),
        final(lexer).spec_tokens().len() <= old(lexer).spec_tokens().len(),
        r is Ok ==> final(lexer).spec_tokens().len() < old(lexer).spec_tokens().len(),
    decreases old(lexer).spec_tokens().len(), 5nat,
{
    let mut lhs = match expr_operand(lexer) {
        Ok(lhs) => lhs,
        Err(e) => {
            return Err(e);
        },
    };
    loop
        invariant
            lexer.wf(),
            lexer.spec_tokens().len() < old(lexer).spec_tokens().len(),
            spec_expr(old(lexer).spec_tokens(), min_pb) == spec_infix(
                lexer.spec_tokens(),
                lhs@,
                min_pb,
            ),
        decreases lexer.spec_tokens().len(),
    {
        let ghost ts = lexer.spec_tokens();
        let op = match lookahead(lexer) {
            Lookahead::EndOfFile
            | Lookahead::NewLine
            | Lookahead::RightParen
            | Lookahead::Semicolon
            | Lookahead::Comma
            | Lookahead::RightBracket
            | Lookahead::EqualRightArrow => {
                return Ok(lhs);
            },
            Lookahead::Plus => Operator::Add,
            Lookahead::Dash => Operator::Sub,
            Lookahead::Star => Operator::Mul,
            Lookahead::Slash => Operator::Div,
            _ => {
                return Err(parse_error("bad token, expect operator"));
            },
        };
        assert(spec_infix_operator(first_token(ts)) == Some(op));
        let (l_pb, r_pb) = infix_binding_power(op);
        if l_pb < min_pb {
            return Ok(lhs);
        }
        let _ = lexer.next();
        let rhs = match expr_with_bp(lexer, r_pb) {
            Ok(rhs) => rhs,
            Err(e) => {
                return Err(e);
            },
        };
        let ghost left = lhs@;
        lhs = Expr::Binary { op, lhs: Box::new(lhs), rhs: Box::new(rhs) };
        assert(lhs@ == ExprView::Binary { op, lhs: Box::new(left), rhs: Box::new(rhs@) });
    }
}

/// Reads the names of the parameters of a lambda up to the closing
/// parenthesis; the opening parenthesis was read. Commas between the names
/// are skipped.
pub fn get_params_of_function(lexer: &mut TokenStream) -> (r: Result<Vec<String>, ParseError>)
    requires
        old(lexer).wf(),
    ensures
        final(lexer).wf(),
        final(lexer).spec_tokens() == spec_params(old(lexer).spec_tokens(), Seq::empty()).1,
        match spec_params(old(lexer).spec_tokens(), Seq::empty()).0 {
            Ok(names) => r matches Ok(params) && names_view(params@) == names,
            Err(f) => r matches Err(e) && (e.error@, e.location) == f,
        },
        final(lexer).spec_tokens().len() <= old(lexer).spec_tokens().len(),
{
    let mut params: Vec<String> = Vec::new();
    assert(names_view(params@) =~= Seq::empty());
    loop
        invariant
            lexer.wf(),
            lexer.spec_tokens().len() <= old(lexer).spec_tokens().len(),
            spec_params(old(lexer).spec_tokens(), Seq::empty()) == spec_params(
                lexer.spec_tokens(),
                names_view(params@),
            ),
        decreases lexer.spec_tokens().len(),
    {
        match lexer.next_token() {
            Some((_, token, _)) => match token {
                Token::Name(name) => {
                    let ghost before = names_view(params@);
                    let ghost text = name@;
                    params.push(name);
                    assert(names_view(params@) =~= before.push(text));
                },
                Token::Comma => {},
                Token::RightParen => {
                    return Ok(params);
                },
                _ => {
                    return Err(parse_error("Parse Error: Unexpect token when get params"));
                },
            },
            None => {
                return Err(parse_error("Parse Error: Unexpect token when get params"));
            },
        }
    }
}

/// Parses a lambda after its parameters: `=>` and the body.
pub fn expr_function(lexer: &mut TokenStream, params: Vec<String>) -> (r: Result<
    Expr,
    ParseError,
>)
    requires
        old(lexer).wf(),
    ensures
        final(lexer).wf(),
        (parsed_view(r), final(lexer).spec_tokens()) == spec_function(
            old(lexer).spec_tokens(),
            names_view(params@),
        ),
        final(lexer).spec_tokens().len() <= old(lexer).spec_tokens().len(),
        r is Ok ==> final(lexer).spec_tokens().len() < old(lexer).spec_tokens().len(),
    decreases old(lexer).spec_tokens().len(), 2nat,
{
    match lexer.next_token() {
        Some((_, Token::EqualRightArrow, _)) => {},
        _ => {
            return Err(parse_error("Parse Error: Expect '=>' token"));
        },
    }
    let body = match expr_with_bp(lexer, 0) {
        Ok(body) => body,
        Err(e) => {
            return Err(e);
        },
    };
    Ok(Expr::FunctionDeclare { params, body: Box::new(body) })
}

/// Parses the arguments of a call of `name` up to the closing parenthesis;
/// the opening parenthesis was read. The arguments are expressions with
/// commas between them.
pub fn expr_calle(lexer: &mut TokenStream, name: String) -> (r: Result<Expr, ParseError>)
    requires
        old(lexer).wf(),
    ensures
        final(lexer).wf(),
        (parsed_view(r), final(lexer).spec_tokens()) == spec_calle(
            old(lexer).spec_tokens(),
            name@,
        ),
        final(lexer).spec_tokens().len() <= old(lexer).spec_tokens().len(),
        r is Ok ==> final(lexer).spec_tokens().len() < old(lexer).spec_tokens().len(),
    decreases old(lexer).spec_tokens().len(), 6nat,
{
    let mut args: Vec<Expr> = Vec::new();
    if lookahead(lexer) == Lookahead::RightParen {
        let _ = lexer.next();
        assert(exprs_view(args@) =~= Seq::empty());
        return Ok(Expr::FunctionCall { name, args });
    }
    let arg = match expr_with_bp(lexer, 0) {
        Ok(arg) => arg,
        Err(e) => {
            return Err(e);
        },
    };
    let ghost first = arg@;
    args.push(arg);
    assert(exprs_view(args@) =~= seq![first]);
    loop
        invariant
            lexer.wf(),
            lexer.spec_tokens().len() < old(lexer).spec_tokens().len(),
            spec_calle(old(lexer).spec_tokens(), name@) == spec_more_args(
                lexer.spec_tokens(),
                name@,
                exprs_view(args@),
            ),
        decreases lexer.spec_tokens().len(),
    {
        match lexer.next_token() {
            Some((_, token, _)) => match token {
                Token::RightParen => {
                    return Ok(Expr::FunctionCall { name, args });
                },
                Token::Comma => {},
                _ => {
                    return Err(parse_error("Parse Error: Unexpect ',' when get args"));
                },
            },
            None => {
                return Err(parse_error("Parse Error: Unexpect ',' when get args"));
            },
        }
        let arg = match expr_with_bp(lexer, 0) {
            Ok(arg) => arg,
            Err(e) => {
                return Err(e);
            },
        };
        let ghost before = exprs_view(args@);
        let ghost view = arg@;
        args.push(arg);
        assert(exprs_view(args@) =~= before.push(view));
    }
}

/// Parses the expression that the tokens of a lexer spell, after the ends of
/// lines before it. The lexer is left after the last token that the parser
/// took or looked at.
pub fn parse(lex: &mut Lexer) -> (r: Result<Expr, ParseError>)
    requires
        old(lex)@.rested(),
    ensures
        final(lex)@.rested(),
        parsed_view(r) == spec_parse(old(lex)@.tokens()),
{
    let mut taken = Lexer::new_from_str("");
    std::mem::swap(lex, &mut taken);
    let mut lexer = TokenStream::new(taken);
    skip_new_line(&mut lexer);
    let r = expr_with_bp(&mut lexer, 0);
    *lex = lexer.into_lexer();
    r
}

/// Parses an operand of an arithmetic expression: a number, a string,
/// `true` or `false`, an arithmetic expression in parentheses, or a sign
/// before an operand.
pub fn math_operand(lexer: &mut TokenStream) -> (r: Result<Expr, ParseError>)
    requires
        old(lexer).wf(),
    ensures
        final(lexer).wf(),
        (parsed_view(r), final(lexer).spec_tokens()) == spec_math_operand(
            old(lexer).spec_tokens(),
        ),
        final(lexer).spec_tokens().len() <= old(lexer).spec_tokens().len(),
        r is Ok ==> final(lexer).spec_tokens().len() < old(lexer).spec_tokens().len(),
    decreases old(lexer).spec_tokens().len(), 1nat,
{
    let first = match lexer.next_token() {
        Some((_, token, _)) => token,
        None => {
            return Err(parse_error("bad token, expect left"));
        },
    };
    match first {
        Token::Number(num) => Ok(Expr::Number(num)),
        Token::String(str) => Ok(Expr::LiteralString(str)),
        Token::False => Ok(Expr::Boolean(false)),
        Token::True => Ok(Expr::Boolean(true)),
        Token::LeftParen => {
            let inner = match expr_math_bp(lexer, 0) {
                Ok(inner) => inner,
                Err(e) => {
                    return Err(e);
                },
            };
            match lexer.next_token() {
                Some((_, Token::RightParen, _)) => Ok(inner),
                _ => Err(parse_error("Parse Error: Cannot find Token::RightParen")),
            }
        },
        Token::Plus => {
            let ((), r_bp) = prefix_binding_power(Operator::Add);
            match expr_math_bp(lexer, r_bp) {
                Ok(rhs) => Ok(Expr::Unary { op: Operator::Add, rhs: Box::new(rhs) }),
                Err(e) => Err(e),
            }
        },
        Token::Dash => {
            let ((), r_bp) = prefix_binding_power(Operator::Sub);
            match expr_math_bp(lexer, r_bp) {
                Ok(rhs) => Ok(Expr::Unary { op: Operator::Sub, rhs: Box::new(rhs) }),
                Err(e) => Err(e),
            }
        },
        _ => Err(parse_error("bad token, expect left")),
    }
}

/// Parses an arithmetic expression whose operators all bind at least as
/// tightly as `min_pb`: the operands are numbers, strings, `true` and
/// `false`, expressions in parentheses, and signs before operands. The
/// expression ends before the end of a line or of the source, or a closing
/// parenthesis.
pub fn expr_math_bp(lexer: &mut TokenStream, min_pb: u8) -> (r: Result<Expr, ParseError>)
    requires
        old(lexer).wf(),
    ensures
        final(lexer).wf(),
        (parsed_view(r), final(lexer).spec_tokens()) == spec_math(
            old(lexer).spec_tokens(),
            min_pb,
        ),
        final(lexer).spec_tokens().len() <= old(lexer).spec_tokens().len(),
        r is Ok ==> final(lexer).spec_tokens().len() < old(lexer).spec_tokens().len(),
    decreases old(lexer).spec_tokens().len(), 2nat,
{
    let mut lhs = match math_operand(lexer) {
        Ok(lhs) => lhs,
        Err(e) => {
            return Err(e);
        },
    };
    loop
        invariant
            lexer.wf(),
            lexer.spec_tokens().len() < old(lexer).spec_tokens().len(),
            spec_math(old(lexer).spec_tokens(), min_pb) == spec_math_infix(
                lexer.spec_tokens(),
                lhs@,
                min_pb,
            ),
        decreases lexer.spec_tokens().len(),
    {
        let ghost ts = lexer.spec_tokens();
        let op = match lookahead(lexer) {
            Lookahead::EndOfFile | Lookahead::NewLine | Lookahead::RightParen => {
                return Ok(lhs);
            },
            Lookahead::Plus => Operator::Add,
            Lookahead::Dash => Operator::Sub,
            Lookahead::Star => Operator::Mul,
            Lookahead::Slash => Operator::Div,
            _ => {
                return Err(parse_error("bad token, expect operator"));
            },
        };
        assert(spec_infix_operator(first_token(ts)) == Some(op));
        let (l_pb, r_pb) = infix_binding_power(op);
        if l_pb < min_pb {
            return Ok(lhs);
        }
        let _ = lexer.next();
        let rhs = match expr_math_bp(lexer, r_pb) {
            Ok(rhs) => rhs,
            Err(e) => {
                return Err(e);
            },
        };
        let ghost left = lhs@;
        lhs = Expr::Binary { op, lhs: Box::new(lhs), rhs: Box::new(rhs) };
        assert(lhs@ == ExprView::Binary { op, lhs: Box::new(left), rhs: Box::new(rhs@) });
    }
}

} // verus!
