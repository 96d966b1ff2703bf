use vstd::prelude::*;
use crate::vm::utils::str_equal;

verus! {

#[derive(Debug, PartialEq)]
pub enum Token {
    LeftBrace,
    RightBrace,
    LeftBracket,
    RightBracket,
    LeftParen,
    RightParen,
    Equal,
    Semicolon,
    Comma,
    /// `->`
    RightArrow,
    /// `=>`
    EqualRightArrow,
    Bar,
    Plus,
    Dash,
    Star,
    Slash,
    Percent,
    /// `|>`
    Pipe,
    /// `>>=`
    Bind,
    Name(String),
    String(String),
    Number(i32),
    Let,
    In,
    True,
    False,
    NewLine,
    EndOfFile,
    /// Follows the end of the file in the lexer's queue and ends the stream
    /// of tokens.
    Sentinel,
}

/// What a token says, as a mathematical value.
pub enum TokenView {
    LeftBrace,
    RightBrace,
    LeftBracket,
    RightBracket,
    LeftParen,
    RightParen,
    Equal,
    Semicolon,
    Comma,
    RightArrow,
    EqualRightArrow,
    Bar,
    Plus,
    Dash,
    Star,
    Slash,
    Percent,
    Pipe,
    Bind,
    Name(Seq<char>),
    String(Seq<char>),
    Number(i32),
    Let,
    In,
    True,
    False,
    NewLine,
    EndOfFile,
    Sentinel,
}

impl View for Token {
    type V = TokenView;

    open spec fn view(&self) -> TokenView {
        match *self {
            Token::LeftBrace => TokenView::LeftBrace,
            Token::RightBrace => TokenView::RightBrace,
            Token::LeftBracket => TokenView::LeftBracket,
            Token::RightBracket => TokenView::RightBracket,
            Token::LeftParen => TokenView::LeftParen,
            Token::RightParen => TokenView::RightParen,
            Token::Equal => TokenView::Equal,
            Token::Semicolon => TokenView::Semicolon,
            Token::Comma => TokenView::Comma,
            Token::RightArrow => TokenView::RightArrow,
            Token::EqualRightArrow => TokenView::EqualRightArrow,
            Token::Bar => TokenView::Bar,
            Token::Plus => TokenView::Plus,
            Token::Dash => TokenView::Dash,
            Token::Star => TokenView::Star,
            Token::Slash => TokenView::Slash,
            Token::Percent => TokenView::Percent,
            Token::Pipe => TokenView::Pipe,
            Token::Bind => TokenView::Bind,
            Token::Name(name) => TokenView::Name(name@),
            Token::String(text) => TokenView::String(text@),
            Token::Number(number) => TokenView::Number(number),
            Token::Let => TokenView::Let,
            Token::In => TokenView::In,
            Token::True => TokenView::True,
            Token::False => TokenView::False,
            Token::NewLine => TokenView::NewLine,
            Token::EndOfFile => TokenView::EndOfFile,
            Token::Sentinel => TokenView::Sentinel,
        }
    }
}

/// The keyword that a name spells, if it spells one.
pub open spec fn spec_keyword(name: Seq<char>) -> Option<TokenView> {
    if name == "let"@ {
        Some(TokenView::Let)
    } else if name == "in"@ {
        Some(TokenView::In)
    } else if name == "true"@ {
        Some(TokenView::True)
    } else if name == "false"@ {
        Some(TokenView::False)
    } else {
        None
    }
}

impl Token {
    pub fn str_to_keyword(name: &str) -> (r: Option<Token>)
        ensures
            match spec_keyword(name@) {
                Some(keyword) => r matches Some(token) && token@ == keyword,
                None => r is None,
            },
    {
        if str_equal(name, "let") {
            Some(Token::Let)
        } else if str_equal(name, "in") {
            Some(Token::In)
        } else if str_equal(name, "true") {
            Some(Token::True)
        } else if str_equal(name, "false") {
            Some(Token::False)
        } else {
            None
        }
    }

    /// Whether the token can stand before an operand: a plus or a minus sign.
    pub fn is_prefix_token(&self) -> (r: bool)
        ensures
            r == (*self is Plus || *self is Dash),
    {
        match self {
            Token::Plus | Token::Dash => true,
            _ => false,
        }
    }
}

} // verus!
