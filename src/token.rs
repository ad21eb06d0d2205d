use vstd::prelude::*;

use crate::position::Position;

verus! {

/// The reserved words.
#[derive(Clone, Copy, Debug, PartialEq, Eq, Structural)]
pub enum Keyword {
    As,
}

/// The symbols that stand as tokens of their own.
#[derive(Clone, Copy, Debug, PartialEq, Eq, Structural)]
pub enum Symbol {
    AtSign,
    Period,
    Underscore,
}

/// A token of the source text. Every text it holds is decoded: the doubled quotes of a quoted
/// name or a text literal stand here as one quote.
#[derive(Clone, Debug, PartialEq, Eq)]
pub enum Token {
    Boolean(bool),
    Identifier(String),
    QuotedIdentifier(String),
    Number(String),
    Text(String),
    Keyword(Keyword),
    Symbol(Symbol),
    Indent(String),
    Newline,
}

/// What a token is, with its texts as character sequences.
pub ghost enum TokenV {
    Boolean(bool),
    Identifier(Seq<char>),
    QuotedIdentifier(Seq<char>),
    Number(Seq<char>),
    Text(Seq<char>),
    Keyword(Keyword),
    Symbol(Symbol),
    Indent(Seq<char>),
    Newline,
}

impl View for Token {
    type V = TokenV;

    open spec fn view(&self) -> TokenV {
        match self {
            Token::Boolean(b) => TokenV::Boolean(*b),
            Token::Identifier(s) => TokenV::Identifier(s@),
            Token::QuotedIdentifier(s) => TokenV::QuotedIdentifier(s@),
            Token::Number(s) => TokenV::Number(s@),
            Token::Text(s) => TokenV::Text(s@),
            Token::Keyword(k) => TokenV::Keyword(*k),
            Token::Symbol(y) => TokenV::Symbol(*y),
            Token::Indent(s) => TokenV::Indent(s@),
            Token::Newline => TokenV::Newline,
        }
    }
}

/// A token with the places of its first and its last character.
#[derive(Clone, Debug, PartialEq, Eq)]
pub struct TokenPosition {
    pub token: Token,
    pub start_position: Position,
    pub end_position: Position,
}

pub ghost struct TokenPositionV {
    pub token: TokenV,
    pub start_position: Position,
    pub end_position: Position,
}

impl View for TokenPosition {
    type V = TokenPositionV;

    open spec fn view(&self) -> TokenPositionV {
        TokenPositionV {
            token: self.token@,
            start_position: self.start_position,
            end_position: self.end_position,
        }
    }
}

/// A copy of `t`, with its texts.
pub(crate) fn copy_token(t: &Token) -> (r: Token)
    ensures
        r@ == t@,
{
    match t {
        Token::Boolean(b) => Token::Boolean(*b),
        Token::Identifier(x) => Token::Identifier(x.clone()),
        Token::QuotedIdentifier(x) => Token::QuotedIdentifier(x.clone()),
        Token::Number(x) => Token::Number(x.clone()),
        Token::Text(x) => Token::Text(x.clone()),
        Token::Keyword(k) => Token::Keyword(*k),
        Token::Symbol(y) => Token::Symbol(*y),
        Token::Indent(x) => Token::Indent(x.clone()),
        Token::Newline => Token::Newline,
    }
}

} // verus!
