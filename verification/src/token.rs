use vstd::prelude::*;
use crate::text::str_eq;

verus! {

/// What a token is, without its text.
#[derive(Clone, Copy, Debug, PartialEq, Eq, Structural)]
pub enum TokenKind {
    Ident,
    Integer,
    Natural,
    Text,
    RelUri,
    HttpUri,
    Sha256,
    Conj1,
    Conj2,
    Alt,
    Lambda,
    Arrow,
    Equals,
    Let,
    In,
    LPar,
    RPar,
    Colon,
    DColon,
    Forall,
    TextConcat,
    ListConcat,
    Plus,
    Div,
    Star,
    Minus,
    LBrace,
    RBrace,
    LBracket,
    RBracket,
    LAngle,
    RAngle,
    Comma,
    Dot,
    Pipe,
    DDQuote,
    DQuote,
    SQuote,
    Questionmark,
    If,
    Then,
    Else,
    TextImbue,
    With,
    Comment,
    Empty,
    Whitespace,
    RawText,
    Merge,
}

/// A piece of the source text and what it is.
#[derive(Debug, Clone, Copy, PartialEq, Eq)]
pub enum Token<'i> {
    Ident(&'i str),
    Integer(&'i str),
    Natural(&'i str),
    Text(&'i str),
    RelUri(&'i str),
    HttpUri(&'i str),
    Sha256(&'i str),
    Conj1(&'i str),
    Conj2(&'i str),
    Alt(&'i str),
    Lambda(&'i str),
    Arrow(&'i str),
    Equals(&'i str),
    Let(&'i str),
    In(&'i str),
    LPar(&'i str),
    RPar(&'i str),
    Colon(&'i str),
    DColon(&'i str),
    Forall(&'i str),
    TextConcat(&'i str),
    ListConcat(&'i str),
    Plus(&'i str),
    Div(&'i str),
    Star(&'i str),
    Minus(&'i str),
    LBrace(&'i str),
    RBrace(&'i str),
    LBracket(&'i str),
    RBracket(&'i str),
    LAngle(&'i str),
    RAngle(&'i str),
    Comma(&'i str),
    Dot(&'i str),
    Pipe(&'i str),
    DDQuote(&'i str),
    DQuote(&'i str),
    SQuote(&'i str),
    Questionmark(&'i str),
    If(&'i str),
    Then(&'i str),
    Else(&'i str),
    TextImbue(&'i str),
    With(&'i str),
    Comment(&'i str),
    Empty(&'i str),
    Whitespace(&'i str),
    RawText(&'i str),
    Merge(&'i str),
}

/// The mathematical value of a token.
pub struct TokenV {
    pub kind: TokenKind,
    pub text: Seq<char>,
}

impl<'i> View for Token<'i> {
    type V = TokenV;

    open spec fn view(&self) -> TokenV {
        match self {
            Token::Ident(s) => TokenV { kind: TokenKind::Ident, text: s@ },
            Token::Integer(s) => TokenV { kind: TokenKind::Integer, text: s@ },
            Token::Natural(s) => TokenV { kind: TokenKind::Natural, text: s@ },
            Token::Text(s) => TokenV { kind: TokenKind::Text, text: s@ },
            Token::RelUri(s) => TokenV { kind: TokenKind::RelUri, text: s@ },
            Token::HttpUri(s) => TokenV { kind: TokenKind::HttpUri, text: s@ },
            Token::Sha256(s) => TokenV { kind: TokenKind::Sha256, text: s@ },
            Token::Conj1(s) => TokenV { kind: TokenKind::Conj1, text: s@ },
            Token::Conj2(s) => TokenV { kind: TokenKind::Conj2, text: s@ },
            Token::Alt(s) => TokenV { kind: TokenKind::Alt, text: s@ },
            Token::Lambda(s) => TokenV { kind: TokenKind::Lambda, text: s@ },
            Token::Arrow(s) => TokenV { kind: TokenKind::Arrow, text: s@ },
            Token::Equals(s) => TokenV { kind: TokenKind::Equals, text: s@ },
            Token::Let(s) => TokenV { kind: TokenKind::Let, text: s@ },
            Token::In(s) => TokenV { kind: TokenKind::In, text: s@ },
            Token::LPar(s) => TokenV { kind: TokenKind::LPar, text: s@ },
            Token::RPar(s) => TokenV { kind: TokenKind::RPar, text: s@ },
            Token::Colon(s) => TokenV { kind: TokenKind::Colon, text: s@ },
            Token::DColon(s) => TokenV { kind: TokenKind::DColon, text: s@ },
            Token::Forall(s) => TokenV { kind: TokenKind::Forall, text: s@ },
            Token::TextConcat(s) => TokenV { kind: TokenKind::TextConcat, text: s@ },
            Token::ListConcat(s) => TokenV { kind: TokenKind::ListConcat, text: s@ },
            Token::Plus(s) => TokenV { kind: TokenKind::Plus, text: s@ },
            Token::Div(s) => TokenV { kind: TokenKind::Div, text: s@ },
            Token::Star(s) => TokenV { kind: TokenKind::Star, text: s@ },
            Token::Minus(s) => TokenV { kind: TokenKind::Minus, text: s@ },
            Token::LBrace(s) => TokenV { kind: TokenKind::LBrace, text: s@ },
            Token::RBrace(s) => TokenV { kind: TokenKind::RBrace, text: s@ },
            Token::LBracket(s) => TokenV { kind: TokenKind::LBracket, text: s@ },
            Token::RBracket(s) => TokenV { kind: TokenKind::RBracket, text: s@ },
            Token::LAngle(s) => TokenV { kind: TokenKind::LAngle, text: s@ },
            Token::RAngle(s) => TokenV { kind: TokenKind::RAngle, text: s@ },
            Token::Comma(s) => TokenV { kind: TokenKind::Comma, text: s@ },
            Token::Dot(s) => TokenV { kind: TokenKind::Dot, text: s@ },
            Token::Pipe(s) => TokenV { kind: TokenKind::Pipe, text: s@ },
            Token::DDQuote(s) => TokenV { kind: TokenKind::DDQuote, text: s@ },
            Token::DQuote(s) => TokenV { kind: TokenKind::DQuote, text: s@ },
            Token::SQuote(s) => TokenV { kind: TokenKind::SQuote, text: s@ },
            Token::Questionmark(s) => TokenV { kind: TokenKind::Questionmark, text: s@ },
            Token::If(s) => TokenV { kind: TokenKind::If, text: s@ },
            Token::Then(s) => TokenV { kind: TokenKind::Then, text: s@ },
            Token::Else(s) => TokenV { kind: TokenKind::Else, text: s@ },
            Token::TextImbue(s) => TokenV { kind: TokenKind::TextImbue, text: s@ },
            Token::With(s) => TokenV { kind: TokenKind::With, text: s@ },
            Token::Comment(s) => TokenV { kind: TokenKind::Comment, text: s@ },
            Token::Empty(s) => TokenV { kind: TokenKind::Empty, text: s@ },
            Token::Whitespace(s) => TokenV { kind: TokenKind::Whitespace, text: s@ },
            Token::RawText(s) => TokenV { kind: TokenKind::RawText, text: s@ },
            Token::Merge(s) => TokenV { kind: TokenKind::Merge, text: s@ },
        }
    }
}

impl<'i> Token<'i> {
    /// The token of the given kind with the given text.
    pub fn of(kind: TokenKind, text: &'i str) -> (t: Self)
        ensures
            t@ == (TokenV { kind, text: text@ }),
    {
        match kind {
            TokenKind::Ident => Token::Ident(text),
            TokenKind::Integer => Token::Integer(text),
            TokenKind::Natural => Token::Natural(text),
            TokenKind::Text => Token::Text(text),
            TokenKind::RelUri => Token::RelUri(text),
            TokenKind::HttpUri => Token::HttpUri(text),
            TokenKind::Sha256 => Token::Sha256(text),
            TokenKind::Conj1 => Token::Conj1(text),
            TokenKind::Conj2 => Token::Conj2(text),
            TokenKind::Alt => Token::Alt(text),
            TokenKind::Lambda => Token::Lambda(text),
            TokenKind::Arrow => Token::Arrow(text),
            TokenKind::Equals => Token::Equals(text),
            TokenKind::Let => Token::Let(text),
            TokenKind::In => Token::In(text),
            TokenKind::LPar => Token::LPar(text),
            TokenKind::RPar => Token::RPar(text),
            TokenKind::Colon => Token::Colon(text),
            TokenKind::DColon => Token::DColon(text),
            TokenKind::Forall => Token::Forall(text),
            TokenKind::TextConcat => Token::TextConcat(text),
            TokenKind::ListConcat => Token::ListConcat(text),
            TokenKind::Plus => Token::Plus(text),
            TokenKind::Div => Token::Div(text),
            TokenKind::Star => Token::Star(text),
            TokenKind::Minus => Token::Minus(text),
            TokenKind::LBrace => Token::LBrace(text),
            TokenKind::RBrace => Token::RBrace(text),
            TokenKind::LBracket => Token::LBracket(text),
            TokenKind::RBracket => Token::RBracket(text),
            TokenKind::LAngle => Token::LAngle(text),
            TokenKind::RAngle => Token::RAngle(text),
            TokenKind::Comma => Token::Comma(text),
            TokenKind::Dot => Token::Dot(text),
            TokenKind::Pipe => Token::Pipe(text),
            TokenKind::DDQuote => Token::DDQuote(text),
            TokenKind::DQuote => Token::DQuote(text),
            TokenKind::SQuote => Token::SQuote(text),
            TokenKind::Questionmark => Token::Questionmark(text),
            TokenKind::If => Token::If(text),
            TokenKind::Then => Token::Then(text),
            TokenKind::Else => Token::Else(text),
            TokenKind::TextImbue => Token::TextImbue(text),
            TokenKind::With => Token::With(text),
            TokenKind::Comment => Token::Comment(text),
            TokenKind::Empty => Token::Empty(text),
            TokenKind::Whitespace => Token::Whitespace(text),
            TokenKind::RawText => Token::RawText(text),
            TokenKind::Merge => Token::Merge(text),
        }
    }

    pub fn kind(&self) -> (k: TokenKind)
        ensures
            k == self@.kind,
    {
        match self {
            Token::Ident(_) => TokenKind::Ident,
            Token::Integer(_) => TokenKind::Integer,
            Token::Natural(_) => TokenKind::Natural,
            Token::Text(_) => TokenKind::Text,
            Token::RelUri(_) => TokenKind::RelUri,
            Token::HttpUri(_) => TokenKind::HttpUri,
            Token::Sha256(_) => TokenKind::Sha256,
            Token::Conj1(_) => TokenKind::Conj1,
            Token::Conj2(_) => TokenKind::Conj2,
            Token::Alt(_) => TokenKind::Alt,
            Token::Lambda(_) => TokenKind::Lambda,
            Token::Arrow(_) => TokenKind::Arrow,
            Token::Equals(_) => TokenKind::Equals,
            Token::Let(_) => TokenKind::Let,
            Token::In(_) => TokenKind::In,
            Token::LPar(_) => TokenKind::LPar,
            Token::RPar(_) => TokenKind::RPar,
            Token::Colon(_) => TokenKind::Colon,
            Token::DColon(_) => TokenKind::DColon,
            Token::Forall(_) => TokenKind::Forall,
            Token::TextConcat(_) => TokenKind::TextConcat,
            Token::ListConcat(_) => TokenKind::ListConcat,
            Token::Plus(_) => TokenKind::Plus,
            Token::Div(_) => TokenKind::Div,
            Token::Star(_) => TokenKind::Star,
            Token::Minus(_) => TokenKind::Minus,
            Token::LBrace(_) => TokenKind::LBrace,
            Token::RBrace(_) => TokenKind::RBrace,
            Token::LBracket(_) => TokenKind::LBracket,
            Token::RBracket(_) => TokenKind::RBracket,
            Token::LAngle(_) => TokenKind::LAngle,
            Token::RAngle(_) => TokenKind::RAngle,
            Token::Comma(_) => TokenKind::Comma,
            Token::Dot(_) => TokenKind::Dot,
            Token::Pipe(_) => TokenKind::Pipe,
            Token::DDQuote(_) => TokenKind::DDQuote,
            Token::DQuote(_) => TokenKind::DQuote,
            Token::SQuote(_) => TokenKind::SQuote,
            Token::Questionmark(_) => TokenKind::Questionmark,
            Token::If(_) => TokenKind::If,
            Token::Then(_) => TokenKind::Then,
            Token::Else(_) => TokenKind::Else,
            Token::TextImbue(_) => TokenKind::TextImbue,
            Token::With(_) => TokenKind::With,
            Token::Comment(_) => TokenKind::Comment,
            Token::Empty(_) => TokenKind::Empty,
            Token::Whitespace(_) => TokenKind::Whitespace,
            Token::RawText(_) => TokenKind::RawText,
            Token::Merge(_) => TokenKind::Merge,
        }
    }

    /// The text of the token.
    pub fn as_str(&self) -> (s: &'i str)
        ensures
            s@ == self@.text,
    {
        match self {
            Token::Ident(s) => s,
            Token::Integer(s) => s,
            Token::Natural(s) => s,
            Token::Text(s) => s,
            Token::RelUri(s) => s,
            Token::HttpUri(s) => s,
            Token::Sha256(s) => s,
            Token::Conj1(s) => s,
            Token::Conj2(s) => s,
            Token::Alt(s) => s,
            Token::Lambda(s) => s,
            Token::Arrow(s) => s,
            Token::Equals(s) => s,
            Token::Let(s) => s,
            Token::In(s) => s,
            Token::LPar(s) => s,
            Token::RPar(s) => s,
            Token::Colon(s) => s,
            Token::DColon(s) => s,
            Token::Forall(s) => s,
            Token::TextConcat(s) => s,
            Token::ListConcat(s) => s,
            Token::Plus(s) => s,
            Token::Div(s) => s,
            Token::Star(s) => s,
            Token::Minus(s) => s,
            Token::LBrace(s) => s,
            Token::RBrace(s) => s,
            Token::LBracket(s) => s,
            Token::RBracket(s) => s,
            Token::LAngle(s) => s,
            Token::RAngle(s) => s,
            Token::Comma(s) => s,
            Token::Dot(s) => s,
            Token::Pipe(s) => s,
            Token::DDQuote(s) => s,
            Token::DQuote(s) => s,
            Token::SQuote(s) => s,
            Token::Questionmark(s) => s,
            Token::If(s) => s,
            Token::Then(s) => s,
            Token::Else(s) => s,
            Token::TextImbue(s) => s,
            Token::With(s) => s,
            Token::Comment(s) => s,
            Token::Empty(s) => s,
            Token::Whitespace(s) => s,
            Token::RawText(s) => s,
            Token::Merge(s) => s,
        }
    }

    /// Whether the token is the identifier `name`.
    pub fn is_ident(&self, name: &str) -> (b: bool)
        ensures
            b == (self@.kind == TokenKind::Ident && self@.text == name@),
    {
        match self {
            Token::Ident(v) => str_eq(v, name),
            _ => false,
        }
    }
}

} // verus!
