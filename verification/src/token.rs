//! The tokens that the lexer produces.
use vstd::prelude::*;
use crate::ast::TypeKind;

verus! {

/// The kind of a token. A floating-point literal is kept as the text it was
/// written with.
#[allow(non_camel_case_types)]
#[derive(Debug)]
pub enum TokenKind {
    Identifier(String),
    TyKd(TypeKind),
    Number(i64),
    Float(String),
    String(String),
    Bool(bool),
    TypeL,
    TypeM,
    Void,
    Mehen,
    Return,
    Urso,
    Mod,
    elsnt,
    ifnt,
    As,
    Valt,
    Func,
    Strct,
    Priv,
    Pub,
    Impl,
    Semi,
    Star,
    Clam,
    And,
    Colon,
    Minus,
    Plus,
    Div,
    Perc,
    Lt,
    Gt,
    Equal,
    DEqual,
    LParen,
    RParen,
    LBrace,
    RBrace,
    LBracket,
    RBracket,
    Comma,
    Dot,
    EOF,
}

/// The mathematical value of a token kind: texts are character sequences.
#[allow(non_camel_case_types)]
pub enum Tok {
    Identifier(Seq<char>),
    TyKd(TypeKind),
    Number(i64),
    Float(Seq<char>),
    Text(Seq<char>),
    Bool(bool),
    TypeL,
    TypeM,
    Void,
    Mehen,
    Return,
    Urso,
    Mod,
    elsnt,
    ifnt,
    As,
    Valt,
    Func,
    Strct,
    Priv,
    Pub,
    Impl,
    Semi,
    Star,
    Clam,
    And,
    Colon,
    Minus,
    Plus,
    Div,
    Perc,
    Lt,
    Gt,
    Equal,
    DEqual,
    LParen,
    RParen,
    LBrace,
    RBrace,
    LBracket,
    RBracket,
    Comma,
    Dot,
    EOF,
}

impl View for TokenKind {
    type V = Tok;

    open spec fn view(&self) -> Tok {
        match self {
            TokenKind::Identifier(s) => Tok::Identifier(s@),
            TokenKind::TyKd(k) => Tok::TyKd(*k),
            TokenKind::Number(n) => Tok::Number(*n),
            TokenKind::Float(s) => Tok::Float(s@),
            TokenKind::String(s) => Tok::Text(s@),
            TokenKind::Bool(b) => Tok::Bool(*b),
            TokenKind::TypeL => Tok::TypeL,
            TokenKind::TypeM => Tok::TypeM,
            TokenKind::Void => Tok::Void,
            TokenKind::Mehen => Tok::Mehen,
            TokenKind::Return => Tok::Return,
            TokenKind::Urso => Tok::Urso,
            TokenKind::Mod => Tok::Mod,
            TokenKind::elsnt => Tok::elsnt,
            TokenKind::ifnt => Tok::ifnt,
            TokenKind::As => Tok::As,
            TokenKind::Valt => Tok::Valt,
            TokenKind::Func => Tok::Func,
            TokenKind::Strct => Tok::Strct,
            TokenKind::Priv => Tok::Priv,
            TokenKind::Pub => Tok::Pub,
            TokenKind::Impl => Tok::Impl,
            TokenKind::Semi => Tok::Semi,
            TokenKind::Star => Tok::Star,
            TokenKind::Clam => Tok::Clam,
            TokenKind::And => Tok::And,
            TokenKind::Colon => Tok::Colon,
            TokenKind::Minus => Tok::Minus,
            TokenKind::Plus => Tok::Plus,
            TokenKind::Div => Tok::Div,
            TokenKind::Perc => Tok::Perc,
            TokenKind::Lt => Tok::Lt,
            TokenKind::Gt => Tok::Gt,
            TokenKind::Equal => Tok::Equal,
            TokenKind::DEqual => Tok::DEqual,
            TokenKind::LParen => Tok::LParen,
            TokenKind::RParen => Tok::RParen,
            TokenKind::LBrace => Tok::LBrace,
            TokenKind::RBrace => Tok::RBrace,
            TokenKind::LBracket => Tok::LBracket,
            TokenKind::RBracket => Tok::RBracket,
            TokenKind::Comma => Tok::Comma,
            TokenKind::Dot => Tok::Dot,
            TokenKind::EOF => Tok::EOF,
        }
    }
}

impl TokenKind {
    /// A copy of this token kind.
    pub fn duplicate(&self) -> (r: TokenKind)
        ensures
            r@ == self@,
    {
        match self {
            TokenKind::Identifier(s) => TokenKind::Identifier(s.clone()),
            TokenKind::TyKd(k) => TokenKind::TyKd(*k),
            TokenKind::Number(n) => TokenKind::Number(*n),
            TokenKind::Float(s) => TokenKind::Float(s.clone()),
            TokenKind::String(s) => TokenKind::String(s.clone()),
            TokenKind::Bool(b) => TokenKind::Bool(*b),
            TokenKind::TypeL => TokenKind::TypeL,
            TokenKind::TypeM => TokenKind::TypeM,
            TokenKind::Void => TokenKind::Void,
            TokenKind::Mehen => TokenKind::Mehen,
            TokenKind::Return => TokenKind::Return,
            TokenKind::Urso => TokenKind::Urso,
            TokenKind::Mod => TokenKind::Mod,
            TokenKind::elsnt => TokenKind::elsnt,
            TokenKind::ifnt => TokenKind::ifnt,
            TokenKind::As => TokenKind::As,
            TokenKind::Valt => TokenKind::Valt,
            TokenKind::Func => TokenKind::Func,
            TokenKind::Strct => TokenKind::Strct,
            TokenKind::Priv => TokenKind::Priv,
            TokenKind::Pub => TokenKind::Pub,
            TokenKind::Impl => TokenKind::Impl,
            TokenKind::Semi => TokenKind::Semi,
            TokenKind::Star => TokenKind::Star,
            TokenKind::Clam => TokenKind::Clam,
            TokenKind::And => TokenKind::And,
            TokenKind::Colon => TokenKind::Colon,
            TokenKind::Minus => TokenKind::Minus,
            TokenKind::Plus => TokenKind::Plus,
            TokenKind::Div => TokenKind::Div,
            TokenKind::Perc => TokenKind::Perc,
            TokenKind::Lt => TokenKind::Lt,
            TokenKind::Gt => TokenKind::Gt,
            TokenKind::Equal => TokenKind::Equal,
            TokenKind::DEqual => TokenKind::DEqual,
            TokenKind::LParen => TokenKind::LParen,
            TokenKind::RParen => TokenKind::RParen,
            TokenKind::LBrace => TokenKind::LBrace,
            TokenKind::RBrace => TokenKind::RBrace,
            TokenKind::LBracket => TokenKind::LBracket,
            TokenKind::RBracket => TokenKind::RBracket,
            TokenKind::Comma => TokenKind::Comma,
            TokenKind::Dot => TokenKind::Dot,
            TokenKind::EOF => TokenKind::EOF,
        }
    }
}

/// A token and the position (line and column, from 1) where it starts.
#[derive(Debug)]
pub struct Token {
    pub kind: TokenKind,
    pub line: usize,
    pub col: usize,
}

impl Token {
    /// A copy of this token.
    pub fn duplicate(&self) -> (r: Token)
        ensures
            r.kind@ == self.kind@,
            r.line == self.line,
            r.col == self.col,
    {
        Token { kind: self.kind.duplicate(), line: self.line, col: self.col }
    }
}

} // verus!

verus! {

/// The variant of a token kind, as a number: two kinds have the same variant
/// exactly when their numbers agree (payloads are not compared).
pub open spec fn tok_tag(t: Tok) -> u8 {
    match t {
        Tok::Identifier(..) => 0,
        Tok::TyKd(..) => 1,
        Tok::Number(..) => 2,
        Tok::Float(..) => 3,
        Tok::Text(..) => 4,
        Tok::Bool(..) => 5,
        Tok::TypeL => 6,
        Tok::TypeM => 7,
        Tok::Void => 8,
        Tok::Mehen => 9,
        Tok::Return => 10,
        Tok::Urso => 11,
        Tok::Mod => 12,
        Tok::elsnt => 13,
        Tok::ifnt => 14,
        Tok::As => 15,
        Tok::Valt => 16,
        Tok::Func => 17,
        Tok::Strct => 18,
        Tok::Priv => 19,
        Tok::Pub => 20,
        Tok::Impl => 21,
        Tok::Semi => 22,
        Tok::Star => 23,
        Tok::Clam => 24,
        Tok::And => 25,
        Tok::Colon => 26,
        Tok::Minus => 27,
        Tok::Plus => 28,
        Tok::Div => 29,
        Tok::Perc => 30,
        Tok::Lt => 31,
        Tok::Gt => 32,
        Tok::Equal => 33,
        Tok::DEqual => 34,
        Tok::LParen => 35,
        Tok::RParen => 36,
        Tok::LBrace => 37,
        Tok::RBrace => 38,
        Tok::LBracket => 39,
        Tok::RBracket => 40,
        Tok::Comma => 41,
        Tok::Dot => 42,
        Tok::EOF => 43,
    }
}

/// The number of the variant of `k` (see `tok_tag`).
pub fn tag(k: &TokenKind) -> (r: u8)
    ensures
        r == tok_tag(k@),
{
    match k {
        TokenKind::Identifier(..) => 0,
        TokenKind::TyKd(..) => 1,
        TokenKind::Number(..) => 2,
        TokenKind::Float(..) => 3,
        TokenKind::String(..) => 4,
        TokenKind::Bool(..) => 5,
        TokenKind::TypeL => 6,
        TokenKind::TypeM => 7,
        TokenKind::Void => 8,
        TokenKind::Mehen => 9,
        TokenKind::Return => 10,
        TokenKind::Urso => 11,
        TokenKind::Mod => 12,
        TokenKind::elsnt => 13,
        TokenKind::ifnt => 14,
        TokenKind::As => 15,
        TokenKind::Valt => 16,
        TokenKind::Func => 17,
        TokenKind::Strct => 18,
        TokenKind::Priv => 19,
        TokenKind::Pub => 20,
        TokenKind::Impl => 21,
        TokenKind::Semi => 22,
        TokenKind::Star => 23,
        TokenKind::Clam => 24,
        TokenKind::And => 25,
        TokenKind::Colon => 26,
        TokenKind::Minus => 27,
        TokenKind::Plus => 28,
        TokenKind::Div => 29,
        TokenKind::Perc => 30,
        TokenKind::Lt => 31,
        TokenKind::Gt => 32,
        TokenKind::Equal => 33,
        TokenKind::DEqual => 34,
        TokenKind::LParen => 35,
        TokenKind::RParen => 36,
        TokenKind::LBrace => 37,
        TokenKind::RBrace => 38,
        TokenKind::LBracket => 39,
        TokenKind::RBracket => 40,
        TokenKind::Comma => 41,
        TokenKind::Dot => 42,
        TokenKind::EOF => 43,
    }
}

} // verus!
