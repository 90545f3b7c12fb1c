//! Tokens of the surface language.
//!
//! Identifier and string payloads are UTF-8 bytes. A number literal carries
//! the bit pattern of the IEEE 754 double it denotes, so that verified code
//! can pass it around as a plain 64-bit value.

use vstd::prelude::*;

verus! {

/// A token. Punctuation and keywords carry no payload; literals do.
#[derive(Clone, Debug, PartialEq, Eq)]
pub enum T {
    /// An identifier that is not a keyword; the payload is its text.
    Ident(Vec<u8>),
    /// A string literal; the payload is its contents, without the quotes.
    Str(Vec<u8>),
    /// A number literal, as the bit pattern of an IEEE 754 double.
    Number(u64),
    LParen,
    RParen,
    LBrace,
    RBrace,
    Comma,
    Dot,
    Minus,
    Plus,
    Semicolon,
    Slash,
    Star,
    Bang,
    BangEqual,
    Equal,
    EqualEqual,
    Greater,
    GreaterEqual,
    Less,
    LessEqual,
    And,
    Class,
    Else,
    False,
    Fun,
    For,
    If,
    Nil,
    Or,
    Print,
    Return,
    Super,
    This,
    True,
    Var,
    While,
}

/// The mathematical view of a token: the same shape as `T`, with sequence
/// payloads in place of vectors.
pub enum TokM {
    Ident(Seq<u8>),
    Str(Seq<u8>),
    Number(u64),
    LParen,
    RParen,
    LBrace,
    RBrace,
    Comma,
    Dot,
    Minus,
    Plus,
    Semicolon,
    Slash,
    Star,
    Bang,
    BangEqual,
    Equal,
    EqualEqual,
    Greater,
    GreaterEqual,
    Less,
    LessEqual,
    And,
    Class,
    Else,
    False,
    Fun,
    For,
    If,
    Nil,
    Or,
    Print,
    Return,
    Super,
    This,
    True,
    Var,
    While,
}

impl View for T {
    type V = TokM;

    open spec fn view(&self) -> TokM {
        match self {
            T::Ident(s) => TokM::Ident(s@),
            T::Str(s) => TokM::Str(s@),
            T::Number(b) => TokM::Number(*b),
            T::LParen => TokM::LParen,
            T::RParen => TokM::RParen,
            T::LBrace => TokM::LBrace,
            T::RBrace => TokM::RBrace,
            T::Comma => TokM::Comma,
            T::Dot => TokM::Dot,
            T::Minus => TokM::Minus,
            T::Plus => TokM::Plus,
            T::Semicolon => TokM::Semicolon,
            T::Slash => TokM::Slash,
            T::Star => TokM::Star,
            T::Bang => TokM::Bang,
            T::BangEqual => TokM::BangEqual,
            T::Equal => TokM::Equal,
            T::EqualEqual => TokM::EqualEqual,
            T::Greater => TokM::Greater,
            T::GreaterEqual => TokM::GreaterEqual,
            T::Less => TokM::Less,
            T::LessEqual => TokM::LessEqual,
            T::And => TokM::And,
            T::Class => TokM::Class,
            T::Else => TokM::Else,
            T::False => TokM::False,
            T::Fun => TokM::Fun,
            T::For => TokM::For,
            T::If => TokM::If,
            T::Nil => TokM::Nil,
            T::Or => TokM::Or,
            T::Print => TokM::Print,
            T::Return => TokM::Return,
            T::Super => TokM::Super,
            T::This => TokM::This,
            T::True => TokM::True,
            T::Var => TokM::Var,
            T::While => TokM::While,
        }
    }
}

/// The precedence level of a binary infix operator token, or `None` for any
/// token that is not one. Multiplicative operators bind tightest, equality
/// operators loosest.
pub open spec fn prec_of(t: TokM) -> Option<u8> {
    match t {
        TokM::Star | TokM::Slash => Some(4u8),
        TokM::Minus | TokM::Plus => Some(3u8),
        TokM::Greater | TokM::GreaterEqual | TokM::Less | TokM::LessEqual => Some(2u8),
        TokM::EqualEqual | TokM::BangEqual => Some(1u8),
        _ => None,
    }
}

impl T {
    /// A copy of this token that provably carries the same view.
    pub fn duplicate(&self) -> (r: T)
        ensures
            r@ == self@,
    {
        match self {
            T::Ident(s) => T::Ident(s.clone()),
            T::Str(s) => T::Str(s.clone()),
            T::Number(b) => T::Number(*b),
            T::LParen => T::LParen,
            T::RParen => T::RParen,
            T::LBrace => T::LBrace,
            T::RBrace => T::RBrace,
            T::Comma => T::Comma,
            T::Dot => T::Dot,
            T::Minus => T::Minus,
            T::Plus => T::Plus,
            T::Semicolon => T::Semicolon,
            T::Slash => T::Slash,
            T::Star => T::Star,
            T::Bang => T::Bang,
            T::BangEqual => T::BangEqual,
            T::Equal => T::Equal,
            T::EqualEqual => T::EqualEqual,
            T::Greater => T::Greater,
            T::GreaterEqual => T::GreaterEqual,
            T::Less => T::Less,
            T::LessEqual => T::LessEqual,
            T::And => T::And,
            T::Class => T::Class,
            T::Else => T::Else,
            T::False => T::False,
            T::Fun => T::Fun,
            T::For => T::For,
            T::If => T::If,
            T::Nil => T::Nil,
            T::Or => T::Or,
            T::Print => T::Print,
            T::Return => T::Return,
            T::Super => T::Super,
            T::This => T::This,
            T::True => T::True,
            T::Var => T::Var,
            T::While => T::While,
        }
    }

    /// The precedence level of a binary infix operator token, or `None` for
    /// any token that is not one.
    pub fn precedence(&self) -> (r: Option<u8>)
        ensures
            r == prec_of(self@),
    {
        match self {
            T::Star | T::Slash => Some(4),
            T::Minus | T::Plus => Some(3),
            T::Greater | T::GreaterEqual | T::Less | T::LessEqual => Some(2),
            T::EqualEqual | T::BangEqual => Some(1),
            _ => None,
        }
    }
}

} // verus!
