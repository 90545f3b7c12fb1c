//! Binary operators of the expression tree.

use vstd::prelude::*;
use crate::span;
use crate::token;

verus! {

/// A failed conversion of a token into a binary operator.
#[derive(Clone, Debug)]
pub enum Error {
    /// The token at the given span is not a binary operator.
    NotBop(span::T, token::T),
}

/// A binary operator of the surface language: ordering, equality, or
/// arithmetic.
#[derive(Copy, Clone, Debug, PartialEq, Eq, Structural, Hash)]
pub enum Bop {
    Gt,
    Ge,
    Le,
    Lt,
    NotEqual,
    Equal,
    Add,
    Sub,
    Mul,
    Div,
}

/// The binary operator a token denotes, if any. Exactly the tokens with a
/// precedence denote an operator.
pub open spec fn bop_of_token(t: token::TokM) -> Option<Bop> {
    match t {
        token::TokM::Greater => Some(Bop::Gt),
        token::TokM::GreaterEqual => Some(Bop::Ge),
        token::TokM::LessEqual => Some(Bop::Le),
        token::TokM::Less => Some(Bop::Lt),
        token::TokM::BangEqual => Some(Bop::NotEqual),
        token::TokM::EqualEqual => Some(Bop::Equal),
        token::TokM::Plus => Some(Bop::Add),
        token::TokM::Minus => Some(Bop::Sub),
        token::TokM::Star => Some(Bop::Mul),
        token::TokM::Slash => Some(Bop::Div),
        _ => None,
    }
}

/// The precedence of a binary operator, matching the precedence of the
/// token that denotes it.
pub open spec fn bop_prec(b: Bop) -> u8 {
    match b {
        Bop::Mul | Bop::Div => 4u8,
        Bop::Add | Bop::Sub => 3u8,
        Bop::Gt | Bop::Ge | Bop::Lt | Bop::Le => 2u8,
        Bop::Equal | Bop::NotEqual => 1u8,
    }
}

impl Bop {
    /// The binary operator that `token` (at `span`) denotes, or an error
    /// carrying the span and the token.
    pub fn of_token(span: span::T, token: &token::T) -> (r: Result<Bop, Error>)
        ensures
            match bop_of_token(token@) {
                Some(b) => r == Ok::<Bop, Error>(b),
                None => {
                    &&& r matches Err(Error::NotBop(sp, t))
                    &&& sp == span
                    &&& t@ == token@
                },
            },
    {
        match token {
            token::T::Greater => Ok(Bop::Gt),
            token::T::GreaterEqual => Ok(Bop::Ge),
            token::T::LessEqual => Ok(Bop::Le),
            token::T::Less => Ok(Bop::Lt),
            token::T::BangEqual => Ok(Bop::NotEqual),
            token::T::EqualEqual => Ok(Bop::Equal),
            token::T::Plus => Ok(Bop::Add),
            token::T::Minus => Ok(Bop::Sub),
            token::T::Star => Ok(Bop::Mul),
            token::T::Slash => Ok(Bop::Div),
            _ => Err(Error::NotBop(span, token.duplicate())),
        }
    }
}

} // verus!
