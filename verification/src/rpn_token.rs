//! The tokens of the pure arithmetic evaluator.

use vstd::prelude::*;
use crate::rational::Rational;

verus! {

/// One token of an arithmetic expression.
#[derive(Clone, Copy, Debug, PartialEq)]
pub enum RpnToken {
    Number(Rational),
    Add,
    Sub,
    Mul,
    Div,
    Pow,
    LParen,
    RParen,
}

impl RpnToken {
    /// Number payloads carry a positive denominator.
    pub open spec fn wf(self) -> bool {
        self matches RpnToken::Number(q) ==> q.wf()
    }

    /// Binding strength: `^` over `*`,`/` over `+`,`-`.
    pub open spec fn spec_precedence(self) -> int {
        match self {
            RpnToken::Pow => 4,
            RpnToken::Mul => 3,
            RpnToken::Div => 3,
            RpnToken::Add => 2,
            RpnToken::Sub => 2,
            _ => 0,
        }
    }

    /// Binding strength of a binary operator token.
    pub fn precedence(&self) -> (r: u8)
        ensures
            r == self.spec_precedence(),
    {
        match self {
            RpnToken::Pow => 4,
            RpnToken::Mul => 3,
            RpnToken::Div => 3,
            RpnToken::Add => 2,
            RpnToken::Sub => 2,
            _ => 0,
        }
    }

    /// Whether this token is a binary arithmetic operator.
    pub fn is_operator(&self) -> (r: bool)
        ensures
            r == (self is Add || self is Sub || self is Mul || self is Div || self is Pow),
    {
        match self {
            RpnToken::Add => true,
            RpnToken::Sub => true,
            RpnToken::Mul => true,
            RpnToken::Div => true,
            RpnToken::Pow => true,
            _ => false,
        }
    }
}

} // verus!
