//! Operator precedence, lowest first.

use vstd::prelude::*;

verus! {

#[derive(Clone, Copy, Debug, PartialEq, Eq, Structural)]
pub enum Precedence {
    /// Binds nothing: the rule of a token that does not continue an expression.
    Lowest,
    /// `=`
    Assignment,
    /// `or`
    Or,
    /// `and`
    And,
    /// `==` `!=`
    Equality,
    /// `<` `>` `<=` `>=`
    Comparison,
    /// `+` `-`
    Term,
    /// `*` `/`
    Factor,
    /// `!` `-`
    Unary,
    /// `.` `()`
    Call,
    Primary,
}

impl Precedence {
    /// The position of a precedence in the order, from 0 for `Lowest` to 10
    /// for `Primary`.
    pub open spec fn spec_rank(self) -> u8 {
        match self {
            Precedence::Lowest => 0,
            Precedence::Assignment => 1,
            Precedence::Or => 2,
            Precedence::And => 3,
            Precedence::Equality => 4,
            Precedence::Comparison => 5,
            Precedence::Term => 6,
            Precedence::Factor => 7,
            Precedence::Unary => 8,
            Precedence::Call => 9,
            Precedence::Primary => 10,
        }
    }

    #[verifier::when_used_as_spec(spec_rank)]
    pub fn rank(self) -> (r: u8)
        ensures
            r == self.spec_rank(),
    {
        match self {
            Precedence::Lowest => 0,
            Precedence::Assignment => 1,
            Precedence::Or => 2,
            Precedence::And => 3,
            Precedence::Equality => 4,
            Precedence::Comparison => 5,
            Precedence::Term => 6,
            Precedence::Factor => 7,
            Precedence::Unary => 8,
            Precedence::Call => 9,
            Precedence::Primary => 10,
        }
    }

    /// Whether `self` binds no tighter than `other` (the derived order).
    pub open spec fn spec_le(self, other: Precedence) -> bool {
        self.spec_rank() <= other.spec_rank()
    }

    pub fn le(self, other: Precedence) -> (b: bool)
        ensures
            b == self.spec_le(other),
    {
        self.rank() <= other.rank()
    }

    /// The next higher precedence; `Primary` wraps around to `Lowest`.
    pub open spec fn spec_next(self) -> Precedence {
        match self {
            Precedence::Lowest => Precedence::Assignment,
            Precedence::Assignment => Precedence::Or,
            Precedence::Or => Precedence::And,
            Precedence::And => Precedence::Equality,
            Precedence::Equality => Precedence::Comparison,
            Precedence::Comparison => Precedence::Term,
            Precedence::Term => Precedence::Factor,
            Precedence::Factor => Precedence::Unary,
            Precedence::Unary => Precedence::Call,
            Precedence::Call => Precedence::Primary,
            Precedence::Primary => Precedence::Lowest,
        }
    }

    /// The next higher precedence; `Primary` wraps around to `Lowest`.
    pub fn next(&self) -> (n: Precedence)
        ensures
            n == self.spec_next(),
            self.spec_rank() < 10 ==> n.spec_rank() == self.spec_rank() + 1,
            self.spec_rank() == 10 ==> n == Precedence::Lowest,
    {
        match self {
            Precedence::Lowest => Precedence::Assignment,
            Precedence::Assignment => Precedence::Or,
            Precedence::Or => Precedence::And,
            Precedence::And => Precedence::Equality,
            Precedence::Equality => Precedence::Comparison,
            Precedence::Comparison => Precedence::Term,
            Precedence::Term => Precedence::Factor,
            Precedence::Factor => Precedence::Unary,
            Precedence::Unary => Precedence::Call,
            Precedence::Call => Precedence::Primary,
            Precedence::Primary => Precedence::Lowest,
        }
    }
}

/// Each precedence has its own rank, so the order is total and antisymmetric.
pub proof fn lemma_rank_injective(a: Precedence, b: Precedence)
    ensures
        a.spec_rank() == b.spec_rank() <==> a == b,
{
}

} // verus!
