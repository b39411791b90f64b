//! The table of parse rules: for each token kind, how it starts an
//! expression, how it continues one, and how tightly it binds.

use vstd::prelude::*;

use crate::precedence::Precedence;
use crate::token::TokenType;

verus! {

/// The parsing routines a rule can name.
#[derive(Clone, Copy, Debug, PartialEq, Eq, Structural)]
pub enum ParseFn {
    Grouping,
    Call,
    Unary,
    Binary,
    Variable,
    String,
    Number,
    Literal,
    And,
    Or,
}

#[derive(Clone, Copy, Debug, PartialEq, Eq, Structural)]
pub struct ParseRule {
    pub prefix: Option<ParseFn>,
    pub infix: Option<ParseFn>,
    pub precedence: Precedence,
}

impl ParseRule {
    pub fn new(prefix: Option<ParseFn>, infix: Option<ParseFn>, precedence: Precedence) -> (rule:
        ParseRule)
        ensures
            rule == (ParseRule { prefix, infix, precedence }),
    {
        ParseRule { prefix, infix, precedence }
    }
}

/// The position of a token kind in the rule table.
pub open spec fn spec_kind_index(kind: TokenType) -> int {
    match kind {
        TokenType::LeftParen => 0,
        TokenType::RightParen => 1,
        TokenType::LeftBrace => 2,
        TokenType::RightBrace => 3,
        TokenType::Comma => 4,
        TokenType::Dot => 5,
        TokenType::Minus => 6,
        TokenType::Plus => 7,
        TokenType::Semicolon => 8,
        TokenType::Slash => 9,
        TokenType::Star => 10,
        TokenType::Bang => 11,
        TokenType::BangEqual => 12,
        TokenType::Equal => 13,
        TokenType::EqualEqual => 14,
        TokenType::Greater => 15,
        TokenType::GreaterEqual => 16,
        TokenType::Less => 17,
        TokenType::LessEqual => 18,
        TokenType::Identifier => 19,
        TokenType::String => 20,
        TokenType::Number => 21,
        TokenType::And => 22,
        TokenType::Class => 23,
        TokenType::Else => 24,
        TokenType::False => 25,
        TokenType::For => 26,
        TokenType::Fun => 27,
        TokenType::If => 28,
        TokenType::Nil => 29,
        TokenType::Or => 30,
        TokenType::Print => 31,
        TokenType::Return => 32,
        TokenType::Super => 33,
        TokenType::This => 34,
        TokenType::True => 35,
        TokenType::Var => 36,
        TokenType::While => 37,
        TokenType::Error => 38,
        TokenType::EoF => 39,
    }
}

/// The number of token kinds.
pub const KIND_COUNT: usize = 40;

pub fn kind_index(kind: TokenType) -> (index: usize)
    ensures
        index as int == spec_kind_index(kind),
        index < KIND_COUNT,
{
    match kind {
        TokenType::LeftParen => 0,
        TokenType::RightParen => 1,
        TokenType::LeftBrace => 2,
        TokenType::RightBrace => 3,
        TokenType::Comma => 4,
        TokenType::Dot => 5,
        TokenType::Minus => 6,
        TokenType::Plus => 7,
        TokenType::Semicolon => 8,
        TokenType::Slash => 9,
        TokenType::Star => 10,
        TokenType::Bang => 11,
        TokenType::BangEqual => 12,
        TokenType::Equal => 13,
        TokenType::EqualEqual => 14,
        TokenType::Greater => 15,
        TokenType::GreaterEqual => 16,
        TokenType::Less => 17,
        TokenType::LessEqual => 18,
        TokenType::Identifier => 19,
        TokenType::String => 20,
        TokenType::Number => 21,
        TokenType::And => 22,
        TokenType::Class => 23,
        TokenType::Else => 24,
        TokenType::False => 25,
        TokenType::For => 26,
        TokenType::Fun => 27,
        TokenType::If => 28,
        TokenType::Nil => 29,
        TokenType::Or => 30,
        TokenType::Print => 31,
        TokenType::Return => 32,
        TokenType::Super => 33,
        TokenType::This => 34,
        TokenType::True => 35,
        TokenType::Var => 36,
        TokenType::While => 37,
        TokenType::Error => 38,
        TokenType::EoF => 39,
    }
}

/// The rule for a token kind.
pub open spec fn rule_for(kind: TokenType) -> ParseRule {
    match kind {
        TokenType::LeftParen => ParseRule {
            prefix: Some(ParseFn::Grouping),
            infix: Some(ParseFn::Call),
            precedence: Precedence::Call,
        },
        TokenType::Minus => ParseRule {
            prefix: Some(ParseFn::Unary),
            infix: Some(ParseFn::Binary),
            precedence: Precedence::Term,
        },
        TokenType::Plus => ParseRule {
            prefix: None,
            infix: Some(ParseFn::Binary),
            precedence: Precedence::Term,
        },
        TokenType::Slash => ParseRule {
            prefix: None,
            infix: Some(ParseFn::Binary),
            precedence: Precedence::Factor,
        },
        TokenType::Star => ParseRule {
            prefix: None,
            infix: Some(ParseFn::Binary),
            precedence: Precedence::Factor,
        },
        TokenType::Bang => ParseRule {
            prefix: Some(ParseFn::Unary),
            infix: None,
            precedence: Precedence::Lowest,
        },
        TokenType::BangEqual => ParseRule {
            prefix: None,
            infix: Some(ParseFn::Binary),
            precedence: Precedence::Equality,
        },
        TokenType::EqualEqual => ParseRule {
            prefix: None,
            infix: Some(ParseFn::Binary),
            precedence: Precedence::Equality,
        },
        TokenType::Greater => ParseRule {
            prefix: None,
            infix: Some(ParseFn::Binary),
            precedence: Precedence::Comparison,
        },
        TokenType::GreaterEqual => ParseRule {
            prefix: None,
            infix: Some(ParseFn::Binary),
            precedence: Precedence::Comparison,
        },
        TokenType::Less => ParseRule {
            prefix: None,
            infix: Some(ParseFn::Binary),
            precedence: Precedence::Comparison,
        },
        TokenType::LessEqual => ParseRule {
            prefix: None,
            infix: Some(ParseFn::Binary),
            precedence: Precedence::Comparison,
        },
        TokenType::Identifier => ParseRule {
            prefix: Some(ParseFn::Variable),
            infix: None,
            precedence: Precedence::Lowest,
        },
        TokenType::String => ParseRule {
            prefix: Some(ParseFn::String),
            infix: None,
            precedence: Precedence::Lowest,
        },
        TokenType::Number => ParseRule {
            prefix: Some(ParseFn::Number),
            infix: None,
            precedence: Precedence::Lowest,
        },
        TokenType::False => ParseRule {
            prefix: Some(ParseFn::Literal),
            infix: None,
            precedence: Precedence::Lowest,
        },
        TokenType::Nil => ParseRule {
            prefix: Some(ParseFn::Literal),
            infix: None,
            precedence: Precedence::Lowest,
        },
        TokenType::True => ParseRule {
            prefix: Some(ParseFn::Literal),
            infix: None,
            precedence: Precedence::Lowest,
        },
        TokenType::And => ParseRule {
            prefix: None,
            infix: Some(ParseFn::And),
            precedence: Precedence::And,
        },
        TokenType::Or => ParseRule {
            prefix: None,
            infix: Some(ParseFn::Or),
            precedence: Precedence::Or,
        },
        _ => ParseRule { prefix: None, infix: None, precedence: Precedence::Lowest },
    }
}

/// A rule table holds, for every token kind, that kind's rule.
pub open spec fn is_rule_table(rules: Seq<ParseRule>) -> bool {
    &&& rules.len() == KIND_COUNT
    &&& forall|kind: TokenType| #[trigger] rules[spec_kind_index(kind)] == rule_for(kind)
}

/// Builds the rule table, indexed by `kind_index`.
pub fn build_rules() -> (rules: Vec<ParseRule>)
    ensures
        is_rule_table(rules@),
{
    let mut rules: Vec<ParseRule> = Vec::with_capacity(KIND_COUNT);
    // Literals / grouping.
    rules.push(ParseRule::new(Some(ParseFn::Grouping), Some(ParseFn::Call), Precedence::Call));
    rules.push(ParseRule::new(None, None, Precedence::Lowest));
    rules.push(ParseRule::new(None, None, Precedence::Lowest));
    rules.push(ParseRule::new(None, None, Precedence::Lowest));
    rules.push(ParseRule::new(None, None, Precedence::Lowest));
    rules.push(ParseRule::new(None, None, Precedence::Lowest));
    // Operators.
    rules.push(ParseRule::new(Some(ParseFn::Unary), Some(ParseFn::Binary), Precedence::Term));
    rules.push(ParseRule::new(None, Some(ParseFn::Binary), Precedence::Term));
    rules.push(ParseRule::new(None, None, Precedence::Lowest));
    rules.push(ParseRule::new(None, Some(ParseFn::Binary), Precedence::Factor));
    rules.push(ParseRule::new(None, Some(ParseFn::Binary), Precedence::Factor));
    // Logical / comparison.
    rules.push(ParseRule::new(Some(ParseFn::Unary), None, Precedence::Lowest));
    rules.push(ParseRule::new(None, Some(ParseFn::Binary), Precedence::Equality));
    rules.push(ParseRule::new(None, None, Precedence::Lowest));
    rules.push(ParseRule::new(None, Some(ParseFn::Binary), Precedence::Equality));
    rules.push(ParseRule::new(None, Some(ParseFn::Binary), Precedence::Comparison));
    rules.push(ParseRule::new(None, Some(ParseFn::Binary), Precedence::Comparison));
    rules.push(ParseRule::new(None, Some(ParseFn::Binary), Precedence::Comparison));
    rules.push(ParseRule::new(None, Some(ParseFn::Binary), Precedence::Comparison));
    // Identifiers / literals.
    rules.push(ParseRule::new(Some(ParseFn::Variable), None, Precedence::Lowest));
    rules.push(ParseRule::new(Some(ParseFn::String), None, Precedence::Lowest));
    rules.push(ParseRule::new(Some(ParseFn::Number), None, Precedence::Lowest));
    // Keywords.
    rules.push(ParseRule::new(None, Some(ParseFn::And), Precedence::And));
    rules.push(ParseRule::new(None, None, Precedence::Lowest));
    rules.push(ParseRule::new(None, None, Precedence::Lowest));
    rules.push(ParseRule::new(Some(ParseFn::Literal), None, Precedence::Lowest));
    rules.push(ParseRule::new(None, None, Precedence::Lowest));
    rules.push(ParseRule::new(None, None, Precedence::Lowest));
    rules.push(ParseRule::new(None, None, Precedence::Lowest));
    rules.push(ParseRule::new(Some(ParseFn::Literal), None, Precedence::Lowest));
    rules.push(ParseRule::new(None, Some(ParseFn::Or), Precedence::Or));
    rules.push(ParseRule::new(None, None, Precedence::Lowest));
    rules.push(ParseRule::new(None, None, Precedence::Lowest));
    rules.push(ParseRule::new(None, None, Precedence::Lowest));
    rules.push(ParseRule::new(None, None, Precedence::Lowest));
    rules.push(ParseRule::new(Some(ParseFn::Literal), None, Precedence::Lowest));
    rules.push(ParseRule::new(None, None, Precedence::Lowest));
    rules.push(ParseRule::new(None, None, Precedence::Lowest));
    // Special / error tokens.
    rules.push(ParseRule::new(None, None, Precedence::Lowest));
    rules.push(ParseRule::new(None, None, Precedence::Lowest));
    assert forall|kind: TokenType| #[trigger] rules@[spec_kind_index(kind)] == rule_for(kind) by {
        match kind {
            _ => {},
        }
    }
    rules
}

/// How tightly the binary operators bind, loosest first: `or`, then `and`,
/// then `==` and `!=`, then the comparisons, then `+` and `-`, then `*` and
/// `/`, then a call's `(`.  Operators of one line bind equally tightly, so
/// `a and b or c` reads as `(a and b) or c` and `a - b * c` as `a - (b * c)`.
pub proof fn law_binding_order()
    ensures
        rule_for(TokenType::Or).precedence.spec_rank() < rule_for(TokenType::And).precedence.spec_rank(),
        rule_for(TokenType::And).precedence.spec_rank() < rule_for(TokenType::EqualEqual).precedence.spec_rank(),
        rule_for(TokenType::EqualEqual).precedence.spec_rank() < rule_for(TokenType::Less).precedence.spec_rank(),
        rule_for(TokenType::Less).precedence.spec_rank() < rule_for(TokenType::Plus).precedence.spec_rank(),
        rule_for(TokenType::Plus).precedence.spec_rank() < rule_for(TokenType::Star).precedence.spec_rank(),
        rule_for(TokenType::Star).precedence.spec_rank() < rule_for(TokenType::LeftParen).precedence.spec_rank(),
        rule_for(TokenType::BangEqual).precedence == rule_for(TokenType::EqualEqual).precedence,
        rule_for(TokenType::Greater).precedence == rule_for(TokenType::Less).precedence,
        rule_for(TokenType::GreaterEqual).precedence == rule_for(TokenType::Less).precedence,
        rule_for(TokenType::LessEqual).precedence == rule_for(TokenType::Less).precedence,
        rule_for(TokenType::Minus).precedence == rule_for(TokenType::Plus).precedence,
        rule_for(TokenType::Slash).precedence == rule_for(TokenType::Star).precedence,
        rule_for(TokenType::Or).infix == Some(ParseFn::Or),
        rule_for(TokenType::And).infix == Some(ParseFn::And),
        rule_for(TokenType::Or).precedence.spec_rank() >= 2,
{
}

/// Every token that continues an expression has an infix routine, and no
/// rule binds at `Primary`.
pub proof fn lemma_rules_well_formed(kind: TokenType)
    ensures
        rule_for(kind).precedence != Precedence::Lowest ==> rule_for(kind).infix is Some,
        rule_for(kind).precedence != Precedence::Primary,
        rule_for(TokenType::EoF).prefix is None,
        rule_for(TokenType::EoF).precedence == Precedence::Lowest,
{
}

} // verus!
