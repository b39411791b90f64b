//! What a top-level expression compiles to, read off the token sequence of
//! the source: literals, global variables, unary and binary operators with
//! their precedence and left associativity, grouping and calls.
//!
//! Each function takes `fuel`, a bound on the depth of the reading; where it
//! gives `Some`, the code is what the compiler makes of those tokens, and
//! the compiler reports no error.  `None` says nothing: the tokens may be an
//! error, or a construct these functions do not describe.

use vstd::prelude::*;

use crate::instruction::Instruction;
use crate::parser::{binary_code, literal_code, trim_quotes};
use crate::parserule::rule_for;
use crate::precedence::Precedence;
use crate::scanner::{token_end, token_kind, token_start, token_text};
use crate::token::TokenType;
use crate::value::ConstantModel;

verus! {

/// A token that has been read, and where scanning goes on after it.
pub struct Cursor {
    pub kind: TokenType,
    pub text: Seq<u8>,
    pub pos: int,
}

/// The code and constants made from some tokens, and the token after them.
pub struct Compiled {
    pub code: Seq<Instruction>,
    pub constants: Seq<ConstantModel>,
    pub next: Cursor,
}

/// The token that scanning from `pos` reads; `None` for an error token.
pub open spec fn next_cursor(s: Seq<u8>, pos: int) -> Option<Cursor> {
    let t = token_start(s, pos);
    if 0 <= pos <= s.len() && token_kind(s, t) != TokenType::Error {
        Some(Cursor { kind: token_kind(s, t), text: token_text(s, t), pos: token_end(s, t) })
    } else {
        None
    }
}

/// Nothing made, the current token still `c`.
pub open spec fn nothing_at(c: Cursor) -> Compiled {
    Compiled { code: Seq::empty(), constants: Seq::empty(), next: c }
}

/// `a` followed by `b`.
pub open spec fn joined(a: Compiled, b: Compiled) -> Compiled {
    Compiled { code: a.code + b.code, constants: a.constants + b.constants, next: b.next }
}

/// An expression whose operators bind at least as tightly as `prec`,
/// starting at the current token `c`; `n` constants are already in the chunk.
pub open spec fn expression_at(s: Seq<u8>, c: Cursor, prec: Precedence, n: nat, fuel: nat) -> Option<Compiled>
    decreases fuel,
{
    if fuel == 0 {
        None
    } else {
        let can_assign = prec.spec_le(Precedence::Assignment);
        match next_cursor(s, c.pos) {
            None => None,
            Some(c1) => match prefix_at(s, c.kind, c.text, c1, can_assign, n, (fuel - 1) as nat) {
                None => None,
                Some(r1) => match infix_at(s, r1.next, prec, can_assign, n + r1.constants.len(), (fuel - 1) as nat) {
                    None => None,
                    Some(r2) => Some(joined(r1, r2)),
                },
            },
        }
    }
}

/// What the token of kind `kind` and text `text` makes as the start of an
/// expression; `cur` is the token after it.
pub open spec fn prefix_at(
    s: Seq<u8>,
    kind: TokenType,
    text: Seq<u8>,
    cur: Cursor,
    can_assign: bool,
    n: nat,
    fuel: nat,
) -> Option<Compiled>
    decreases fuel,
{
    if fuel == 0 {
        None
    } else {
        match kind {
            TokenType::Number => if n <= 255 {
                Some(Compiled { code: seq![Instruction::Constant(n as usize)], constants: seq![ConstantModel::Number(text)], next: cur })
            } else {
                None
            },
            TokenType::String => if n <= 255 {
                Some(Compiled {
                    code: seq![Instruction::Constant(n as usize)],
                    constants: seq![ConstantModel::String(trim_quotes(text))],
                    next: cur,
                })
            } else {
                None
            },
            TokenType::False => Some(Compiled { code: literal_code(kind), constants: Seq::empty(), next: cur }),
            TokenType::True => Some(Compiled { code: literal_code(kind), constants: Seq::empty(), next: cur }),
            TokenType::Nil => Some(Compiled { code: literal_code(kind), constants: Seq::empty(), next: cur }),
            TokenType::Identifier => if n <= 255 && text.len() > 0 && !(can_assign && cur.kind == TokenType::Equal) {
                Some(Compiled { code: seq![Instruction::GetGlobal(n as usize)], constants: seq![ConstantModel::String(text)], next: cur })
            } else {
                None
            },
            TokenType::Minus => match expression_at(s, cur, Precedence::Unary, n, (fuel - 1) as nat) {
                Some(r) => Some(Compiled { code: r.code.push(Instruction::Negate), ..r }),
                None => None,
            },
            TokenType::Bang => match expression_at(s, cur, Precedence::Unary, n, (fuel - 1) as nat) {
                Some(r) => Some(Compiled { code: r.code.push(Instruction::Not), ..r }),
                None => None,
            },
            TokenType::LeftParen => match expression_at(s, cur, Precedence::Assignment, n, (fuel - 1) as nat) {
                Some(r) => if r.next.kind == TokenType::RightParen {
                    match next_cursor(s, r.next.pos) {
                        Some(c2) => Some(Compiled { next: c2, ..r }),
                        None => None,
                    }
                } else {
                    None
                },
                None => None,
            },
            _ => None,
        }
    }
}

/// The operators that follow, while they bind at least as tightly as `prec`,
/// starting at the current token `c`.
pub open spec fn infix_at(s: Seq<u8>, c: Cursor, prec: Precedence, can_assign: bool, n: nat, fuel: nat) -> Option<Compiled>
    decreases fuel,
{
    if fuel == 0 {
        None
    } else if !prec.spec_le(rule_for(c.kind).precedence) {
        if can_assign && c.kind == TokenType::Equal {
            None
        } else {
            Some(nothing_at(c))
        }
    } else {
        match next_cursor(s, c.pos) {
            None => None,
            Some(c2) => match operator_at(s, c.kind, c2, n, (fuel - 1) as nat) {
                None => None,
                Some(r1) => match infix_at(s, r1.next, prec, can_assign, n + r1.constants.len(), (fuel - 1) as nat) {
                    None => None,
                    Some(r2) => Some(joined(r1, r2)),
                },
            },
        }
    }
}

/// What the operator of kind `op` makes, with its right operand or
/// arguments starting at the current token `cur`.
pub open spec fn operator_at(s: Seq<u8>, op: TokenType, cur: Cursor, n: nat, fuel: nat) -> Option<Compiled>
    decreases fuel,
{
    if fuel == 0 {
        None
    } else if binary_code(op).len() > 0 {
        match expression_at(s, cur, rule_for(op).precedence.spec_next(), n, (fuel - 1) as nat) {
            Some(r) => Some(Compiled { code: r.code + binary_code(op), ..r }),
            None => None,
        }
    } else if op == TokenType::LeftParen {
        match arguments_at(s, cur, n, (fuel - 1) as nat) {
            Some((r, count)) => Some(Compiled { code: r.code.push(Instruction::Call(count as usize)), ..r }),
            None => None,
        }
    } else {
        None
    }
}

/// The arguments of a call, from the current token `c` through the closing
/// `)`; and how many there are.
pub open spec fn arguments_at(s: Seq<u8>, c: Cursor, n: nat, fuel: nat) -> Option<(Compiled, nat)>
    decreases fuel,
{
    if fuel == 0 {
        None
    } else if c.kind == TokenType::RightParen {
        match next_cursor(s, c.pos) {
            Some(c2) => Some((nothing_at(c2), 0nat)),
            None => None,
        }
    } else {
        match more_arguments_at(s, c, n, 0, (fuel - 1) as nat) {
            Some((r, k)) => if r.next.kind == TokenType::RightParen {
                match next_cursor(s, r.next.pos) {
                    Some(c2) => Some((Compiled { next: c2, ..r }, k)),
                    None => None,
                }
            } else {
                None
            },
            None => None,
        }
    }
}

/// The arguments from the current token `c` up to (not through) the token
/// after the last one, `count` of them already read; and how many there are
/// in all.
pub open spec fn more_arguments_at(s: Seq<u8>, c: Cursor, n: nat, count: nat, fuel: nat) -> Option<(Compiled, nat)>
    decreases fuel,
{
    if fuel == 0 || count >= 255 {
        None
    } else {
        match expression_at(s, c, Precedence::Assignment, n, (fuel - 1) as nat) {
            None => None,
            Some(r) => if r.next.kind == TokenType::Comma {
                match next_cursor(s, r.next.pos) {
                    None => None,
                    Some(c2) => match more_arguments_at(s, c2, n + r.constants.len(), count + 1, (fuel - 1) as nat) {
                        Some((r2, k)) => Some((joined(r, r2), k)),
                        None => None,
                    },
                }
            } else {
                Some((r, count + 1))
            },
        }
    }
}

} // verus!
