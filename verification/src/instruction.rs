//! The bytecode instruction set.

use vstd::prelude::*;

verus! {

/// One bytecode instruction; operands are held inline.
#[derive(Clone, Copy, Debug, PartialEq, Eq, Structural)]
pub enum Instruction {
    /// Push constant number `n` of the chunk.
    Constant(usize),
    Nil,
    True,
    False,
    Pop,
    /// Push the local in slot `n` of the current frame.
    GetLocal(usize),
    /// Store the top of the stack into slot `n` of the current frame.
    SetLocal(usize),
    /// Push the global named by constant `n`.
    GetGlobal(usize),
    /// Define the global named by constant `n` with the popped value.
    DefineGlobal(usize),
    /// Assign the top of the stack to the existing global named by constant `n`.
    SetGlobal(usize),
    Equal,
    Greater,
    Less,
    Add,
    Subtract,
    Multiply,
    Divide,
    Not,
    Negate,
    Print,
    /// Jump forward by `n` instructions.
    Jump(usize),
    /// Jump forward by `n` instructions if the top of the stack is falsey.
    JumpIfFalse(usize),
    /// Jump backward by `n` instructions.
    Loop(usize),
    /// Call the value below the `n` arguments on the stack.
    Call(usize),
    Return,
}

impl Instruction {
    /// Whether this is a forward jump (whose operand `patch_jump` fills in).
    pub open spec fn is_forward_jump(self) -> bool {
        self is Jump || self is JumpIfFalse
    }
}

} // verus!
