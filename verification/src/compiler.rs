//! The per-function state of the compiler: the function being built, its
//! local variables and its block depth.

use vstd::prelude::*;

use crate::token::Token;
use crate::value::{Function, FunctionType};
use crate::scanner::bytes_equal;

verus! {

/// The most locals a function can have (slot 0 included).
pub const LOCAL_MAX: usize = 256;

/// A local variable: its name and the block depth it was declared at, or -1
/// while its initializer is being compiled.
pub struct Local {
    pub name: Token,
    pub depth: i32,
}

impl Local {
    pub fn new(name: Token, depth: i32) -> (local: Local)
        ensures
            local.name == name,
            local.depth == depth,
    {
        Local { name, depth }
    }
}

/// The state of one function under compilation; `enclosing` is the function
/// it is nested in.
pub struct Compiler {
    pub enclosing: Option<Box<Compiler>>,
    pub function: Function,
    pub function_type: FunctionType,
    pub locals: Vec<Local>,
    pub scope_depth: i32,
}

/// How many locals named `name` lie in the innermost block, scanning
/// `locals[..n]` from the end and stopping at the first local that belongs
/// to an outer block.
pub open spec fn same_scope_count(locals: Seq<Local>, depth: i32, name: Seq<u8>, n: int) -> nat
    decreases n,
{
    if n <= 0 || n > locals.len() {
        0
    } else if locals[n - 1].depth != -1 && locals[n - 1].depth < depth {
        0
    } else {
        same_scope_count(locals, depth, name, n - 1) + if locals[n - 1].name.lexeme@ == name {
            1nat
        } else {
            0nat
        }
    }
}

pub proof fn lemma_same_scope_count_bounded(locals: Seq<Local>, depth: i32, name: Seq<u8>, n: int)
    requires
        0 <= n <= locals.len(),
    ensures
        same_scope_count(locals, depth, name, n) <= n,
    decreases n,
{
    if n > 0 {
        lemma_same_scope_count_bounded(locals, depth, name, n - 1);
    }
}

impl Compiler {
    pub fn new(name: Vec<u8>, function_type: FunctionType) -> (compiler: Box<Compiler>)
        ensures
            compiler.enclosing is None,
            compiler.function.arity == 0,
            compiler.function.name@ == name@,
            compiler.function.chunk.code@.len() == 0,
            compiler.function.chunk.lines@.len() == 0,
            compiler.function.chunk.constants@.len() == 0,
            compiler.function_type == function_type,
            compiler.locals@.len() == 1,
            compiler.locals@[0].depth == 0,
            compiler.locals@[0].name.lexeme@.len() == 0,
            compiler.scope_depth == 0,
    {
        let mut locals: Vec<Local> = Vec::with_capacity(LOCAL_MAX);
        locals.push(Local::new(Token::null(), 0));
        Box::new(
            Compiler {
                enclosing: None,
                function: Function::new(name),
                function_type,
                locals,
                scope_depth: 0,
            },
        )
    }

    /// How many locals of the innermost block are already named `name`.
    pub fn is_same_scope(&self, name: &Token) -> (count: u32)
        requires
            self.locals@.len() <= u32::MAX,
        ensures
            count == same_scope_count(
                self.locals@,
                self.scope_depth,
                name.lexeme@,
                self.locals@.len() as int,
            ),
    {
        let mut count: u32 = 0;
        let mut i: usize = self.locals.len();
        while i > 0
            invariant
                i <= self.locals@.len() <= u32::MAX,
                count + same_scope_count(self.locals@, self.scope_depth, name.lexeme@, i as int)
                    == same_scope_count(
                    self.locals@,
                    self.scope_depth,
                    name.lexeme@,
                    self.locals@.len() as int,
                ),
                count <= self.locals@.len() - i,
            decreases i,
        {
            let local = &self.locals[i - 1];
            if local.depth != -1 && local.depth < self.scope_depth {
                return count;
            }
            if bytes_equal(name.lexeme.as_slice(), local.name.lexeme.as_slice()) {
                count += 1;
            }
            i -= 1;
        }
        count
    }
}

} // verus!
