//! Runtime values, functions, closures, natives, and the constants a chunk holds.
//!
//! A number is held as the bit pattern of an IEEE-754 double: the library
//! moves numbers around and tests their type, while arithmetic, comparison,
//! parsing and formatting of numbers are done by the caller of the virtual
//! machine (see `vm::Action`).  A number literal in a chunk is held as its
//! source text.

use vstd::prelude::*;

use crate::chunk::Chunk;
use crate::instruction::Instruction;
use crate::scanner::bytes_equal;
use crate::token::copy_bytes;

verus! {

broadcast use vstd::std_specs::vec::group_vec_axioms;

/// Whether a function is the top-level script or a declared function.
#[derive(Clone, Copy, Debug, PartialEq, Eq, Structural)]
pub enum FunctionType {
    Function,
    Script,
}

/// The built-in functions.
#[derive(Clone, Copy, Debug, PartialEq, Eq, Structural)]
pub enum NativeKind {
    Print,
    Clock,
    TypeOf,
}

/// A built-in function and the number of arguments it takes.
#[derive(Clone, Copy, Debug, PartialEq, Eq, Structural)]
pub struct Native {
    pub kind: NativeKind,
    pub arity: usize,
}

impl Native {
    /// `print(value)`: writes the value and a newline to the output.
    pub fn print() -> (native: Native)
        ensures
            native == (Native { kind: NativeKind::Print, arity: 1 }),
    {
        Native { kind: NativeKind::Print, arity: 1 }
    }

    /// `clock()`: the current time in milliseconds.
    pub fn clock() -> (native: Native)
        ensures
            native == (Native { kind: NativeKind::Clock, arity: 0 }),
    {
        Native { kind: NativeKind::Clock, arity: 0 }
    }

    /// `type_of(value)`: the name of the value's type.
    pub fn type_of() -> (native: Native)
        ensures
            native == (Native { kind: NativeKind::TypeOf, arity: 1 }),
    {
        Native { kind: NativeKind::TypeOf, arity: 1 }
    }
}

/// A constant stored in a chunk.
pub enum Constant {
    /// A number literal, as written in the source.
    Number(Vec<u8>),
    String(Vec<u8>),
    Function(Function),
}

/// A compiled function.
pub struct Function {
    pub arity: usize,
    pub chunk: Chunk,
    pub name: Vec<u8>,
}

/// A function value as the machine calls it.
pub struct Closure {
    pub function: Function,
}

/// A runtime value.
pub enum Value {
    Boolean(bool),
    /// The bit pattern of a double.
    Number(u64),
    Nil,
    String(Vec<u8>),
    Closure(Closure),
    Function(Function),
    Native(Native),
}

// ---------------------------------------------------------------------------
// Mathematical models.

pub enum ConstantModel {
    Number(Seq<u8>),
    String(Seq<u8>),
    Function(FunctionModel),
}

pub struct ChunkModel {
    pub code: Seq<Instruction>,
    pub lines: Seq<u32>,
    pub constants: Seq<ConstantModel>,
}

pub struct FunctionModel {
    pub arity: usize,
    pub chunk: ChunkModel,
    pub name: Seq<u8>,
}

pub enum ValueModel {
    Boolean(bool),
    Number(u64),
    Nil,
    String(Seq<u8>),
    Closure(FunctionModel),
    Function(FunctionModel),
    Native(Native),
}

pub open spec fn constant_model(c: Constant) -> ConstantModel
    decreases c,
{
    match c {
        Constant::Number(text) => ConstantModel::Number(text@),
        Constant::String(text) => ConstantModel::String(text@),
        Constant::Function(f) => ConstantModel::Function(function_model(f)),
    }
}

pub open spec fn function_model(f: Function) -> FunctionModel
    decreases f,
{
    FunctionModel { arity: f.arity, chunk: chunk_model(f.chunk), name: f.name@ }
}

pub open spec fn chunk_model(k: Chunk) -> ChunkModel
    decreases k,
{
    ChunkModel {
        code: k.code@,
        lines: k.lines@,
        constants: constants_model(k.constants@),
    }
}

pub open spec fn constants_model(s: Seq<Constant>) -> Seq<ConstantModel>
    decreases s,
{
    if s.len() == 0 {
        Seq::empty()
    } else {
        constants_model(s.drop_last()).push(constant_model(s.last()))
    }
}

pub open spec fn value_model(v: Value) -> ValueModel {
    match v {
        Value::Boolean(b) => ValueModel::Boolean(b),
        Value::Number(bits) => ValueModel::Number(bits),
        Value::Nil => ValueModel::Nil,
        Value::String(text) => ValueModel::String(text@),
        Value::Closure(c) => ValueModel::Closure(function_model(c.function)),
        Value::Function(f) => ValueModel::Function(function_model(f)),
        Value::Native(n) => ValueModel::Native(n),
    }
}

pub proof fn lemma_constants_model(s: Seq<Constant>)
    ensures
        constants_model(s).len() == s.len(),
        forall|i: int| 0 <= i < s.len() ==> #[trigger] constants_model(s)[i] == constant_model(s[i]),
    decreases s.len(),
{
    if s.len() > 0 {
        lemma_constants_model(s.drop_last());
    }
}

impl View for Constant {
    type V = ConstantModel;

    open spec fn view(&self) -> ConstantModel {
        constant_model(*self)
    }
}

impl View for Function {
    type V = FunctionModel;

    open spec fn view(&self) -> FunctionModel {
        function_model(*self)
    }
}

impl View for Chunk {
    type V = ChunkModel;

    open spec fn view(&self) -> ChunkModel {
        chunk_model(*self)
    }
}

impl View for Value {
    type V = ValueModel;

    open spec fn view(&self) -> ValueModel {
        value_model(*self)
    }
}

impl Function {
    /// An empty function of no parameters.
    pub fn new(name: Vec<u8>) -> (f: Function)
        ensures
            f.arity == 0,
            f.name@ == name@,
            f.chunk.code@.len() == 0,
            f.chunk.lines@.len() == 0,
            f.chunk.constants@.len() == 0,
    {
        Function { arity: 0, chunk: Chunk::new(), name }
    }

    /// Adds one to the arity and returns the new arity.
    pub fn increment_arity(&mut self) -> (arity: usize)
        requires
            old(self).arity < usize::MAX,
        ensures
            arity == old(self).arity + 1,
            final(self).arity == arity,
            final(self).chunk == old(self).chunk,
            final(self).name == old(self).name,
    {
        self.arity = self.arity + 1;
        self.arity
    }
}

impl Closure {
    pub fn new(function: Function) -> (closure: Closure)
        ensures
            closure.function == function,
    {
        Closure { function }
    }
}

impl Value {
    /// `nil` and `false` are falsey; every other value is truthy.
    pub open spec fn spec_is_falsey(self) -> bool {
        self is Nil || self == Value::Boolean(false)
    }

    pub fn is_falsey(&self) -> (b: bool)
        ensures
            b == self.spec_is_falsey(),
    {
        match self {
            Value::Nil => true,
            Value::Boolean(b) => !*b,
            _ => false,
        }
    }
}

impl ValueModel {
    pub open spec fn is_falsey(self) -> bool {
        self is Nil || self == ValueModel::Boolean(false)
    }
}

pub proof fn lemma_falsey_model(v: Value)
    ensures
        v.spec_is_falsey() == v@.is_falsey(),
{
}

// ---------------------------------------------------------------------------
// Copying.

pub fn clone_constant(c: &Constant) -> (r: Constant)
    ensures
        r@ == c@,
    decreases c,
{
    match c {
        Constant::Number(text) => Constant::Number(copy_bytes(text)),
        Constant::String(text) => Constant::String(copy_bytes(text)),
        Constant::Function(f) => Constant::Function(clone_function(f)),
    }
}

pub fn clone_function(f: &Function) -> (r: Function)
    ensures
        r@ == f@,
    decreases f,
{
    Function { arity: f.arity, chunk: clone_chunk(&f.chunk), name: copy_bytes(&f.name) }
}

pub fn clone_chunk(k: &Chunk) -> (r: Chunk)
    ensures
        r@ == k@,
    decreases k,
{
    let mut code: Vec<Instruction> = Vec::with_capacity(k.code.len());
    let mut i: usize = 0;
    while i < k.code.len()
        invariant
            i <= k.code@.len(),
            code@ == k.code@.subrange(0, i as int),
        decreases k.code@.len() - i,
    {
        code.push(k.code[i]);
        i += 1;
    }
    let mut lines: Vec<u32> = Vec::with_capacity(k.lines.len());
    let mut i: usize = 0;
    while i < k.lines.len()
        invariant
            i <= k.lines@.len(),
            lines@ == k.lines@.subrange(0, i as int),
        decreases k.lines@.len() - i,
    {
        lines.push(k.lines[i]);
        i += 1;
    }
    let mut constants: Vec<Constant> = Vec::with_capacity(k.constants.len());
    let mut i: usize = 0;
    proof {
        lemma_constants_model(k.constants@);
    }
    while i < k.constants.len()
        invariant
            i <= k.constants@.len(),
            constants_model(constants@) == constants_model(k.constants@.subrange(0, i as int)),
            constants_model(k.constants@).len() == k.constants@.len(),
            forall|j: int|
                0 <= j < k.constants@.len() ==> #[trigger] constants_model(k.constants@)[j]
                    == constant_model(k.constants@[j]),
        decreases k.constants@.len() - i,
    {
        proof {
            assert(decreases_to!(k => k.constants));
            assert(decreases_to!(k.constants => k.constants@));
            assert(decreases_to!(k.constants@ => k.constants@[i as int]));
        }
        let c = clone_constant(&k.constants[i]);
        let ghost before = constants@;
        constants.push(c);
        proof {
            let prefix = k.constants@.subrange(0, i as int + 1);
            assert(prefix.drop_last() =~= k.constants@.subrange(0, i as int));
            assert(constants@.drop_last() =~= before);
        }
        i += 1;
    }
    proof {
        assert(k.constants@.subrange(0, k.constants@.len() as int) =~= k.constants@);
        assert(k.code@.subrange(0, k.code@.len() as int) =~= k.code@);
        assert(k.lines@.subrange(0, k.lines@.len() as int) =~= k.lines@);
    }
    let r = Chunk { code, lines, constants };
    assert(chunk_model(r) == chunk_model(*k));
    r
}

pub fn clone_value(v: &Value) -> (r: Value)
    ensures
        r@ == v@,
{
    match v {
        Value::Boolean(b) => Value::Boolean(*b),
        Value::Number(bits) => Value::Number(*bits),
        Value::Nil => Value::Nil,
        Value::String(text) => Value::String(copy_bytes(text)),
        Value::Closure(c) => Value::Closure(Closure { function: clone_function(&c.function) }),
        Value::Function(f) => Value::Function(clone_function(f)),
        Value::Native(n) => Value::Native(*n),
    }
}

// ---------------------------------------------------------------------------
// Equality.

pub fn constant_equal(a: &Constant, b: &Constant) -> (eq: bool)
    ensures
        eq == (a@ == b@),
    decreases a,
{
    match (a, b) {
        (Constant::Number(x), Constant::Number(y)) => bytes_equal(x.as_slice(), y.as_slice()),
        (Constant::String(x), Constant::String(y)) => bytes_equal(x.as_slice(), y.as_slice()),
        (Constant::Function(f), Constant::Function(g)) => function_equal(f, g),
        _ => false,
    }
}

pub fn function_equal(a: &Function, b: &Function) -> (eq: bool)
    ensures
        eq == (a@ == b@),
    decreases a,
{
    a.arity == b.arity && bytes_equal(a.name.as_slice(), b.name.as_slice()) && chunk_equal(
        &a.chunk,
        &b.chunk,
    )
}

pub fn chunk_equal(a: &Chunk, b: &Chunk) -> (eq: bool)
    ensures
        eq == (a@ == b@),
    decreases a,
{
    if a.code.len() != b.code.len() || a.lines.len() != b.lines.len() || a.constants.len()
        != b.constants.len() {
        proof {
            lemma_constants_model(a.constants@);
            lemma_constants_model(b.constants@);
        }
        return false;
    }
    let mut i: usize = 0;
    while i < a.code.len()
        invariant
            a.code@.len() == b.code@.len(),
            i <= a.code@.len(),
            forall|j: int| 0 <= j < i ==> a.code@[j] == b.code@[j],
        decreases a.code@.len() - i,
    {
        if a.code[i] != b.code[i] {
            return false;
        }
        i += 1;
    }
    assert(a.code@ =~= b.code@);
    let mut i: usize = 0;
    while i < a.lines.len()
        invariant
            a.lines@.len() == b.lines@.len(),
            i <= a.lines@.len(),
            forall|j: int| 0 <= j < i ==> a.lines@[j] == b.lines@[j],
        decreases a.lines@.len() - i,
    {
        if a.lines[i] != b.lines[i] {
            return false;
        }
        i += 1;
    }
    assert(a.lines@ =~= b.lines@);
    proof {
        lemma_constants_model(a.constants@);
        lemma_constants_model(b.constants@);
    }
    let mut i: usize = 0;
    while i < a.constants.len()
        invariant
            a.constants@.len() == b.constants@.len(),
            i <= a.constants@.len(),
            constants_model(a.constants@).len() == a.constants@.len(),
            constants_model(b.constants@).len() == b.constants@.len(),
            forall|j: int|
                0 <= j < a.constants@.len() ==> #[trigger] constants_model(a.constants@)[j]
                    == constant_model(a.constants@[j]),
            forall|j: int|
                0 <= j < b.constants@.len() ==> #[trigger] constants_model(b.constants@)[j]
                    == constant_model(b.constants@[j]),
            forall|j: int|
                0 <= j < i ==> constant_model(a.constants@[j]) == constant_model(b.constants@[j]),
        decreases a.constants@.len() - i,
    {
        proof {
            assert(decreases_to!(a => a.constants));
            assert(decreases_to!(a.constants => a.constants@));
            assert(decreases_to!(a.constants@ => a.constants@[i as int]));
        }
        if !constant_equal(&a.constants[i], &b.constants[i]) {
            proof {
                assert(constants_model(a.constants@)[i as int] != constants_model(
                    b.constants@,
                )[i as int]);
            }
            return false;
        }
        i += 1;
    }
    assert(constants_model(a.constants@) =~= constants_model(b.constants@));
    true
}

} // verus!
