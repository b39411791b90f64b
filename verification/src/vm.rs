//! The virtual machine.
//!
//! The machine runs one instruction per call of `VM::step`.  Work on numbers
//! (parsing a literal, arithmetic, comparison, formatting) and reading the
//! clock are asked of the caller as an `Action`; the caller answers with an
//! `Event` through `VM::resume`.  Text that the program prints, and the
//! diagnostics of errors, are collected in the machine's output buffers.

use vstd::prelude::*;
use vstd::string::StringSliceAdditionalSpecFns;

use crate::chunk::{constant_refs_ok, function_refs_ok, jump_lands, lemma_constants_refs_ok_each, operand_ok};
use crate::error::ArcError;
use crate::globals::Globals;
use crate::compiler::LOCAL_MAX;
use crate::instruction::Instruction;
use crate::parser::{is_compiled_script, is_reports, Parser};
use crate::scanner::{has_lexical_error, line_count_fits, token_start};
use crate::text::{decimal, push_bytes, push_decimal, push_text};
use crate::value::{
    clone_constant, clone_function, clone_value, function_equal, lemma_constants_model,
    lemma_falsey_model, Closure, Constant, ConstantModel,
    Function, FunctionModel, Native, NativeKind, Value, ValueModel,
};

verus! {

broadcast use vstd::std_specs::vec::group_vec_axioms;

/// The most frames the call stack holds.
pub const FRAMES_MAX: usize = 64;

/// An active call: the closure being run, its next instruction, and where
/// its slots start on the value stack.
pub struct CallFrame {
    pub closure: Closure,
    pub ip: usize,
    pub slot: usize,
}

impl CallFrame {
    pub fn new(closure: Closure, slot: usize) -> (frame: CallFrame)
        ensures
            frame.closure == closure,
            frame.ip == 0,
            frame.slot == slot,
    {
        CallFrame { closure, ip: 0, slot }
    }
}

#[derive(Clone, Copy, Debug, PartialEq, Eq, Structural)]
pub enum ArithmeticOp {
    Add,
    Subtract,
    Multiply,
    Divide,
}

#[derive(Clone, Copy, Debug, PartialEq, Eq, Structural)]
pub enum ComparisonOp {
    Greater,
    Less,
    Equal,
}

/// What the machine waits for after it asked for outside work.
#[derive(Clone, Copy, Debug, PartialEq, Eq, Structural)]
pub enum Pending {
    /// A number, to be pushed.
    Number,
    /// A boolean, to be pushed.
    Boolean,
    /// The text of a number, to be printed.
    Print,
    /// The text of a number, to be printed; then `nil` is pushed.
    PrintThenNil,
}

/// What a step of the machine asks of its caller.
pub enum Action {
    /// One instruction was run; step again.
    Continue,
    /// The program ended.
    Finished(Result<(), ArcError>),
    /// The machine reached a state that compiled programs never produce
    /// (an index outside a chunk or the stack).
    Fault,
    /// Parse this number literal; answer with `Event::Number`.
    ParseNumber(Vec<u8>),
    /// Apply the operation to the two doubles; answer with `Event::Number`.
    Arithmetic(ArithmeticOp, u64, u64),
    /// Compare the two doubles; answer with `Event::Boolean`.
    Compare(ComparisonOp, u64, u64),
    /// Negate the double; answer with `Event::Number`.
    Negate(u64),
    /// Format the double as text; answer with `Event::Text`.
    FormatNumber(u64),
    /// Read the clock in milliseconds; answer with `Event::Number`.
    Clock,
}

/// The caller's answer to an action.
pub enum Event {
    Number(u64),
    Boolean(bool),
    Text(Vec<u8>),
}

pub enum ActionModel {
    Continue,
    Finished(Result<(), ArcError>),
    Fault,
    ParseNumber(Seq<u8>),
    Arithmetic(ArithmeticOp, u64, u64),
    Compare(ComparisonOp, u64, u64),
    Negate(u64),
    FormatNumber(u64),
    Clock,
}

pub enum EventModel {
    Number(u64),
    Boolean(bool),
    Text(Seq<u8>),
}

impl View for Action {
    type V = ActionModel;

    open spec fn view(&self) -> ActionModel {
        match self {
            Action::Continue => ActionModel::Continue,
            Action::Finished(r) => ActionModel::Finished(*r),
            Action::Fault => ActionModel::Fault,
            Action::ParseNumber(t) => ActionModel::ParseNumber(t@),
            Action::Arithmetic(op, a, b) => ActionModel::Arithmetic(*op, *a, *b),
            Action::Compare(op, a, b) => ActionModel::Compare(*op, *a, *b),
            Action::Negate(a) => ActionModel::Negate(*a),
            Action::FormatNumber(a) => ActionModel::FormatNumber(*a),
            Action::Clock => ActionModel::Clock,
        }
    }
}

impl View for Event {
    type V = EventModel;

    open spec fn view(&self) -> EventModel {
        match self {
            Event::Number(n) => EventModel::Number(*n),
            Event::Boolean(b) => EventModel::Boolean(*b),
            Event::Text(t) => EventModel::Text(t@),
        }
    }
}

// ---------------------------------------------------------------------------
// The machine as a mathematical object.

pub struct FrameModel {
    pub function: FunctionModel,
    pub ip: int,
    pub slot: int,
}

pub struct VMModel {
    pub frames: Seq<FrameModel>,
    pub stack: Seq<ValueModel>,
    pub globals: Map<Seq<u8>, ValueModel>,
    pub pending: Option<Pending>,
    pub stdout: Seq<u8>,
    pub stderr: Seq<u8>,
}

impl VMModel {
    pub open spec fn with_stack(self, stack: Seq<ValueModel>) -> VMModel {
        VMModel { stack: stack, ..self }
    }

    pub open spec fn push(self, v: ValueModel) -> VMModel {
        self.with_stack(self.stack.push(v))
    }

    pub open spec fn pop(self) -> VMModel {
        self.with_stack(self.stack.drop_last())
    }

    /// The value `distance` places below the top of the stack.
    pub open spec fn peek(self, distance: int) -> ValueModel {
        self.stack[self.stack.len() - 1 - distance]
    }

    pub open spec fn top(self) -> FrameModel {
        self.frames.last()
    }

    pub open spec fn with_top_ip(self, ip: int) -> VMModel {
        VMModel {
            frames: self.frames.update(
                self.frames.len() - 1,
                FrameModel { ip: ip, ..self.top() },
            ),
            ..self
        }
    }

    pub open spec fn awaiting(self, p: Pending) -> VMModel {
        VMModel { pending: Some(p), ..self }
    }

    /// Writes `text` and a newline to the standard output.
    pub open spec fn print(self, text: Seq<u8>) -> VMModel {
        VMModel { stdout: self.stdout + text + "\n".spec_bytes(), ..self }
    }
}

/// How a value prints; `None` for a number, whose text the caller makes.
pub open spec fn display(v: ValueModel) -> Option<Seq<u8>> {
    match v {
        ValueModel::Boolean(b) => Some(
            if b {
                "true".spec_bytes()
            } else {
                "false".spec_bytes()
            },
        ),
        ValueModel::Number(_) => None,
        ValueModel::Nil => Some("nil".spec_bytes()),
        ValueModel::String(t) => Some(t),
        ValueModel::Closure(f) => Some("<fn ".spec_bytes() + f.name + ">".spec_bytes()),
        ValueModel::Function(f) => Some("<fn ".spec_bytes() + f.name + ">".spec_bytes()),
        ValueModel::Native(_) => Some("<native fn>".spec_bytes()),
    }
}

/// The name `type_of` gives a value's type.
pub open spec fn kind_name(v: ValueModel) -> Seq<u8> {
    match v {
        ValueModel::Boolean(_) => "boolean".spec_bytes(),
        ValueModel::Number(_) => "number".spec_bytes(),
        ValueModel::Nil => "nil".spec_bytes(),
        ValueModel::String(_) => "string".spec_bytes(),
        ValueModel::Closure(_) => "closure".spec_bytes(),
        ValueModel::Function(_) => "function".spec_bytes(),
        ValueModel::Native(_) => "native".spec_bytes(),
    }
}

/// Whether `a == b`; `None` when both are numbers, which the caller compares
/// as doubles.  Two natives are never equal.
pub open spec fn equal_values(a: ValueModel, b: ValueModel) -> Option<bool> {
    match (a, b) {
        (ValueModel::Number(_), ValueModel::Number(_)) => None,
        (ValueModel::Native(_), ValueModel::Native(_)) => Some(false),
        _ => Some(a == b),
    }
}

/// The line of a stack trace that names a frame.
pub open spec fn trace_line(f: FrameModel) -> Seq<u8> {
    "[line ".spec_bytes() + decimal(f.function.chunk.lines[f.ip - 1] as nat) + "] in ".spec_bytes()
        + if f.function.name.len() == 0 {
        "script".spec_bytes()
    } else {
        f.function.name + "()".spec_bytes()
    } + "\n".spec_bytes()
}

/// The stack trace, innermost frame first.
pub open spec fn trace(frames: Seq<FrameModel>) -> Seq<u8>
    decreases frames.len(),
{
    if frames.len() == 0 {
        Seq::empty()
    } else {
        trace_line(frames.last()) + trace(frames.drop_last())
    }
}

/// Every frame has run an instruction whose line a trace can name.
pub open spec fn frames_traceable(frames: Seq<FrameModel>) -> bool {
    forall|i: int|
        0 <= i < frames.len() ==> 1 <= (#[trigger] frames[i]).ip <= frames[i].function.chunk.lines.len()
}

/// Reports `message` and the stack trace, and empties the stacks.
pub open spec fn runtime_error(m: VMModel, message: Seq<u8>) -> (VMModel, ActionModel) {
    if !frames_traceable(m.frames) {
        (m, ActionModel::Fault)
    } else {
        (
            VMModel {
                stderr: m.stderr + message + "\n".spec_bytes() + trace(m.frames),
                stack: Seq::empty(),
                frames: Seq::empty(),
                ..m
            },
            ActionModel::Finished(Err(ArcError::RuntimeError)),
        )
    }
}

/// Calls `g` with the `n` arguments on top of the stack.
pub open spec fn call_spec(m: VMModel, g: FunctionModel, n: int) -> (VMModel, ActionModel) {
    if n != g.arity {
        runtime_error(
            m,
            "Expected ".spec_bytes() + decimal(g.arity as nat) + " arguments but got ".spec_bytes()
                + decimal(n as nat) + ".".spec_bytes(),
        )
    } else if m.frames.len() == FRAMES_MAX {
        runtime_error(m, "Stack overflow.".spec_bytes())
    } else {
        (
            VMModel {
                frames: m.frames.push(FrameModel { function: g, ip: 0, slot: m.stack.len() - n - 1 }),
                ..m
            },
            ActionModel::Continue,
        )
    }
}

/// A built-in function was given the wrong number of arguments: the run
/// ends with a runtime error, and both stacks are emptied.
pub open spec fn native_failed(m: VMModel) -> (VMModel, ActionModel) {
    (
        VMModel { stack: Seq::empty(), frames: Seq::empty(), ..m },
        ActionModel::Finished(Err(ArcError::RuntimeError)),
    )
}

/// Calls a native; its arguments (with the callee below them) leave the stack first.
pub open spec fn native_spec(m: VMModel, kind: NativeKind, n: int) -> (VMModel, ActionModel) {
    let pivot = m.stack.len() - n - 1;
    let args = m.stack.subrange(pivot, m.stack.len() as int);
    let rest = m.with_stack(m.stack.subrange(0, pivot));
    match kind {
        NativeKind::Print => if args.len() != 2 {
            native_failed(rest)
        } else {
            match display(args[1]) {
                Some(t) => (rest.print(t).push(ValueModel::Nil), ActionModel::Continue),
                None => (rest.awaiting(Pending::PrintThenNil), ActionModel::FormatNumber(args[1]->Number_0)),
            }
        },
        NativeKind::Clock => if args.len() != 1 {
            native_failed(rest)
        } else {
            (rest.awaiting(Pending::Number), ActionModel::Clock)
        },
        NativeKind::TypeOf => if args.len() != 2 {
            native_failed(rest)
        } else {
            (rest.push(ValueModel::String(kind_name(args[1]))), ActionModel::Continue)
        },
    }
}

/// Calls the value below the `n` arguments on top of the stack.
pub open spec fn call_value_spec(m: VMModel, n: int) -> (VMModel, ActionModel) {
    if n + 1 > m.stack.len() {
        (m, ActionModel::Fault)
    } else {
        match m.peek(n) {
            ValueModel::Closure(g) => call_spec(m, g, n),
            ValueModel::Function(g) => call_spec(m, g, n),
            ValueModel::Native(native) => native_spec(m, native.kind, n),
            _ => runtime_error(m, "Can only call functions and classes.".spec_bytes()),
        }
    }
}

/// An arithmetic instruction: both operands must be numbers.
pub open spec fn arithmetic_spec(m: VMModel, op: ArithmeticOp) -> (VMModel, ActionModel) {
    if m.stack.len() < 2 {
        (m, ActionModel::Fault)
    } else {
        match (m.peek(1), m.peek(0)) {
            (ValueModel::Number(l), ValueModel::Number(r)) => (
                m.pop().pop().awaiting(Pending::Number),
                ActionModel::Arithmetic(op, l, r),
            ),
            _ => runtime_error(m, "Operands must be numbers.".spec_bytes()),
        }
    }
}

/// `>` or `<`: both operands must be numbers.
pub open spec fn comparison_spec(m: VMModel, op: ComparisonOp) -> (VMModel, ActionModel) {
    if m.stack.len() < 2 {
        (m, ActionModel::Fault)
    } else {
        match (m.peek(1), m.peek(0)) {
            (ValueModel::Number(l), ValueModel::Number(r)) => (
                m.pop().pop().awaiting(Pending::Boolean),
                ActionModel::Compare(op, l, r),
            ),
            _ => runtime_error(m, "Operands must be numbers.".spec_bytes()),
        }
    }
}

/// The name that constant `i` of the current chunk holds, if it is a string.
pub open spec fn constant_name(m: VMModel, i: int) -> Option<Seq<u8>> {
    let k = m.top().function.chunk;
    if 0 <= i < k.constants.len() {
        match k.constants[i] {
            ConstantModel::String(name) => Some(name),
            _ => None,
        }
    } else {
        None
    }
}

/// Runs `instruction` in `m`, whose current frame already points past it.
pub open spec fn execute_spec(m: VMModel, instruction: Instruction) -> (VMModel, ActionModel) {
    let k = m.top().function.chunk;
    let len = m.stack.len();
    match instruction {
        Instruction::Constant(i) => if i >= k.constants.len() {
            (m, ActionModel::Fault)
        } else {
            match k.constants[i as int] {
                ConstantModel::Number(text) => (
                    m.awaiting(Pending::Number),
                    ActionModel::ParseNumber(text),
                ),
                ConstantModel::String(text) => (
                    m.push(ValueModel::String(text)),
                    ActionModel::Continue,
                ),
                ConstantModel::Function(g) => (
                    m.push(ValueModel::Function(g)),
                    ActionModel::Continue,
                ),
            }
        },
        Instruction::Nil => (m.push(ValueModel::Nil), ActionModel::Continue),
        Instruction::True => (m.push(ValueModel::Boolean(true)), ActionModel::Continue),
        Instruction::False => (m.push(ValueModel::Boolean(false)), ActionModel::Continue),
        Instruction::Pop => if len == 0 {
            (m, ActionModel::Fault)
        } else {
            (m.pop(), ActionModel::Continue)
        },
        Instruction::GetLocal(i) => if m.top().slot + i >= len {
            (m, ActionModel::Fault)
        } else {
            (m.push(m.stack[m.top().slot + i]), ActionModel::Continue)
        },
        Instruction::SetLocal(i) => if len == 0 || m.top().slot + i >= len {
            (m, ActionModel::Fault)
        } else {
            (m.with_stack(m.stack.update(m.top().slot + i, m.peek(0))), ActionModel::Continue)
        },
        Instruction::GetGlobal(i) => if i >= k.constants.len() {
            (m, ActionModel::Fault)
        } else {
            match constant_name(m, i as int) {
                Some(name) => if m.globals.contains_key(name) {
                    (m.push(m.globals[name]), ActionModel::Continue)
                } else {
                    runtime_error(
                        m,
                        "Undefined variable '".spec_bytes() + name + "'.".spec_bytes(),
                    )
                },
                None => (m, ActionModel::Continue),
            }
        },
        Instruction::DefineGlobal(i) => match constant_name(m, i as int) {
            Some(name) => if len == 0 {
                (m, ActionModel::Fault)
            } else {
                (
                    VMModel { globals: m.globals.insert(name, m.peek(0)), ..m.pop() },
                    ActionModel::Continue,
                )
            },
            None => (m, ActionModel::Fault),
        },
        Instruction::SetGlobal(i) => match constant_name(m, i as int) {
            Some(name) => if len == 0 {
                (m, ActionModel::Fault)
            } else if m.globals.contains_key(name) {
                (VMModel { globals: m.globals.insert(name, m.peek(0)), ..m }, ActionModel::Continue)
            } else {
                runtime_error(m, "Undefined variable '".spec_bytes() + name + "'.".spec_bytes())
            },
            None => (m, ActionModel::Fault),
        },
        Instruction::Equal => if len < 2 {
            (m, ActionModel::Fault)
        } else {
            match equal_values(m.peek(1), m.peek(0)) {
                Some(b) => (m.pop().pop().push(ValueModel::Boolean(b)), ActionModel::Continue),
                None => (
                    m.pop().pop().awaiting(Pending::Boolean),
                    ActionModel::Compare(
                        ComparisonOp::Equal,
                        m.peek(1)->Number_0,
                        m.peek(0)->Number_0,
                    ),
                ),
            }
        },
        Instruction::Greater => comparison_spec(m, ComparisonOp::Greater),
        Instruction::Less => comparison_spec(m, ComparisonOp::Less),
        Instruction::Add => if len < 2 {
            (m, ActionModel::Fault)
        } else {
            match (m.peek(1), m.peek(0)) {
                (ValueModel::String(a), ValueModel::String(b)) => (
                    m.pop().pop().push(ValueModel::String(a + b)),
                    ActionModel::Continue,
                ),
                (ValueModel::Number(_), ValueModel::Number(_)) => arithmetic_spec(
                    m,
                    ArithmeticOp::Add,
                ),
                _ => runtime_error(
                    m,
                    "Operands must be two numbers or two strings.".spec_bytes(),
                ),
            }
        },
        Instruction::Subtract => arithmetic_spec(m, ArithmeticOp::Subtract),
        Instruction::Multiply => arithmetic_spec(m, ArithmeticOp::Multiply),
        Instruction::Divide => arithmetic_spec(m, ArithmeticOp::Divide),
        Instruction::Not => if len == 0 {
            (m, ActionModel::Fault)
        } else {
            (m.pop().push(ValueModel::Boolean(m.peek(0).is_falsey())), ActionModel::Continue)
        },
        Instruction::Negate => if len == 0 {
            (m, ActionModel::Fault)
        } else {
            match m.peek(0) {
                ValueModel::Number(x) => (m.pop().awaiting(Pending::Number), ActionModel::Negate(x)),
                _ => runtime_error(m, "Operand must be a number.".spec_bytes()),
            }
        },
        Instruction::Print => if len == 0 {
            (m, ActionModel::Fault)
        } else {
            match display(m.peek(0)) {
                Some(t) => (m.pop().print(t), ActionModel::Continue),
                None => (m.pop().awaiting(Pending::Print), ActionModel::FormatNumber(m.peek(0)->Number_0)),
            }
        },
        Instruction::Jump(offset) => if m.top().ip + offset > usize::MAX {
            (m, ActionModel::Fault)
        } else {
            (m.with_top_ip(m.top().ip + offset), ActionModel::Continue)
        },
        Instruction::JumpIfFalse(offset) => if len == 0 {
            (m, ActionModel::Fault)
        } else if m.peek(0).is_falsey() {
            if m.top().ip + offset > usize::MAX {
                (m, ActionModel::Fault)
            } else {
                (m.with_top_ip(m.top().ip + offset), ActionModel::Continue)
            }
        } else {
            (m, ActionModel::Continue)
        },
        Instruction::Loop(offset) => if offset > m.top().ip {
            (m, ActionModel::Fault)
        } else {
            (m.with_top_ip(m.top().ip - offset), ActionModel::Continue)
        },
        Instruction::Call(n) => call_value_spec(m, n as int),
        Instruction::Return => if len == 0 {
            (m, ActionModel::Fault)
        } else {
            let result = m.peek(0);
            let frames = m.frames.drop_last();
            if frames.len() == 0 {
                if len < 2 {
                    (m, ActionModel::Fault)
                } else {
                    (
                        VMModel { frames: frames, ..m.pop().pop() },
                        ActionModel::Finished(Ok(())),
                    )
                }
            } else {
                let slot = m.top().slot;
                let kept = if slot < len - 1 {
                    m.stack.drop_last().subrange(0, slot)
                } else {
                    m.stack.drop_last()
                };
                (
                    VMModel { frames: frames, stack: kept.push(result), ..m },
                    ActionModel::Continue,
                )
            }
        },
    }
}

/// One step: runs the current frame's next instruction.
pub open spec fn step_spec(m: VMModel) -> (VMModel, ActionModel) {
    if m.frames.len() == 0 {
        (m, ActionModel::Finished(Ok(())))
    } else if !(0 <= m.top().ip < m.top().function.chunk.code.len()) {
        (m, ActionModel::Fault)
    } else {
        execute_spec(
            m.with_top_ip(m.top().ip + 1),
            m.top().function.chunk.code[m.top().ip],
        )
    }
}

/// Whether `e` answers what the machine waits for.
pub open spec fn event_fits(p: Pending, e: EventModel) -> bool {
    match p {
        Pending::Number => e is Number,
        Pending::Boolean => e is Boolean,
        Pending::Print => e is Text,
        Pending::PrintThenNil => e is Text,
    }
}

/// Completes the instruction that asked for outside work.
pub open spec fn resume_spec(m: VMModel, e: EventModel) -> VMModel {
    let m0 = VMModel { pending: None, ..m };
    match (m.pending, e) {
        (Some(Pending::Number), EventModel::Number(x)) => m0.push(ValueModel::Number(x)),
        (Some(Pending::Boolean), EventModel::Boolean(b)) => m0.push(ValueModel::Boolean(b)),
        (Some(Pending::Print), EventModel::Text(t)) => m0.print(t),
        (Some(Pending::PrintThenNil), EventModel::Text(t)) => m0.print(t).push(ValueModel::Nil),
        _ => m0,
    }
}

/// The machine before anything is loaded: the built-in functions are defined.
pub open spec fn initial_model() -> VMModel {
    VMModel {
        frames: Seq::empty(),
        stack: Seq::empty(),
        globals: Map::<Seq<u8>, ValueModel>::empty().insert(
            "clock".spec_bytes(),
            ValueModel::Native(Native { kind: NativeKind::Clock, arity: 0 }),
        ).insert("print".spec_bytes(), ValueModel::Native(Native { kind: NativeKind::Print, arity: 1 })).insert(
            "type_of".spec_bytes(),
            ValueModel::Native(Native { kind: NativeKind::TypeOf, arity: 1 }),
        ),
        pending: None,
        stdout: Seq::empty(),
        stderr: Seq::empty(),
    }
}

/// Loading a script: it is pushed as a closure and called with no arguments.
pub open spec fn load_spec(m: VMModel, f: FunctionModel) -> (VMModel, ActionModel) {
    call_spec(m.push(ValueModel::Closure(f)), f, 0)
}

// ---------------------------------------------------------------------------
// Laws of the machine.

/// Nothing written to either stream between `m` and `n` was taken back.
pub open spec fn keeps_output(m: VMModel, n: VMModel) -> bool {
    &&& m.stdout.is_prefix_of(n.stdout)
    &&& m.stderr.is_prefix_of(n.stderr)
}

/// Whether the action asks the caller for outside work.
pub open spec fn asks_for_work(a: ActionModel) -> bool {
    match a {
        ActionModel::ParseNumber(_) => true,
        ActionModel::Arithmetic(_, _, _) => true,
        ActionModel::Compare(_, _, _) => true,
        ActionModel::Negate(_) => true,
        ActionModel::FormatNumber(_) => true,
        ActionModel::Clock => true,
        _ => false,
    }
}

proof fn lemma_prefix_of_self(a: Seq<u8>)
    ensures
        a.is_prefix_of(a),
{
    assert(a.subrange(0, a.len() as int) =~= a);
}

/// Printing appends to the standard output and leaves the error stream.
proof fn lemma_print_keeps_output()
    ensures
        forall|m: VMModel, t: Seq<u8>| keeps_output(m, #[trigger] m.print(t)),
{
    assert forall|m: VMModel, t: Seq<u8>| keeps_output(m, #[trigger] m.print(t)) by {
        let o = m.stdout + t + "\n".spec_bytes();
        assert(o.subrange(0, m.stdout.len() as int) =~= m.stdout);
        lemma_prefix_of_self(m.stderr);
    }
}

/// An error report appends to the error stream and leaves the standard output.
proof fn lemma_runtime_error_keeps_output()
    ensures
        forall|m: VMModel, message: Seq<u8>| keeps_output(m, #[trigger] runtime_error(m, message).0),
{
    assert forall|m: VMModel, message: Seq<u8>| keeps_output(m, #[trigger] runtime_error(m, message).0) by {
        let e = m.stderr + message + "\n".spec_bytes() + trace(m.frames);
        assert(e.subrange(0, m.stderr.len() as int) =~= m.stderr);
        lemma_prefix_of_self(m.stdout);
        lemma_prefix_of_self(m.stderr);
    }
}

proof fn lemma_native_keeps_output(m: VMModel, kind: NativeKind, n: int)
    ensures
        keeps_output(m, native_spec(m, kind, n).0),
{
    lemma_print_keeps_output();
    lemma_prefix_of_self(m.stdout);
    lemma_prefix_of_self(m.stderr);
}

proof fn lemma_execute_keeps_output(m: VMModel, instruction: Instruction)
    ensures
        keeps_output(m, execute_spec(m, instruction).0),
{
    lemma_prefix_of_self(m.stdout);
    lemma_prefix_of_self(m.stderr);
    match instruction {
        Instruction::Call(n) => {
            lemma_runtime_error_keeps_output();
            if n + 1 <= m.stack.len() {
                if let ValueModel::Native(native) = m.peek(n as int) {
                    lemma_native_keeps_output(m, native.kind, n as int);
                }
            }
        },
        Instruction::Print => {
            lemma_print_keeps_output();
        },
        Instruction::Return => {},
        Instruction::Constant(_) => {},
        _ => {
            lemma_runtime_error_keeps_output();
        },
    }
}

/// A step never takes back text that the program wrote: both streams only grow.
pub proof fn law_step_keeps_output(m: VMModel)
    ensures
        keeps_output(m, step_spec(m).0),
{
    lemma_prefix_of_self(m.stdout);
    lemma_prefix_of_self(m.stderr);
    if m.frames.len() > 0 && 0 <= m.top().ip < m.top().function.chunk.code.len() {
        let m1 = m.with_top_ip(m.top().ip + 1);
        lemma_execute_keeps_output(m1, m.top().function.chunk.code[m.top().ip]);
    }
}

/// Answering an action never takes back text that the program wrote.
pub proof fn law_resume_keeps_output(m: VMModel, e: EventModel)
    ensures
        keeps_output(m, resume_spec(m, e)),
{
    lemma_print_keeps_output();
    lemma_prefix_of_self(m.stdout);
    lemma_prefix_of_self(m.stderr);
}

/// The call stack never holds more than `FRAMES_MAX` frames: a call that
/// would exceed it is a stack overflow.
pub proof fn law_frames_bounded(m: VMModel, f: FunctionModel)
    requires
        m.frames.len() <= FRAMES_MAX,
    ensures
        step_spec(m).0.frames.len() <= FRAMES_MAX,
        load_spec(m, f).0.frames.len() <= FRAMES_MAX,
{
}

proof fn lemma_execute_waits_exactly_for_work(m: VMModel, instruction: Instruction)
    requires
        m.pending is None,
    ensures
        (execute_spec(m, instruction).0.pending is Some) <==> asks_for_work(execute_spec(m, instruction).1),
{
    match instruction {
        Instruction::Call(n) => {},
        Instruction::Add => {},
        Instruction::Equal => {},
        Instruction::Return => {},
        _ => {},
    }
}

/// The machine waits for an answer exactly when a step asked for outside
/// work, and an answer ends the wait.
pub proof fn law_waits_exactly_for_work(m: VMModel, e: EventModel)
    requires
        m.pending is None,
    ensures
        (step_spec(m).0.pending is Some) <==> asks_for_work(step_spec(m).1),
        resume_spec(m, e).pending is None,
{
    if m.frames.len() > 0 && 0 <= m.top().ip < m.top().function.chunk.code.len() {
        let m1 = m.with_top_ip(m.top().ip + 1);
        lemma_execute_waits_exactly_for_work(m1, m.top().function.chunk.code[m.top().ip]);
    }
}

/// A runtime error that is reported ends the run and empties both stacks.
pub proof fn law_error_report_ends_run(m: VMModel)
    ensures
        step_spec(m).0.stderr != m.stderr ==> {
            &&& step_spec(m).1 == ActionModel::Finished(Err(ArcError::RuntimeError))
            &&& step_spec(m).0.frames.len() == 0
            &&& step_spec(m).0.stack.len() == 0
        },
{
}

/// A run that ends in a runtime error leaves both stacks empty, and a run
/// that ends leaves no frame: the machine is ready for the next program.
pub proof fn law_finished_run_leaves_no_frames(m: VMModel)
    ensures
        step_spec(m).1 matches ActionModel::Finished(r) ==> step_spec(m).0.frames.len() == 0
            && (r is Err ==> step_spec(m).0.stack.len() == 0),
{
    if m.frames.len() > 0 && 0 <= m.top().ip < m.top().function.chunk.code.len() {
        let m1 = m.with_top_ip(m.top().ip + 1);
        let instruction = m.top().function.chunk.code[m.top().ip];
        if let Instruction::Call(n) = instruction {
            if n + 1 <= m1.stack.len() {
                if let ValueModel::Native(native) = m1.peek(n as int) {
                    assert(native_spec(m1, native.kind, n as int).1 matches ActionModel::Finished(r) ==> native_spec(m1, native.kind, n as int).0.frames.len() == 0);
                }
            }
        }
    }
}

/// Equality of values is symmetric.
pub proof fn law_equal_values_symmetric(a: ValueModel, b: ValueModel)
    ensures
        equal_values(a, b) == equal_values(b, a),
{
}

/// Two strings are equal exactly when they hold the same bytes.
pub proof fn law_strings_equal_by_contents(x: Seq<u8>, y: Seq<u8>)
    ensures
        equal_values(ValueModel::String(x), ValueModel::String(y)) == Some(x =~= y),
        equal_values(ValueModel::String(x), ValueModel::String(x)) == Some(true),
{
}

/// Apart from numbers (compared by the caller) and natives (never equal),
/// `==` holds exactly between identical values, and never between values of
/// two different kinds.
pub proof fn law_equal_values_is_identity(a: ValueModel, b: ValueModel)
    requires
        !(a is Number && b is Number),
        !(a is Native && b is Native),
    ensures
        equal_values(a, b) == Some(a == b),
        kind_name(a) != kind_name(b) ==> equal_values(a, b) == Some(false),
{
    reveal_strlit("boolean");
    reveal_strlit("number");
    reveal_strlit("nil");
    reveal_strlit("string");
    reveal_strlit("closure");
    reveal_strlit("function");
    reveal_strlit("native");
}

/// A local that is written is the local that is read: after `SetLocal(i)` in
/// a frame, the assigned value (the top of the stack) stays on top, and
/// `GetLocal(i)` in the same frame pushes that value, whatever the frame's
/// base slot.
pub proof fn law_local_read_after_write(m: VMModel, i: usize)
    requires
        m.frames.len() > 0,
        m.stack.len() > 0,
        0 <= m.top().slot,
        m.top().slot + i < m.stack.len(),
    ensures
        execute_spec(m, Instruction::SetLocal(i)).1 == ActionModel::Continue,
        execute_spec(m, Instruction::SetLocal(i)).0.stack.len() == m.stack.len(),
        execute_spec(m, Instruction::SetLocal(i)).0.peek(0) == m.peek(0),
        execute_spec(execute_spec(m, Instruction::SetLocal(i)).0, Instruction::GetLocal(i)).1
            == ActionModel::Continue,
        execute_spec(execute_spec(m, Instruction::SetLocal(i)).0, Instruction::GetLocal(i)).0.stack
            == execute_spec(m, Instruction::SetLocal(i)).0.stack.push(m.peek(0)),
        forall|j: int|
            0 <= j < m.stack.len() && j != m.top().slot + i && j != m.stack.len() - 1
                ==> #[trigger] execute_spec(m, Instruction::SetLocal(i)).0.stack[j] == m.stack[j],
{
    let m1 = execute_spec(m, Instruction::SetLocal(i)).0;
    assert(m1.frames == m.frames);
    assert(m1.stack[m.top().slot + i] == m.peek(0));
}

/// Reading a global gives back the value it was defined with: defining the
/// global named by constant `i` and then reading it leaves the stack as it was.
pub proof fn law_global_read_after_define(m: VMModel, i: usize)
    requires
        m.frames.len() > 0,
        m.stack.len() > 0,
        constant_name(m, i as int) is Some,
    ensures
        execute_spec(m, Instruction::DefineGlobal(i)).1 == ActionModel::Continue,
        execute_spec(execute_spec(m, Instruction::DefineGlobal(i)).0, Instruction::GetGlobal(i)).1
            == ActionModel::Continue,
        execute_spec(execute_spec(m, Instruction::DefineGlobal(i)).0, Instruction::GetGlobal(i)).0.stack
            == m.stack,
{
    let m1 = execute_spec(m, Instruction::DefineGlobal(i)).0;
    assert(m1.frames == m.frames);
    assert(constant_name(m1, i as int) == constant_name(m, i as int));
    assert(m1.stack.push(m.peek(0)) =~= m.stack);
}

/// Code that is well formed (as the compiler makes it) never names a
/// missing constant and never jumps out of its function: `Constant`, `Jump`
/// and `Loop` never fault, `DefineGlobal` defines its global and
/// `JumpIfFalse` goes on whenever the stack holds a value, and `GetGlobal`
/// and `SetGlobal` always find the name they look up.
pub proof fn law_well_formed_code_never_faults(m: VMModel)
    requires
        m.frames.len() > 0,
        0 <= m.top().ip < m.top().function.chunk.code.len() <= usize::MAX,
        function_refs_ok(m.top().function),
    ensures
        m.top().function.chunk.code[m.top().ip] is Constant ==> step_spec(m).1 != ActionModel::Fault,
        m.top().function.chunk.code[m.top().ip] is Jump ==> step_spec(m).1 == ActionModel::Continue,
        m.top().function.chunk.code[m.top().ip] is Loop ==> step_spec(m).1 == ActionModel::Continue,
        m.top().function.chunk.code[m.top().ip] is JumpIfFalse && m.stack.len() > 0 ==> step_spec(m).1
            == ActionModel::Continue,
        m.top().function.chunk.code[m.top().ip] is DefineGlobal && m.stack.len() > 0 ==> step_spec(m).1
            == ActionModel::Continue,
        m.top().function.chunk.code[m.top().ip] matches Instruction::GetGlobal(k) ==> constant_name(m, k as int) is Some,
        m.top().function.chunk.code[m.top().ip] matches Instruction::SetGlobal(k) ==> constant_name(m, k as int) is Some,
{
    let k = m.top().function.chunk;
    let ip = m.top().ip;
    assert(operand_ok(k.code[ip], k.constants));
    assert(jump_lands(k.code[ip], ip, k.code.len() as int));
    let m1 = m.with_top_ip(ip + 1);
    assert(m1.top().function == m.top().function);
}

/// A value that holds a function holds a well-formed one.
pub open spec fn value_ok(v: ValueModel) -> bool {
    match v {
        ValueModel::Closure(f) => function_refs_ok(f),
        ValueModel::Function(f) => function_refs_ok(f),
        _ => true,
    }
}

/// Every function the machine can reach (in a frame, on the stack or in a
/// global) is well formed.
pub open spec fn machine_ok(m: VMModel) -> bool {
    &&& forall|i: int|
        #![trigger m.frames[i]]
        0 <= i < m.frames.len() ==> function_refs_ok(m.frames[i].function) && 0 <= m.frames[i].slot
    &&& forall|i: int| 0 <= i < m.stack.len() ==> value_ok(#[trigger] m.stack[i])
    &&& forall|name: Seq<u8>| #[trigger] m.globals.contains_key(name) ==> value_ok(m.globals[name])
}

proof fn lemma_runtime_error_keeps_machine_ok(m: VMModel, message: Seq<u8>)
    requires
        machine_ok(m),
    ensures
        machine_ok(runtime_error(m, message).0),
{
}

proof fn lemma_call_keeps_machine_ok(m: VMModel, n: int)
    requires
        machine_ok(m),
        n >= 0,
    ensures
        machine_ok(call_value_spec(m, n).0),
{
    if n + 1 <= m.stack.len() {
        let callee = m.peek(n);
        assert(value_ok(m.stack[m.stack.len() - 1 - n]));
        match callee {
            ValueModel::Closure(g) => {
                lemma_runtime_error_keeps_machine_ok(m, "Expected ".spec_bytes() + decimal(g.arity as nat) + " arguments but got ".spec_bytes() + decimal(n as nat) + ".".spec_bytes());
                lemma_runtime_error_keeps_machine_ok(m, "Stack overflow.".spec_bytes());
            },
            ValueModel::Function(g) => {
                lemma_runtime_error_keeps_machine_ok(m, "Expected ".spec_bytes() + decimal(g.arity as nat) + " arguments but got ".spec_bytes() + decimal(n as nat) + ".".spec_bytes());
                lemma_runtime_error_keeps_machine_ok(m, "Stack overflow.".spec_bytes());
            },
            ValueModel::Native(native) => {
                let pivot = m.stack.len() - n - 1;
                let rest = m.stack.subrange(0, pivot);
                assert forall|i: int| 0 <= i < rest.len() implies value_ok(#[trigger] rest[i]) by {
                    assert(rest[i] == m.stack[i]);
                }
            },
            _ => {
                lemma_runtime_error_keeps_machine_ok(m, "Can only call functions and classes.".spec_bytes());
            },
        }
    }
}

proof fn lemma_execute_keeps_machine_ok(m: VMModel, instruction: Instruction)
    requires
        machine_ok(m),
        m.frames.len() > 0,
    ensures
        machine_ok(execute_spec(m, instruction).0),
{
    let k = m.top().function.chunk;
    assert(function_refs_ok(m.frames[m.frames.len() - 1].function) && 0 <= m.top().slot);
    lemma_constants_refs_ok_each(k.constants);
    let len = m.stack.len();
    match instruction {
        Instruction::Constant(i) => {
            if i < k.constants.len() {
                assert(constant_refs_ok(k.constants[i as int]));
            }
        },
        Instruction::Pop => {
            if len > 0 {
                assert forall|j: int| 0 <= j < m.pop().stack.len() implies value_ok(#[trigger] m.pop().stack[j]) by {
                    assert(m.pop().stack[j] == m.stack[j]);
                }
            }
        },
        Instruction::GetLocal(i) => {
            if m.top().slot + i < len {
                assert(value_ok(m.stack[m.top().slot + i]));
            }
        },
        Instruction::SetLocal(i) => {
            if len > 0 {
                assert(value_ok(m.stack[len - 1]));
            }
        },
        Instruction::DefineGlobal(i) => {
            if len > 0 {
                assert(value_ok(m.stack[len - 1]));
                assert forall|j: int| 0 <= j < m.pop().stack.len() implies value_ok(#[trigger] m.pop().stack[j]) by {
                    assert(m.pop().stack[j] == m.stack[j]);
                }
            }
        },
        Instruction::SetGlobal(i) => {
            if len > 0 {
                assert(value_ok(m.stack[len - 1]));
            }
        },
        Instruction::Call(n) => {
            lemma_call_keeps_machine_ok(m, n as int);
        },
        Instruction::Return => {
            if len > 0 {
                let frames = m.frames.drop_last();
                assert forall|j: int| 0 <= j < frames.len() implies function_refs_ok(#[trigger] frames[j].function) && 0 <= frames[j].slot by {
                    assert(function_refs_ok(m.frames[j].function) && 0 <= m.frames[j].slot);
                    assert(frames[j] == m.frames[j]);
                }
                assert(value_ok(m.stack[len - 1]));
                let slot = m.top().slot;
                let kept = if slot < len - 1 {
                    m.stack.drop_last().subrange(0, slot)
                } else {
                    m.stack.drop_last()
                };
                assert forall|j: int| 0 <= j < kept.len() implies value_ok(#[trigger] kept[j]) by {
                    assert(kept[j] == m.stack[j]);
                }
                if len >= 2 {
                    let popped = m.pop().pop().stack;
                    assert forall|j: int| 0 <= j < popped.len() implies value_ok(#[trigger] popped[j]) by {
                        assert(popped[j] == m.stack[j]);
                    }
                }
            }
        },
        _ => {
            if len >= 2 {
                let popped = m.pop().pop().stack;
                assert forall|j: int| 0 <= j < popped.len() implies value_ok(#[trigger] popped[j]) by {
                    assert(popped[j] == m.stack[j]);
                }
            }
            if len >= 1 {
                assert forall|j: int| 0 <= j < m.pop().stack.len() implies value_ok(#[trigger] m.pop().stack[j]) by {
                    assert(m.pop().stack[j] == m.stack[j]);
                }
            }
        },
    }
}

/// The machine only ever runs well-formed code: starting from a machine
/// whose functions are all well formed, loading a well-formed script, taking
/// a step or answering an action keeps every reachable function well formed.
/// With `law_well_formed_code_never_faults`, code the compiler made never
/// faults on an operand or a jump.
pub proof fn law_machine_runs_well_formed_code(m: VMModel, f: FunctionModel, e: EventModel)
    requires
        machine_ok(m),
    ensures
        machine_ok(initial_model()),
        machine_ok(step_spec(m).0),
        machine_ok(resume_spec(m, e)),
        function_refs_ok(f) ==> machine_ok(load_spec(m, f).0),
{
    if m.frames.len() > 0 && 0 <= m.top().ip < m.top().function.chunk.code.len() {
        let m1 = m.with_top_ip(m.top().ip + 1);
        assert forall|i: int| 0 <= i < m1.frames.len() implies function_refs_ok(#[trigger] m1.frames[i].function) && 0 <= m1.frames[i].slot by {
            assert(function_refs_ok(m.frames[i].function) && 0 <= m.frames[i].slot);
        }
        lemma_execute_keeps_machine_ok(m1, m.top().function.chunk.code[m.top().ip]);
    }
    if function_refs_ok(f) {
        let m2 = m.push(ValueModel::Closure(f));
        assert(value_ok(ValueModel::Closure(f)));
        assert forall|j: int| 0 <= j < m2.stack.len() implies value_ok(#[trigger] m2.stack[j]) by {
            if j < m.stack.len() {
                assert(m2.stack[j] == m.stack[j]);
            }
        }
        lemma_runtime_error_keeps_machine_ok(m2, "Expected ".spec_bytes() + decimal(f.arity as nat) + " arguments but got ".spec_bytes() + decimal(0) + ".".spec_bytes());
        lemma_runtime_error_keeps_machine_ok(m2, "Stack overflow.".spec_bytes());
    }
    assert(machine_ok(initial_model()));
}

// ---------------------------------------------------------------------------
// The machine.

/// The virtual machine: call frames, value stack, globals and output.
pub struct VM {
    frames: Vec<CallFrame>,
    stack: Vec<Value>,
    globals: Globals,
    pending: Option<Pending>,
    stdout: Vec<u8>,
    stderr: Vec<u8>,
}

pub open spec fn frame_model(f: CallFrame) -> FrameModel {
    FrameModel { function: f.closure.function@, ip: f.ip as int, slot: f.slot as int }
}

pub open spec fn frames_model(frames: Seq<CallFrame>) -> Seq<FrameModel> {
    frames.map_values(|f: CallFrame| frame_model(f))
}

pub open spec fn stack_model(stack: Seq<Value>) -> Seq<ValueModel> {
    stack.map_values(|v: Value| v@)
}

impl VM {
    /// The machine as a mathematical object.
    pub closed spec fn model(&self) -> VMModel {
        VMModel {
            frames: frames_model(self.frames@),
            stack: stack_model(self.stack@),
            globals: self.globals.view(),
            pending: self.pending,
            stdout: self.stdout@,
            stderr: self.stderr@,
        }
    }

    pub closed spec fn wf(&self) -> bool {
        self.globals.wf()
    }

    fn push_value(&mut self, v: Value)
        requires
            old(self).wf(),
        ensures
            final(self).wf(),
            final(self).model() == old(self).model().push(v@),
    {
        let ghost before = self.stack@;
        self.stack.push(v);
        proof {
            assert(stack_model(self.stack@) =~= stack_model(before).push(v@));
        }
    }

    fn pop_value(&mut self) -> (v: Value)
        requires
            old(self).wf(),
            old(self).model().stack.len() > 0,
        ensures
            final(self).wf(),
            v@ == old(self).model().peek(0),
            final(self).model() == old(self).model().pop(),
    {
        let ghost before = self.stack@;
        let v = self.stack.pop().unwrap();
        proof {
            assert(stack_model(self.stack@) =~= stack_model(before).drop_last());
        }
        v
    }

    fn set_top_ip(&mut self, ip: usize)
        requires
            old(self).wf(),
            old(self).model().frames.len() > 0,
        ensures
            final(self).wf(),
            final(self).model() == old(self).model().with_top_ip(ip as int),
    {
        let mut frame = self.frames.pop().unwrap();
        frame.ip = ip;
        self.frames.push(frame);
        proof {
            let m = old(self).model();
            assert(frames_model(self.frames@) =~= m.with_top_ip(ip as int).frames);
        }
    }

    fn write_trace_line(&mut self, frame_index: usize)
        requires
            old(self).wf(),
            frame_index < old(self).model().frames.len(),
            frames_traceable(old(self).model().frames),
        ensures
            final(self).wf(),
            final(self).model() == (VMModel {
                stderr: old(self).model().stderr + trace_line(
                    old(self).model().frames[frame_index as int],
                ),
                ..old(self).model()
            }),
    {
        let ghost f = self.model().frames[frame_index as int];
        assert(1 <= f.ip <= f.function.chunk.lines.len());
        let frame = &self.frames[frame_index];
        let line = frame.closure.function.chunk.lines[frame.ip - 1];
        let ghost start = self.stderr@;
        push_text(&mut self.stderr, "[line ");
        push_decimal(&mut self.stderr, line as u64);
        push_text(&mut self.stderr, "] in ");
        let frame = &self.frames[frame_index];
        if frame.closure.function.name.len() == 0 {
            push_text(&mut self.stderr, "script");
        } else {
            let frame = &self.frames[frame_index];
            push_bytes(&mut self.stderr, frame.closure.function.name.as_slice());
            push_text(&mut self.stderr, "()");
        }
        push_text(&mut self.stderr, "\n");
        proof {
            assert(self.stderr@ =~= start + trace_line(f));
        }
    }

    /// Reports a runtime error: the message, then the stack trace.
    fn runtime_error(&mut self, message: &Vec<u8>) -> (action: Action)
        requires
            old(self).wf(),
        ensures
            final(self).wf(),
            action@ == runtime_error(old(self).model(), message@).1,
            final(self).model() == runtime_error(
                old(self).model(),
                message@,
            ).0,
    {
        let ghost m = self.model();
        let mut i: usize = 0;
        while i < self.frames.len()
            invariant
                self.wf(),
                self.model() == m,
                m == old(self).model(),
                i <= m.frames.len(),
                forall|j: int|
                    0 <= j < i ==> 1 <= (#[trigger] m.frames[j]).ip <= m.frames[j].function.chunk.lines.len(),
            decreases m.frames.len() - i,
        {
            let frame = &self.frames[i];
            if frame.ip < 1 || frame.ip > frame.closure.function.chunk.lines.len() {
                proof {
                    assert(m.frames[i as int] == frame_model(self.frames@[i as int]));
                    assert(!frames_traceable(m.frames));
                }
                return Action::Fault;
            }
            i += 1;
        }
        push_bytes(&mut self.stderr, message.as_slice());
        push_text(&mut self.stderr, "\n");
        let ghost base = self.stderr@;
        let ghost fr = m.frames;
        let mut i: usize = self.frames.len();
        proof {
            assert(fr.subrange(0, fr.len() as int) =~= fr);
        }
        while i > 0
            invariant
                self.wf(),
                i <= fr.len(),
                fr == m.frames,
                frames_traceable(fr),
                self.model() == (VMModel { stderr: self.stderr@, ..m }),
                self.stderr@ + trace(fr.subrange(0, i as int)) == base + trace(fr),
            decreases i,
        {
            let ghost before = self.stderr@;
            self.write_trace_line(i - 1);
            proof {
                let sub = fr.subrange(0, i as int);
                assert(sub.drop_last() =~= fr.subrange(0, i - 1));
                assert(sub.last() == fr[i - 1]);
                assert(trace(sub) == trace_line(fr[i - 1]) + trace(fr.subrange(0, i - 1)));
                assert(self.stderr@ + trace(fr.subrange(0, i - 1)) =~= before + trace(sub));
            }
            i -= 1;
        }
        proof {
            assert(fr.subrange(0, 0) =~= Seq::<FrameModel>::empty());
            assert(self.stderr@ =~= m.stderr + message@ + "\n".spec_bytes() + trace(fr));
        }
        self.stack.clear();
        self.frames.clear();
        proof {
            assert(stack_model(self.stack@) =~= Seq::<ValueModel>::empty());
            assert(frames_model(self.frames@) =~= Seq::<FrameModel>::empty());
        }
        Action::Finished(Err(ArcError::RuntimeError))
    }

    fn call(&mut self, function: Function, arg_count: usize) -> (action: Action)
        requires
            old(self).wf(),
            arg_count + 1 <= old(self).model().stack.len(),
        ensures
            final(self).wf(),
            action@ == call_spec(old(self).model(), function@, arg_count as int).1,
            final(self).model() == call_spec(
                old(self).model(),
                function@,
                arg_count as int,
            ).0,
    {
        if arg_count != function.arity {
            let mut message: Vec<u8> = Vec::new();
            push_text(&mut message, "Expected ");
            push_decimal(&mut message, function.arity as u64);
            push_text(&mut message, " arguments but got ");
            push_decimal(&mut message, arg_count as u64);
            push_text(&mut message, ".");
            return self.runtime_error(&message);
        }
        if self.frames.len() == FRAMES_MAX {
            let mut message: Vec<u8> = Vec::new();
            push_text(&mut message, "Stack overflow.");
            return self.runtime_error(&message);
        }
        let ghost before = self.frames@;
        let ghost g = function@;
        let frame = CallFrame::new(Closure::new(function), self.stack.len() - arg_count - 1);
        self.frames.push(frame);
        proof {
            assert(frames_model(self.frames@) =~= frames_model(before).push(
                FrameModel { function: g, ip: 0, slot: old(self).model().stack.len() - arg_count - 1 },
            ));
        }
        Action::Continue
    }

    /// Appends how `v` prints; returns false, appending nothing, for a number.
    fn write_display(out: &mut Vec<u8>, v: &Value) -> (shown: bool)
        ensures
            match display(v@) {
                Some(t) => shown && final(out)@ == old(out)@ + t,
                None => !shown && final(out)@ == old(out)@,
            },
    {
        match v {
            Value::Boolean(b) => {
                if *b {
                    push_text(out, "true");
                } else {
                    push_text(out, "false");
                }
                true
            },
            Value::Number(_) => false,
            Value::Nil => {
                push_text(out, "nil");
                true
            },
            Value::String(text) => {
                push_bytes(out, text.as_slice());
                true
            },
            Value::Closure(c) => {
                let ghost start = out@;
                push_text(out, "<fn ");
                push_bytes(out, c.function.name.as_slice());
                push_text(out, ">");
                assert(out@ =~= start + ("<fn ".spec_bytes() + c.function.name@ + ">".spec_bytes()));
                true
            },
            Value::Function(f) => {
                let ghost start = out@;
                push_text(out, "<fn ");
                push_bytes(out, f.name.as_slice());
                push_text(out, ">");
                assert(out@ =~= start + ("<fn ".spec_bytes() + f.name@ + ">".spec_bytes()));
                true
            },
            Value::Native(_) => {
                push_text(out, "<native fn>");
                true
            },
        }
    }

    /// Ends the run after a built-in function got the wrong number of
    /// arguments.
    fn native_failed(&mut self) -> (action: Action)
        requires
            old(self).wf(),
        ensures
            final(self).wf(),
            action@ == native_failed(old(self).model()).1,
            final(self).model() == native_failed(old(self).model()).0,
    {
        self.stack.clear();
        self.frames.clear();
        proof {
            assert(stack_model(self.stack@) =~= Seq::<ValueModel>::empty());
            assert(frames_model(self.frames@) =~= Seq::<FrameModel>::empty());
        }
        Action::Finished(Err(ArcError::RuntimeError))
    }

    fn call_native(&mut self, kind: NativeKind, arg_count: usize) -> (action: Action)
        requires
            old(self).wf(),
            arg_count + 1 <= old(self).model().stack.len(),
        ensures
            final(self).wf(),
            action@ == native_spec(old(self).model(), kind, arg_count as int).1,
            final(self).model() == native_spec(old(self).model(), kind, arg_count as int).0,
    {
        let ghost m = self.model();
        let pivot = self.stack.len() - arg_count - 1;
        let args = self.stack.split_off(pivot);
        proof {
            assert(stack_model(self.stack@) =~= m.stack.subrange(0, pivot as int));
            assert(stack_model(args@) =~= m.stack.subrange(pivot as int, m.stack.len() as int));
        }
        match kind {
            NativeKind::Print => {
                if args.len() != 2 {
                    return self.native_failed();
                }
                assert(args@[1]@ == stack_model(args@)[1]);
                if Self::write_display(&mut self.stdout, &args[1]) {
                    push_text(&mut self.stdout, "\n");
                    self.push_value(Value::Nil);
                    Action::Continue
                } else {
                    self.pending = Some(Pending::PrintThenNil);
                    match &args[1] {
                        Value::Number(bits) => Action::FormatNumber(*bits),
                        _ => Action::Fault,
                    }
                }
            },
            NativeKind::Clock => {
                if args.len() != 1 {
                    return self.native_failed();
                }
                self.pending = Some(Pending::Number);
                Action::Clock
            },
            NativeKind::TypeOf => {
                if args.len() != 2 {
                    return self.native_failed();
                }
                assert(args@[1]@ == stack_model(args@)[1]);
                let mut name: Vec<u8> = Vec::new();
                match &args[1] {
                    Value::Boolean(_) => push_text(&mut name, "boolean"),
                    Value::Number(_) => push_text(&mut name, "number"),
                    Value::Nil => push_text(&mut name, "nil"),
                    Value::String(_) => push_text(&mut name, "string"),
                    Value::Closure(_) => push_text(&mut name, "closure"),
                    Value::Function(_) => push_text(&mut name, "function"),
                    Value::Native(_) => push_text(&mut name, "native"),
                }
                self.push_value(Value::String(name));
                Action::Continue
            },
        }
    }

    fn call_value(&mut self, arg_count: usize) -> (action: Action)
        requires
            old(self).wf(),
        ensures
            final(self).wf(),
            action@ == call_value_spec(old(self).model(), arg_count as int).1,
            final(self).model() == call_value_spec(
                old(self).model(),
                arg_count as int,
            ).0,
    {
        if arg_count >= self.stack.len() {
            return Action::Fault;
        }
        let index = self.stack.len() - 1 - arg_count;
        assert(self.model().peek(arg_count as int) == self.stack@[index as int]@);
        match &self.stack[index] {
            Value::Closure(c) => {
                let f = clone_function(&c.function);
                self.call(f, arg_count)
            },
            Value::Function(g) => {
                let f = clone_function(g);
                self.call(f, arg_count)
            },
            Value::Native(native) => {
                let kind = native.kind;
                self.call_native(kind, arg_count)
            },
            _ => {
                let mut message: Vec<u8> = Vec::new();
                push_text(&mut message, "Can only call functions and classes.");
                self.runtime_error(&message)
            },
        }
    }

    fn arithmetic(&mut self, op: ArithmeticOp) -> (action: Action)
        requires
            old(self).wf(),
        ensures
            final(self).wf(),
            action@ == arithmetic_spec(old(self).model(), op).1,
            final(self).model() == arithmetic_spec(
                old(self).model(),
                op,
            ).0,
    {
        let len = self.stack.len();
        if len < 2 {
            return Action::Fault;
        }
        assert(self.model().peek(1) == self.stack@[len - 2]@);
        assert(self.model().peek(0) == self.stack@[len - 1]@);
        let operands = match (&self.stack[len - 2], &self.stack[len - 1]) {
            (Value::Number(l), Value::Number(r)) => Some((*l, *r)),
            _ => None,
        };
        match operands {
            Some((l, r)) => {
                self.pop_value();
                self.pop_value();
                self.pending = Some(Pending::Number);
                Action::Arithmetic(op, l, r)
            },
            None => {
                let mut message: Vec<u8> = Vec::new();
                push_text(&mut message, "Operands must be numbers.");
                self.runtime_error(&message)
            },
        }
    }

    fn comparison(&mut self, op: ComparisonOp) -> (action: Action)
        requires
            old(self).wf(),
        ensures
            final(self).wf(),
            action@ == comparison_spec(old(self).model(), op).1,
            final(self).model() == comparison_spec(
                old(self).model(),
                op,
            ).0,
    {
        let len = self.stack.len();
        if len < 2 {
            return Action::Fault;
        }
        assert(self.model().peek(1) == self.stack@[len - 2]@);
        assert(self.model().peek(0) == self.stack@[len - 1]@);
        let operands = match (&self.stack[len - 2], &self.stack[len - 1]) {
            (Value::Number(l), Value::Number(r)) => Some((*l, *r)),
            _ => None,
        };
        match operands {
            Some((l, r)) => {
                self.pop_value();
                self.pop_value();
                self.pending = Some(Pending::Boolean);
                Action::Compare(op, l, r)
            },
            None => {
                let mut message: Vec<u8> = Vec::new();
                push_text(&mut message, "Operands must be numbers.");
                self.runtime_error(&message)
            },
        }
    }

    /// The name held by constant `index` of the current chunk, if it is a string.
    fn constant_name(&self, index: usize) -> (name: Option<Vec<u8>>)
        requires
            self.model().frames.len() > 0,
        ensures
            match name {
                Some(n) => constant_name(self.model(), index as int) == Some(n@),
                None => constant_name(self.model(), index as int) is None,
            },
    {
        let top = self.frames.len() - 1;
        let chunk = &self.frames[top].closure.function.chunk;
        proof {
            lemma_constants_model(chunk.constants@);
        }
        if index >= chunk.constants.len() {
            return None;
        }
        match &chunk.constants[index] {
            Constant::String(text) => Some(crate::token::copy_bytes(text)),
            _ => None,
        }
    }

    /// Runs `instruction`; the current frame already points past it.
    fn execute(&mut self, instruction: Instruction) -> (action: Action)
        requires
            old(self).wf(),
            old(self).model().frames.len() > 0,
        ensures
            final(self).wf(),
            action@ == execute_spec(old(self).model(), instruction).1,
            final(self).model() == execute_spec(old(self).model(), instruction).0,
    {
        let ghost m = self.model();
        let top = self.frames.len() - 1;
        let len = self.stack.len();
        proof {
            lemma_constants_model(self.frames@[top as int].closure.function.chunk.constants@);
        }
        match instruction {
            Instruction::Constant(index) => {
                if index >= self.frames[top].closure.function.chunk.constants.len() {
                    return Action::Fault;
                }
                let c = clone_constant(&self.frames[top].closure.function.chunk.constants[index]);
                match c {
                    Constant::Number(text) => {
                        self.pending = Some(Pending::Number);
                        Action::ParseNumber(text)
                    },
                    Constant::String(text) => {
                        self.push_value(Value::String(text));
                        Action::Continue
                    },
                    Constant::Function(f) => {
                        self.push_value(Value::Function(f));
                        Action::Continue
                    },
                }
            },
            Instruction::Nil => {
                self.push_value(Value::Nil);
                Action::Continue
            },
            Instruction::True => {
                self.push_value(Value::Boolean(true));
                Action::Continue
            },
            Instruction::False => {
                self.push_value(Value::Boolean(false));
                Action::Continue
            },
            Instruction::Pop => {
                if len == 0 {
                    return Action::Fault;
                }
                self.pop_value();
                Action::Continue
            },
            Instruction::GetLocal(index) => {
                let slot = self.frames[top].slot;
                if index >= len || slot >= len - index {
                    return Action::Fault;
                }
                let v = clone_value(&self.stack[slot + index]);
                self.push_value(v);
                Action::Continue
            },
            Instruction::SetLocal(index) => {
                let slot = self.frames[top].slot;
                if len == 0 || index >= len || slot >= len - index {
                    return Action::Fault;
                }
                let v = clone_value(&self.stack[len - 1]);
                self.stack.set(slot + index, v);
                proof {
                    assert(stack_model(self.stack@) =~= m.stack.update(
                        slot + index,
                        m.peek(0),
                    ));
                }
                Action::Continue
            },
            Instruction::GetGlobal(index) => {
                if index >= self.frames[top].closure.function.chunk.constants.len() {
                    return Action::Fault;
                }
                match self.constant_name(index) {
                    Some(name) => {
                        let found = match self.globals.get(name.as_slice()) {
                            Some(v) => Some(clone_value(v)),
                            None => None,
                        };
                        match found {
                            Some(v) => {
                                self.push_value(v);
                                Action::Continue
                            },
                            None => {
                                let mut message: Vec<u8> = Vec::new();
                                push_text(&mut message, "Undefined variable '");
                                push_bytes(&mut message, name.as_slice());
                                push_text(&mut message, "'.");
                                self.runtime_error(&message)
                            },
                        }
                    },
                    None => Action::Continue,
                }
            },
            Instruction::DefineGlobal(index) => {
                match self.constant_name(index) {
                    Some(name) => {
                        if len == 0 {
                            return Action::Fault;
                        }
                        let v = self.pop_value();
                        self.globals.insert(name, v);
                        Action::Continue
                    },
                    None => Action::Fault,
                }
            },
            Instruction::SetGlobal(index) => {
                match self.constant_name(index) {
                    Some(name) => {
                        if len == 0 {
                            return Action::Fault;
                        }
                        let defined = self.globals.get(name.as_slice()).is_some();
                        if defined {
                            let v = clone_value(&self.stack[len - 1]);
                            self.globals.insert(name, v);
                            Action::Continue
                        } else {
                            let mut message: Vec<u8> = Vec::new();
                            push_text(&mut message, "Undefined variable '");
                            push_bytes(&mut message, name.as_slice());
                            push_text(&mut message, "'.");
                            self.runtime_error(&message)
                        }
                    },
                    None => Action::Fault,
                }
            },
            Instruction::Equal => {
                if len < 2 {
                    return Action::Fault;
                }
                let b = self.pop_value();
                let a = self.pop_value();
                match values_equal(&a, &b) {
                    Some(eq) => {
                        self.push_value(Value::Boolean(eq));
                        Action::Continue
                    },
                    None => {
                        self.pending = Some(Pending::Boolean);
                        match (a, b) {
                            (Value::Number(x), Value::Number(y)) => Action::Compare(
                                ComparisonOp::Equal,
                                x,
                                y,
                            ),
                            _ => Action::Fault,
                        }
                    },
                }
            },
            Instruction::Greater => self.comparison(ComparisonOp::Greater),
            Instruction::Less => self.comparison(ComparisonOp::Less),
            Instruction::Add => {
                if len < 2 {
                    return Action::Fault;
                }
                assert(m.peek(1) == self.stack@[len - 2]@);
                assert(m.peek(0) == self.stack@[len - 1]@);
                let (both_strings, both_numbers) = match (&self.stack[len - 2], &self.stack[len - 1]) {
                    (Value::String(_), Value::String(_)) => (true, false),
                    (Value::Number(_), Value::Number(_)) => (false, true),
                    _ => (false, false),
                };
                if both_strings {
                    let b = self.pop_value();
                    let a = self.pop_value();
                    match (a, b) {
                        (Value::String(mut a_text), Value::String(b_text)) => {
                            push_bytes(&mut a_text, b_text.as_slice());
                            self.push_value(Value::String(a_text));
                            Action::Continue
                        },
                        _ => Action::Fault,
                    }
                } else if both_numbers {
                    self.arithmetic(ArithmeticOp::Add)
                } else {
                    let mut message: Vec<u8> = Vec::new();
                    push_text(&mut message, "Operands must be two numbers or two strings.");
                    self.runtime_error(&message)
                }
            },
            Instruction::Subtract => self.arithmetic(ArithmeticOp::Subtract),
            Instruction::Multiply => self.arithmetic(ArithmeticOp::Multiply),
            Instruction::Divide => self.arithmetic(ArithmeticOp::Divide),
            Instruction::Not => {
                if len == 0 {
                    return Action::Fault;
                }
                let v = self.pop_value();
                proof {
                    lemma_falsey_model(v);
                }
                let falsey = v.is_falsey();
                self.push_value(Value::Boolean(falsey));
                Action::Continue
            },
            Instruction::Negate => {
                if len == 0 {
                    return Action::Fault;
                }
                assert(m.peek(0) == self.stack@[len - 1]@);
                let number = match &self.stack[len - 1] {
                    Value::Number(x) => Some(*x),
                    _ => None,
                };
                match number {
                    Some(x) => {
                        self.pop_value();
                        self.pending = Some(Pending::Number);
                        Action::Negate(x)
                    },
                    None => {
                        let mut message: Vec<u8> = Vec::new();
                        push_text(&mut message, "Operand must be a number.");
                        self.runtime_error(&message)
                    },
                }
            },
            Instruction::Print => {
                if len == 0 {
                    return Action::Fault;
                }
                let v = self.pop_value();
                if Self::write_display(&mut self.stdout, &v) {
                    push_text(&mut self.stdout, "\n");
                    Action::Continue
                } else {
                    self.pending = Some(Pending::Print);
                    match v {
                        Value::Number(bits) => Action::FormatNumber(bits),
                        _ => Action::Fault,
                    }
                }
            },
            Instruction::Jump(offset) => {
                let ip = self.frames[top].ip;
                match ip.checked_add(offset) {
                    Some(target) => {
                        self.set_top_ip(target);
                        Action::Continue
                    },
                    None => Action::Fault,
                }
            },
            Instruction::JumpIfFalse(offset) => {
                if len == 0 {
                    return Action::Fault;
                }
                proof {
                    lemma_falsey_model(self.stack@[len - 1]);
                }
                assert(m.peek(0) == self.stack@[len - 1]@);
                if self.stack[len - 1].is_falsey() {
                    let ip = self.frames[top].ip;
                    match ip.checked_add(offset) {
                        Some(target) => {
                            self.set_top_ip(target);
                            Action::Continue
                        },
                        None => Action::Fault,
                    }
                } else {
                    Action::Continue
                }
            },
            Instruction::Loop(offset) => {
                let ip = self.frames[top].ip;
                if offset > ip {
                    return Action::Fault;
                }
                self.set_top_ip(ip - offset);
                Action::Continue
            },
            Instruction::Call(arg_count) => self.call_value(arg_count),
            Instruction::Return => {
                if len == 0 || (top == 0 && len < 2) {
                    return Action::Fault;
                }
                let frame = self.frames.pop().unwrap();
                proof {
                    assert(frames_model(self.frames@) =~= m.frames.drop_last());
                }
                let result = self.pop_value();
                if self.frames.len() == 0 {
                    self.pop_value();
                    return Action::Finished(Ok(()));
                }
                self.stack.truncate(frame.slot);
                proof {
                    assert(stack_model(self.stack@) =~= if frame.slot < len - 1 {
                        m.stack.drop_last().subrange(0, frame.slot as int)
                    } else {
                        m.stack.drop_last()
                    });
                }
                self.push_value(result);
                Action::Continue
            },
        }
    }

    /// Runs the current frame's next instruction.
    pub fn step(&mut self) -> (action: Action)
        requires
            old(self).wf(),
            old(self).model().pending is None,
        ensures
            final(self).wf(),
            action@ == step_spec(old(self).model()).1,
            final(self).model() == step_spec(old(self).model()).0,
    {
        if self.frames.len() == 0 {
            return Action::Finished(Ok(()));
        }
        let top = self.frames.len() - 1;
        let ip = self.frames[top].ip;
        if ip >= self.frames[top].closure.function.chunk.code.len() {
            return Action::Fault;
        }
        let instruction = self.frames[top].closure.function.chunk.code[ip];
        self.set_top_ip(ip + 1);
        self.execute(instruction)
    }

    /// Completes the instruction that asked for outside work, with its answer.
    pub fn resume(&mut self, event: Event) -> (action: Action)
        requires
            old(self).wf(),
            old(self).model().pending matches Some(p) && event_fits(p, event@),
        ensures
            final(self).wf(),
            final(self).model() == resume_spec(old(self).model(), event@),
            action@ == ActionModel::Continue,
    {
        let pending = self.pending;
        self.pending = None;
        match (pending, event) {
            (Some(Pending::Number), Event::Number(x)) => self.push_value(Value::Number(x)),
            (Some(Pending::Boolean), Event::Boolean(b)) => self.push_value(Value::Boolean(b)),
            (Some(Pending::Print), Event::Text(text)) => {
                push_bytes(&mut self.stdout, text.as_slice());
                push_text(&mut self.stdout, "\n");
            },
            (Some(Pending::PrintThenNil), Event::Text(text)) => {
                push_bytes(&mut self.stdout, text.as_slice());
                push_text(&mut self.stdout, "\n");
                self.push_value(Value::Nil);
            },
            _ => {},
        }
        Action::Continue
    }

    /// Whether the machine waits for the answer to an action.
    pub fn is_waiting(&self) -> (waiting: bool)
        ensures
            waiting == (self.model().pending is Some),
    {
        self.pending.is_some()
    }

    /// Hands over the text written to the standard output and error streams
    /// since the last call, and empties the buffers.
    pub fn take_output(&mut self) -> (output: (Vec<u8>, Vec<u8>))
        requires
            old(self).wf(),
        ensures
            final(self).wf(),
            output.0@ == old(self).model().stdout,
            output.1@ == old(self).model().stderr,
            final(self).model() == (VMModel {
                stdout: Seq::empty(),
                stderr: Seq::empty(),
                ..old(self).model()
            }),
    {
        let mut out: Vec<u8> = Vec::new();
        let mut err: Vec<u8> = Vec::new();
        std::mem::swap(&mut out, &mut self.stdout);
        std::mem::swap(&mut err, &mut self.stderr);
        (out, err)
    }

    /// A machine with the built-in functions defined and nothing loaded.
    pub fn new() -> (vm: VM)
        ensures
            vm.wf(),
            vm.model() == initial_model(),
    {
        let mut vm = VM {
            frames: Vec::with_capacity(FRAMES_MAX),
            stack: Vec::with_capacity(FRAMES_MAX * LOCAL_MAX),
            globals: Globals::new(),
            pending: None,
            stdout: Vec::new(),
            stderr: Vec::new(),
        };
        proof {
            assert(stack_model(vm.stack@) =~= Seq::<ValueModel>::empty());
            assert(frames_model(vm.frames@) =~= Seq::<FrameModel>::empty());
        }
        vm.define_native("clock", Native::clock());
        vm.define_native("print", Native::print());
        vm.define_native("type_of", Native::type_of());
        vm
    }

    /// Defines the global `name` as a built-in function.
    fn define_native(&mut self, name: &str, native: Native)
        requires
            old(self).wf(),
        ensures
            final(self).wf(),
            final(self).model() == (VMModel {
                globals: old(self).model().globals.insert(name.spec_bytes(), ValueModel::Native(native)),
                ..old(self).model()
            }),
    {
        let mut key: Vec<u8> = Vec::new();
        push_text(&mut key, name);
        self.push_value(Value::String(crate::token::copy_bytes(&key)));
        self.push_value(Value::Native(native));
        self.globals.insert(key, Value::Native(native));
        self.pop_value();
        self.pop_value();
        proof {
            assert(self.model().stack =~= old(self).model().stack);
        }
    }

    /// Loads a compiled script: pushes it as a closure and calls it.
    pub fn load(&mut self, function: Function) -> (action: Action)
        requires
            old(self).wf(),
        ensures
            final(self).wf(),
            action@ == load_spec(old(self).model(), function@).1,
            final(self).model() == load_spec(
                old(self).model(),
                function@,
            ).0,
    {
        let script = clone_function(&function);
        self.push_value(Value::Closure(Closure::new(function)));
        self.call(script, 0)
    }

    /// Compiles `source` and loads it to run: afterwards `step` runs it.
    /// Diagnostics of a failed compilation go to the error output.
    pub fn interpret(&mut self, source: &str) -> (result: Result<(), ArcError>)
        requires
            old(self).wf(),
            line_count_fits(source.spec_bytes()),
            source.spec_bytes().len() + 1 <= i32::MAX,
        ensures
            final(self).wf(),
            result matches Err(e) ==> e == ArcError::CompileError && final(self).model().stderr.len()
                > old(self).model().stderr.len() && final(self).model() == (VMModel {
                stderr: final(self).model().stderr,
                ..old(self).model()
            }) && final(self).model().stderr.subrange(0, old(self).model().stderr.len() as int)
                == old(self).model().stderr && is_reports(
                final(self).model().stderr.subrange(
                    old(self).model().stderr.len() as int,
                    final(self).model().stderr.len() as int,
                ),
            ),
            has_lexical_error(source.spec_bytes(), 0) ==> result is Err,
            token_start(source.spec_bytes(), 0) == source.spec_bytes().len() ==> result is Ok && exists|
                f: FunctionModel,
            |
                #[trigger] is_compiled_script(f) && f.chunk.code == seq![Instruction::Nil, Instruction::Return]
                    && final(self).model() == load_spec(old(self).model(), f).0,
            result is Ok ==> exists|f: FunctionModel|
                #[trigger] is_compiled_script(f) && function_refs_ok(f) && final(self).model() == load_spec(
                    old(self).model(),
                    f,
                ).0,
    {
        let parser = Parser::new(source);
        let (result, diagnostics) = parser.compile();
        match result {
            Ok(function) => {
                let ghost f = function@;
                let _ = self.load(function);
                assert(is_compiled_script(f) && function_refs_ok(f));
                Ok(())
            },
            Err(e) => {
                let ghost before = self.stderr@;
                push_bytes(&mut self.stderr, diagnostics.as_slice());
                proof {
                    assert(self.stderr@.subrange(0, before.len() as int) =~= before);
                    assert(self.stderr@.subrange(before.len() as int, self.stderr@.len() as int) =~= diagnostics@);
                }
                Err(e)
            },
        }
    }

    /// The value stack, bottom first.
    pub fn stack(&self) -> (stack: &Vec<Value>)
        ensures
            stack_model(stack@) == self.model().stack,
    {
        &self.stack
    }

    /// The function that the current frame runs, and its next instruction's offset.
    pub fn current_frame(&self) -> (frame: Option<(&Function, usize)>)
        ensures
            match frame {
                Some((f, ip)) => self.model().frames.len() > 0 && f@ == self.model().top().function
                    && ip == self.model().top().ip,
                None => self.model().frames.len() == 0,
            },
    {
        if self.frames.len() == 0 {
            return None;
        }
        let top = self.frames.len() - 1;
        Some((&self.frames[top].closure.function, self.frames[top].ip))
    }
}

/// Whether two values are equal; `None` when both are numbers.
pub fn values_equal(a: &Value, b: &Value) -> (eq: Option<bool>)
    ensures
        eq == equal_values(a@, b@),
{
    match (a, b) {
        (Value::Number(_), Value::Number(_)) => None,
        (Value::Native(_), Value::Native(_)) => Some(false),
        (Value::Boolean(x), Value::Boolean(y)) => Some(*x == *y),
        (Value::Nil, Value::Nil) => Some(true),
        (Value::String(x), Value::String(y)) => Some(crate::scanner::bytes_equal(x.as_slice(), y.as_slice())),
        (Value::Closure(f), Value::Closure(g)) => Some(function_equal(&f.function, &g.function)),
        (Value::Function(f), Value::Function(g)) => Some(function_equal(f, g)),
        _ => Some(false),
    }
}

} // verus!
