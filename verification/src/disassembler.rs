//! Listings of bytecode, one line per instruction.
//!
//! A line is text, except that a number constant is shown by its value,
//! which the caller formats (see `LineValue`).

use vstd::prelude::*;
use vstd::string::StringSliceAdditionalSpecFns;

use crate::chunk::Chunk;
use crate::instruction::Instruction;
use crate::text::{decimal, push_bytes, push_decimal, push_text};
use crate::value::{ChunkModel, ConstantModel, Constant, lemma_constants_model};

verus! {

/// `s` padded on the left with `fill` to at least `width` bytes.
pub open spec fn pad_left(s: Seq<u8>, width: nat, fill: u8) -> Seq<u8> {
    if s.len() >= width {
        s
    } else {
        Seq::new((width - s.len()) as nat, |i: int| fill) + s
    }
}

/// `s` padded on the right with spaces to at least `width` bytes.
pub open spec fn pad_right(s: Seq<u8>, width: nat) -> Seq<u8> {
    if s.len() >= width {
        s
    } else {
        s + Seq::new((width - s.len()) as nat, |i: int| 32u8)
    }
}

/// The decimal text of a signed number.
pub open spec fn signed_decimal(v: int) -> Seq<u8> {
    if v < 0 {
        "-".spec_bytes() + decimal((-v) as nat)
    } else {
        decimal(v as nat)
    }
}

/// Where the disassembler says a jump lands: computed, as the listing
/// always has, in 8-bit arithmetic; `None` where that arithmetic overflows.
pub open spec fn jump_target(offset: usize, jump: usize, sign: i8) -> Option<i8> {
    let a = offset as i8;
    let b = jump as i8;
    let c = b * sign;
    if !(i8::MIN <= c <= i8::MAX) {
        None
    } else {
        let d = a + c;
        if !(i8::MIN <= d <= i8::MAX) {
            None
        } else {
            let e = d + 1;
            if !(i8::MIN <= e <= i8::MAX) {
                None
            } else {
                Some(e as i8)
            }
        }
    }
}

/// The part of a line after its text.
pub enum LineValue {
    /// The line is complete.
    Done,
    /// The line goes on with the value of this number literal, then a quote.
    Number(Vec<u8>),
    /// A constant index outside the chunk, or a jump target that overflows
    /// the listing's 8-bit arithmetic: no line can be made.
    Fault,
}

pub enum LineValueModel {
    Done,
    Number(Seq<u8>),
    Fault,
}

/// One line of a listing.
pub struct Line {
    pub text: Vec<u8>,
    pub value: LineValue,
}

pub struct LineModel {
    pub text: Seq<u8>,
    pub value: LineValueModel,
}

pub open spec fn line_value_model(v: LineValue) -> LineValueModel {
    match v {
        LineValue::Done => LineValueModel::Done,
        LineValue::Number(t) => LineValueModel::Number(t@),
        LineValue::Fault => LineValueModel::Fault,
    }
}

impl View for Line {
    type V = LineModel;

    open spec fn view(&self) -> LineModel {
        LineModel {
            text: self.text@,
            value: line_value_model(self.value),
        }
    }
}

/// The offset and line columns of the line for the instruction at `offset`.
pub open spec fn line_prefix(chunk: ChunkModel, offset: int) -> Seq<u8> {
    pad_left(decimal(offset as nat), 4, 48) + " ".spec_bytes() + if offset > 0 && chunk.lines[offset]
        == chunk.lines[offset - 1] {
        "   | ".spec_bytes()
    } else {
        pad_left(decimal(chunk.lines[offset] as nat), 4, 32) + " ".spec_bytes()
    }
}

/// An instruction with no operand.
pub open spec fn simple_line(name: Seq<u8>) -> LineModel {
    LineModel { text: name + "\n".spec_bytes(), value: LineValueModel::Done }
}

/// An instruction whose operand is a slot or a count.
pub open spec fn byte_line(name: Seq<u8>, index: usize) -> LineModel {
    LineModel {
        text: pad_right(name, 16) + " ".spec_bytes() + pad_left(decimal(index as nat), 4, 32)
            + "\n".spec_bytes(),
        value: LineValueModel::Done,
    }
}

/// An instruction whose operand is a constant: it is shown after its index.
pub open spec fn constant_line(chunk: ChunkModel, name: Seq<u8>, index: usize) -> LineModel {
    let head = pad_right(name, 16) + " ".spec_bytes() + pad_left(decimal(index as nat), 4, 32)
        + " '".spec_bytes();
    if index >= chunk.constants.len() {
        LineModel { text: head, value: LineValueModel::Fault }
    } else {
        match chunk.constants[index as int] {
            ConstantModel::Number(t) => LineModel { text: head, value: LineValueModel::Number(t) },
            ConstantModel::String(t) => LineModel {
                text: head + t + "'\n".spec_bytes(),
                value: LineValueModel::Done,
            },
            ConstantModel::Function(f) => LineModel {
                text: head + "<fn ".spec_bytes() + f.name + ">".spec_bytes() + "'\n".spec_bytes(),
                value: LineValueModel::Done,
            },
        }
    }
}

/// A jump: the offset, then where it lands.
pub open spec fn jump_line(name: Seq<u8>, offset: usize, jump: usize, sign: i8) -> LineModel {
    let head = pad_right(name, 16) + " ".spec_bytes() + pad_left(decimal(offset as nat), 4, 32)
        + " -> ".spec_bytes();
    match jump_target(offset, jump, sign) {
        Some(v) => LineModel {
            text: head + signed_decimal(v as int) + "\n".spec_bytes(),
            value: LineValueModel::Done,
        },
        None => LineModel { text: head, value: LineValueModel::Fault },
    }
}

/// The rest of the line for `instruction` at `offset`.
pub open spec fn instruction_body(chunk: ChunkModel, offset: usize, instruction: Instruction) -> LineModel {
    match instruction {
        Instruction::Constant(i) => constant_line(chunk, "OP_CONSTANT".spec_bytes(), i),
        Instruction::Nil => simple_line("OP_NIL".spec_bytes()),
        Instruction::True => simple_line("OP_TRUE".spec_bytes()),
        Instruction::False => simple_line("OP_FALSE".spec_bytes()),
        Instruction::Pop => simple_line("OP_POP".spec_bytes()),
        Instruction::GetLocal(i) => byte_line("OP_GET_LOCAL".spec_bytes(), i),
        Instruction::SetLocal(i) => byte_line("OP_SET_LOCAL".spec_bytes(), i),
        Instruction::GetGlobal(i) => constant_line(chunk, "OP_GET_GLOBAL".spec_bytes(), i),
        Instruction::DefineGlobal(i) => constant_line(chunk, "OP_DEFINE_GLOBAL".spec_bytes(), i),
        Instruction::SetGlobal(i) => constant_line(chunk, "OP_SET_GLOBAL".spec_bytes(), i),
        Instruction::Equal => simple_line("OP_EQUAL".spec_bytes()),
        Instruction::Greater => simple_line("OP_GREATER".spec_bytes()),
        Instruction::Less => simple_line("OP_LESS".spec_bytes()),
        Instruction::Add => simple_line("OP_ADD".spec_bytes()),
        Instruction::Subtract => simple_line("OP_SUBTRACT".spec_bytes()),
        Instruction::Multiply => simple_line("OP_MULTIPLY".spec_bytes()),
        Instruction::Divide => simple_line("OP_DIVIDE".spec_bytes()),
        Instruction::Not => simple_line("OP_NOT".spec_bytes()),
        Instruction::Negate => simple_line("OP_NEGATE".spec_bytes()),
        Instruction::Print => simple_line("OP_PRINT".spec_bytes()),
        Instruction::Jump(j) => jump_line("OP_JUMP".spec_bytes(), offset, j, 1i8),
        Instruction::JumpIfFalse(j) => jump_line("OP_JUMPIFFALSE".spec_bytes(), offset, j, 1i8),
        Instruction::Loop(j) => jump_line("OP_LOOP".spec_bytes(), offset, j, -1i8),
        Instruction::Call(n) => byte_line("OP_CALL".spec_bytes(), n),
        Instruction::Return => simple_line("OP_RETURN".spec_bytes()),
    }
}

/// The whole line for `instruction` at `offset`.
pub open spec fn instruction_line(chunk: ChunkModel, offset: usize, instruction: Instruction) -> LineModel {
    let body = instruction_body(chunk, offset, instruction);
    LineModel { text: line_prefix(chunk, offset as int) + body.text, value: body.value }
}

/// Appends `n` in decimal, padded on the left with `fill` to `width` bytes.
pub fn push_padded_number(out: &mut Vec<u8>, n: u64, width: usize, fill: u8)
    ensures
        final(out)@ == old(out)@ + pad_left(decimal(n as nat), width as nat, fill),
{
    let mut digits: Vec<u8> = Vec::new();
    push_decimal(&mut digits, n);
    let ghost start = out@;
    let mut k: usize = digits.len();
    while k < width
        invariant
            digits.len() <= k <= width || (k == digits.len() && k >= width),
            out@ == start + Seq::new((k - digits@.len()) as nat, |i: int| fill),
        decreases width - k,
    {
        out.push(fill);
        proof {
            assert(out@ =~= start + Seq::new((k + 1 - digits@.len()) as nat, |i: int| fill));
        }
        k += 1;
    }
    push_bytes(out, digits.as_slice());
    proof {
        if digits@.len() >= width {
            assert(out@ =~= start + digits@);
        } else {
            assert(k == width);
            assert(out@ =~= start + (Seq::new((width - digits@.len()) as nat, |i: int| fill) + digits@));
        }
    }
}

/// Appends `text`, padded on the right with spaces to `width` bytes.
pub fn push_padded_text(out: &mut Vec<u8>, text: &str, width: usize)
    ensures
        final(out)@ == old(out)@ + pad_right(text.spec_bytes(), width as nat),
{
    let ghost start = out@;
    push_text(out, text);
    let n = text.as_bytes().len();
    let mut k: usize = n;
    while k < width
        invariant
            n == text.spec_bytes().len(),
            n <= k <= width || (k == n && k >= width),
            out@ == start + text.spec_bytes() + Seq::new((k - n) as nat, |i: int| 32u8),
        decreases width - k,
    {
        out.push(32u8);
        proof {
            assert(out@ =~= start + text.spec_bytes() + Seq::new((k + 1 - n) as nat, |i: int| 32u8));
        }
        k += 1;
    }
    proof {
        if n >= width {
            assert(out@ =~= start + text.spec_bytes());
        } else {
            assert(out@ =~= start + (text.spec_bytes() + Seq::new((width - n) as nat, |i: int| 32u8)));
        }
    }
}

/// Where a jump lands in the listing's 8-bit arithmetic, if it does not overflow.
pub fn compute_jump_target(offset: usize, jump: usize, sign: i8) -> (target: Option<i8>)
    ensures
        target == jump_target(offset, jump, sign),
{
    let a = offset as i8;
    let b = jump as i8;
    match b.checked_mul(sign) {
        None => None,
        Some(c) => match a.checked_add(c) {
            None => None,
            Some(d) => d.checked_add(1),
        },
    }
}

/// Lists the instructions of one chunk.
pub struct Disassembler<'vm> {
    chunk: &'vm Chunk,
}

impl<'vm> Disassembler<'vm> {
    pub closed spec fn chunk(&self) -> ChunkModel {
        self.chunk@
    }

    pub fn new(chunk: &'vm Chunk) -> (d: Self)
        ensures
            d.chunk() == chunk@,
    {
        Disassembler { chunk }
    }

    /// The lines that list the chunk under `name`: a header, one line per
    /// instruction, and a footer.
    pub fn disassemble_chunk(&self, name: &[u8]) -> (lines: Vec<Line>)
        requires
            self.chunk().code.len() == self.chunk().lines.len(),
        ensures
            lines@.len() == self.chunk().code.len() + 2,
            lines@[0]@ == (LineModel {
                text: "== BEGIN ".spec_bytes() + name@ + " ==\n".spec_bytes(),
                value: LineValueModel::Done,
            }),
            forall|i: int|
                0 <= i < self.chunk().code.len() ==> (#[trigger] lines@[i + 1])@ == instruction_line(
                    self.chunk(),
                    i as usize,
                    self.chunk().code[i],
                ),
            lines@[lines@.len() - 1]@ == (LineModel {
                text: "== END ".spec_bytes() + name@ + "\n".spec_bytes(),
                value: LineValueModel::Done,
            }),
    {
        let mut lines: Vec<Line> = Vec::new();
        let mut header: Vec<u8> = Vec::new();
        push_text(&mut header, "== BEGIN ");
        push_bytes(&mut header, name);
        push_text(&mut header, " ==\n");
        lines.push(Line { text: header, value: LineValue::Done });
        let mut offset: usize = 0;
        while offset < self.chunk.code.len()
            invariant
                offset <= self.chunk().code.len(),
                self.chunk().code.len() == self.chunk().lines.len(),
                lines@.len() == offset + 1,
                lines@[0]@ == (LineModel {
                    text: "== BEGIN ".spec_bytes() + name@ + " ==\n".spec_bytes(),
                    value: LineValueModel::Done,
                }),
                forall|i: int|
                    0 <= i < offset ==> (#[trigger] lines@[i + 1])@ == instruction_line(
                        self.chunk(),
                        i as usize,
                        self.chunk().code[i],
                    ),
            decreases self.chunk().code.len() - offset,
        {
            let instruction = self.chunk.code[offset];
            let line = self.disassemble_instruction(offset, &instruction);
            lines.push(line);
            offset += 1;
        }
        let mut footer: Vec<u8> = Vec::new();
        push_text(&mut footer, "== END ");
        push_bytes(&mut footer, name);
        push_text(&mut footer, "\n");
        lines.push(Line { text: footer, value: LineValue::Done });
        lines
    }

    /// The line for `instruction`, found at `offset`.
    pub fn disassemble_instruction(&self, offset: usize, instruction: &Instruction) -> (line: Line)
        requires
            offset < self.chunk().lines.len(),
        ensures
            line@ == instruction_line(self.chunk(), offset, *instruction),
    {
        let mut text: Vec<u8> = Vec::new();
        push_padded_number(&mut text, offset as u64, 4, 48);
        push_text(&mut text, " ");
        let line = self.chunk.lines[offset];
        if offset > 0 && line == self.chunk.lines[offset - 1] {
            push_text(&mut text, "   | ");
        } else {
            push_padded_number(&mut text, line as u64, 4, 32);
            push_text(&mut text, " ");
        }
        let ghost prefix = text@;
        assert(prefix =~= line_prefix(self.chunk(), offset as int));
        let value = match instruction {
            Instruction::Constant(index) => self.constant_instruction(&mut text, "OP_CONSTANT", *index),
            Instruction::Nil => Self::simple_instruction(&mut text, "OP_NIL"),
            Instruction::True => Self::simple_instruction(&mut text, "OP_TRUE"),
            Instruction::False => Self::simple_instruction(&mut text, "OP_FALSE"),
            Instruction::Pop => Self::simple_instruction(&mut text, "OP_POP"),
            Instruction::GetLocal(index) => Self::byte_instruction(&mut text, "OP_GET_LOCAL", *index),
            Instruction::SetLocal(index) => Self::byte_instruction(&mut text, "OP_SET_LOCAL", *index),
            Instruction::GetGlobal(index) => self.constant_instruction(&mut text, "OP_GET_GLOBAL", *index),
            Instruction::DefineGlobal(index) => self.constant_instruction(
                &mut text,
                "OP_DEFINE_GLOBAL",
                *index,
            ),
            Instruction::SetGlobal(index) => self.constant_instruction(&mut text, "OP_SET_GLOBAL", *index),
            Instruction::Equal => Self::simple_instruction(&mut text, "OP_EQUAL"),
            Instruction::Greater => Self::simple_instruction(&mut text, "OP_GREATER"),
            Instruction::Less => Self::simple_instruction(&mut text, "OP_LESS"),
            Instruction::Add => Self::simple_instruction(&mut text, "OP_ADD"),
            Instruction::Subtract => Self::simple_instruction(&mut text, "OP_SUBTRACT"),
            Instruction::Multiply => Self::simple_instruction(&mut text, "OP_MULTIPLY"),
            Instruction::Divide => Self::simple_instruction(&mut text, "OP_DIVIDE"),
            Instruction::Not => Self::simple_instruction(&mut text, "OP_NOT"),
            Instruction::Negate => Self::simple_instruction(&mut text, "OP_NEGATE"),
            Instruction::Print => Self::simple_instruction(&mut text, "OP_PRINT"),
            Instruction::Jump(jump) => Self::jump_instruction(&mut text, "OP_JUMP", offset, *jump, 1),
            Instruction::JumpIfFalse(jump) => Self::jump_instruction(
                &mut text,
                "OP_JUMPIFFALSE",
                offset,
                *jump,
                1,
            ),
            Instruction::Loop(jump) => Self::jump_instruction(&mut text, "OP_LOOP", offset, *jump, -1),
            Instruction::Call(arg_count) => Self::byte_instruction(&mut text, "OP_CALL", *arg_count),
            Instruction::Return => Self::simple_instruction(&mut text, "OP_RETURN"),
        };
        let line = Line { text, value };
        proof {
            let body = instruction_body(self.chunk(), offset, *instruction);
            assert(line@.text =~= line_prefix(self.chunk(), offset as int) + body.text);
        }
        line
    }

    /// Appends the rest of the line for an instruction whose operand is a constant.
    fn constant_instruction(&self, text: &mut Vec<u8>, name: &str, index: usize) -> (value: LineValue)
        ensures
            ({
                let body = constant_line(self.chunk(), name.spec_bytes(), index);
                &&& final(text)@ == old(text)@ + body.text
                &&& line_value_model(value) == body.value
            }),
    {
        let ghost start = text@;
        push_padded_text(text, name, 16);
        push_text(text, " ");
        push_padded_number(text, index as u64, 4, 32);
        push_text(text, " '");
        proof {
            lemma_constants_model(self.chunk.constants@);
        }
        if index >= self.chunk.constants.len() {
            return LineValue::Fault;
        }
        match self.chunk.get_constant(index) {
            Constant::Number(literal) => LineValue::Number(crate::token::copy_bytes(literal)),
            Constant::String(s) => {
                push_bytes(text, s.as_slice());
                push_text(text, "'\n");
                LineValue::Done
            },
            Constant::Function(f) => {
                push_text(text, "<fn ");
                push_bytes(text, f.name.as_slice());
                push_text(text, ">");
                push_text(text, "'\n");
                LineValue::Done
            },
        }
    }

    /// Appends the rest of the line for an instruction whose operand is a slot or count.
    fn byte_instruction(text: &mut Vec<u8>, name: &str, index: usize) -> (value: LineValue)
        ensures
            final(text)@ == old(text)@ + byte_line(name.spec_bytes(), index).text,
            value is Done,
    {
        let ghost start = text@;
        push_padded_text(text, name, 16);
        push_text(text, " ");
        push_padded_number(text, index as u64, 4, 32);
        push_text(text, "\n");
        proof {
            assert(text@ =~= start + byte_line(name.spec_bytes(), index).text);
        }
        LineValue::Done
    }

    /// Appends the rest of the line for a jump.
    fn jump_instruction(text: &mut Vec<u8>, name: &str, offset: usize, jump: usize, sign: i8) -> (value: LineValue)
        ensures
            ({
                let body = jump_line(name.spec_bytes(), offset, jump, sign);
                &&& final(text)@ == old(text)@ + body.text
                &&& line_value_model(value) == body.value
            }),
    {
        push_padded_text(text, name, 16);
        push_text(text, " ");
        push_padded_number(text, offset as u64, 4, 32);
        push_text(text, " -> ");
        match compute_jump_target(offset, jump, sign) {
            Some(v) => {
                if v < 0 {
                    push_text(text, "-");
                    let magnitude: u64 = (0 - (v as i64)) as u64;
                    push_decimal(text, magnitude);
                } else {
                    push_decimal(text, v as u64);
                }
                push_text(text, "\n");
                LineValue::Done
            },
            None => LineValue::Fault,
        }
    }

    /// Appends the rest of the line for an instruction with no operand.
    fn simple_instruction(text: &mut Vec<u8>, name: &str) -> (value: LineValue)
        ensures
            final(text)@ == old(text)@ + simple_line(name.spec_bytes()).text,
            value is Done,
    {
        push_text(text, name);
        push_text(text, "\n");
        LineValue::Done
    }
}

} // verus!
