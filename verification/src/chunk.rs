//! A chunk: a function's bytecode, the source line of each instruction, and
//! its constants.

use vstd::prelude::*;
use vstd::string::StringSliceAdditionalSpecFns;

use crate::disassembler::{instruction_line, Disassembler, Line, LineModel, LineValue, LineValueModel};
use crate::instruction::Instruction;
use crate::text::{push_bytes, push_text};
use crate::value::{Constant, ConstantModel, ChunkModel, FunctionModel};

verus! {

pub struct Chunk {
    pub code: Vec<Instruction>,
    pub lines: Vec<u32>,
    pub constants: Vec<Constant>,
}

impl Chunk {
    /// Every instruction has a line.
    pub open spec fn wf(&self) -> bool {
        self.code@.len() == self.lines@.len()
    }

    pub fn new() -> (chunk: Chunk)
        ensures
            chunk.code@.len() == 0,
            chunk.lines@.len() == 0,
            chunk.constants@.len() == 0,
    {
        Chunk { code: Vec::new(), lines: Vec::new(), constants: Vec::new() }
    }

    /// Appends an instruction and its line.
    pub fn write(&mut self, instruction: Instruction, line: u32)
        ensures
            final(self).code@ == old(self).code@.push(instruction),
            final(self).lines@ == old(self).lines@.push(line),
            final(self).constants == old(self).constants,
    {
        self.code.push(instruction);
        self.lines.push(line);
    }

    /// Appends a constant and returns its index.
    pub fn add_constant(&mut self, value: Constant) -> (index: usize)
        ensures
            final(self).constants@ == old(self).constants@.push(value),
            index == old(self).constants@.len(),
            final(self).code == old(self).code,
            final(self).lines == old(self).lines,
    {
        self.constants.push(value);
        self.constants.len() - 1
    }

    pub fn get_constant(&self, index: usize) -> (constant: &Constant)
        requires
            index < self.constants@.len(),
        ensures
            *constant == self.constants@[index as int],
    {
        &self.constants[index]
    }

    pub fn get_line(&self, offset: usize) -> (line: u32)
        requires
            offset < self.lines@.len(),
        ensures
            line == self.lines@[offset as int],
    {
        self.lines[offset]
    }

    pub fn get_instruction(&self, offset: usize) -> (instruction: Instruction)
        requires
            offset < self.code@.len(),
        ensures
            instruction == self.code@[offset as int],
    {
        self.code[offset]
    }

    /// Replaces the instruction at `offset`.
    pub fn set_instruction(&mut self, offset: usize, instruction: Instruction)
        requires
            offset < old(self).code@.len(),
        ensures
            final(self).code@ == old(self).code@.update(offset as int, instruction),
            final(self).lines == old(self).lines,
            final(self).constants == old(self).constants,
    {
        self.code.set(offset, instruction);
    }

    /// The lines that list the chunk under `name`: a header, then one line per
    /// instruction.
    pub fn disassemble(&self, name: &[u8]) -> (lines: Vec<Line>)
        requires
            self.wf(),
        ensures
            lines@.len() == self.code@.len() + 1,
            lines@[0]@ == (LineModel {
                text: "== ".spec_bytes() + name@ + " ==\n".spec_bytes(),
                value: LineValueModel::Done,
            }),
            forall|i: int|
                0 <= i < self.code@.len() ==> (#[trigger] lines@[i + 1])@ == instruction_line(
                    self@,
                    i as usize,
                    self.code@[i],
                ),
    {
        let disassembler = Disassembler::new(self);
        let mut lines: Vec<Line> = Vec::new();
        let mut header: Vec<u8> = Vec::new();
        push_text(&mut header, "== ");
        push_bytes(&mut header, name);
        push_text(&mut header, " ==\n");
        lines.push(Line { text: header, value: LineValue::Done });
        let mut offset: usize = 0;
        while offset < self.code.len()
            invariant
                offset <= self.code@.len(),
                self.wf(),
                disassembler.chunk() == self@,
                lines@.len() == offset + 1,
                lines@[0]@ == (LineModel {
                    text: "== ".spec_bytes() + name@ + " ==\n".spec_bytes(),
                    value: LineValueModel::Done,
                }),
                forall|i: int|
                    0 <= i < offset ==> (#[trigger] lines@[i + 1])@ == instruction_line(
                        self@,
                        i as usize,
                        self.code@[i],
                    ),
            decreases self.code@.len() - offset,
        {
            let instruction = self.code[offset];
            let line = disassembler.disassemble_instruction(offset, &instruction);
            lines.push(line);
            offset += 1;
        }
        lines
    }

    /// The number of instructions.
    pub fn get_count(&self) -> (count: usize)
        ensures
            count == self.code@.len(),
    {
        self.code.len()
    }
}

/// The operand of `instruction` names a constant of `constants` that exists,
/// and a string where it names a global variable.
pub open spec fn operand_ok(instruction: Instruction, constants: Seq<ConstantModel>) -> bool {
    match instruction {
        Instruction::Constant(k) => k < constants.len(),
        Instruction::GetGlobal(k) => k < constants.len() && constants[k as int] is String,
        Instruction::DefineGlobal(k) => k < constants.len() && constants[k as int] is String,
        Instruction::SetGlobal(k) => k < constants.len() && constants[k as int] is String,
        _ => true,
    }
}

/// Every instruction of the chunk has a valid operand, and so has every
/// instruction of each function among its constants.
pub open spec fn chunk_refs_ok(k: ChunkModel) -> bool
    decreases k,
{
    &&& forall|i: int| 0 <= i < k.code.len() ==> operand_ok(#[trigger] k.code[i], k.constants)
    &&& constants_refs_ok(k.constants)
}

/// Each function among `cs` has a chunk whose operands are valid.
pub open spec fn constants_refs_ok(cs: Seq<ConstantModel>) -> bool
    decreases cs,
{
    if cs.len() == 0 {
        true
    } else {
        constants_refs_ok(cs.drop_last()) && constant_refs_ok(cs.last())
    }
}

pub open spec fn constant_refs_ok(c: ConstantModel) -> bool
    decreases c,
{
    match c {
        ConstantModel::Function(g) => function_refs_ok(g),
        _ => true,
    }
}

/// A function's code is well formed: its operands are valid (and so are
/// those of the functions it holds) and its jumps land inside it.
pub open spec fn function_refs_ok(g: FunctionModel) -> bool
    decreases g,
{
    chunk_refs_ok(g.chunk) && jumps_land_from(g.chunk.code, 0)
}

/// Each function among `cs` is well formed.
pub proof fn lemma_constants_refs_ok_each(cs: Seq<ConstantModel>)
    requires
        constants_refs_ok(cs),
    ensures
        forall|i: int| 0 <= i < cs.len() ==> constant_refs_ok(#[trigger] cs[i]),
    decreases cs.len(),
{
    if cs.len() > 0 {
        lemma_constants_refs_ok_each(cs.drop_last());
        assert forall|i: int| 0 <= i < cs.len() implies constant_refs_ok(#[trigger] cs[i]) by {
            if i < cs.len() - 1 {
                assert(cs[i] == cs.drop_last()[i]);
            }
        }
    }
}

/// A jump at offset `i` of code `len` instructions long lands inside the
/// code (or just past its end); other instructions need nothing.
pub open spec fn jump_lands(instruction: Instruction, i: int, len: int) -> bool {
    match instruction {
        Instruction::Jump(j) => i + 1 + j <= len,
        Instruction::JumpIfFalse(j) => i + 1 + j <= len,
        Instruction::Loop(j) => j <= i + 1,
        _ => true,
    }
}

/// Every jump from offset `start` on lands inside the code.
pub open spec fn jumps_land_from(code: Seq<Instruction>, start: int) -> bool {
    forall|i: int| start <= i < code.len() ==> jump_lands(#[trigger] code[i], i, code.len() as int)
}

/// `b` is `a` with constants added at the end.
pub open spec fn constants_extend(a: Seq<ConstantModel>, b: Seq<ConstantModel>) -> bool {
    &&& a.len() <= b.len()
    &&& forall|i: int| 0 <= i < a.len() ==> #[trigger] b[i] == a[i]
}

/// Adding a constant keeps the operands valid, as long as a function added
/// has valid operands itself.
pub proof fn lemma_refs_ok_add_constant(k: ChunkModel, c: ConstantModel)
    requires
        chunk_refs_ok(k),
        constant_refs_ok(c),
    ensures
        chunk_refs_ok(ChunkModel { constants: k.constants.push(c), ..k }),
{
    let cs = k.constants.push(c);
    assert(cs.drop_last() =~= k.constants);
    assert(constants_refs_ok(cs));
    assert forall|i: int| 0 <= i < k.code.len() implies operand_ok(#[trigger] k.code[i], cs) by {
        assert(operand_ok(k.code[i], k.constants));
    }
}


} // verus!
