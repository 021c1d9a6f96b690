//! The bytecode container: an instruction stream, an append-only constant
//! pool, and one source line per instruction byte.

use vstd::prelude::*;

use crate::value::Value;

verus! {

/// One instruction tag. `Constant` is followed by a one-byte pool index;
/// `EOP` is the end-of-program sentinel that decoding yields for any byte
/// outside the valid range and for any offset past the stream's end.
#[derive(Debug, PartialEq, Eq, Structural, Copy, Clone)]
pub enum OpCode {
    Constant,
    Add,
    Subtract,
    Multiply,
    Divide,
    Negate,
    Return,
    EOP,
}

pub type Code = u8;

/// The byte encoding an opcode; tags are numbered contiguously from zero.
pub open spec fn spec_op_byte(op: OpCode) -> u8 {
    match op {
        OpCode::Constant => 0,
        OpCode::Add => 1,
        OpCode::Subtract => 2,
        OpCode::Multiply => 3,
        OpCode::Divide => 4,
        OpCode::Negate => 5,
        OpCode::Return => 6,
        OpCode::EOP => 7,
    }
}

/// The opcode a byte decodes to; anything past the last valid tag is the
/// end-of-program sentinel, never undefined behaviour.
pub open spec fn spec_byte_op(b: u8) -> OpCode {
    if b == 0 {
        OpCode::Constant
    } else if b == 1 {
        OpCode::Add
    } else if b == 2 {
        OpCode::Subtract
    } else if b == 3 {
        OpCode::Multiply
    } else if b == 4 {
        OpCode::Divide
    } else if b == 5 {
        OpCode::Negate
    } else if b == 6 {
        OpCode::Return
    } else {
        OpCode::EOP
    }
}

/// Encodes an opcode as its instruction byte.
pub fn op_to_byte(op: OpCode) -> (b: u8)
    ensures
        b == spec_op_byte(op),
{
    match op {
        OpCode::Constant => 0,
        OpCode::Add => 1,
        OpCode::Subtract => 2,
        OpCode::Multiply => 3,
        OpCode::Divide => 4,
        OpCode::Negate => 5,
        OpCode::Return => 6,
        OpCode::EOP => 7,
    }
}

/// Decodes an instruction byte with an explicit bounds check.
pub fn byte_to_op(b: u8) -> (op: OpCode)
    ensures
        op == spec_byte_op(b),
{
    if b == 0 {
        OpCode::Constant
    } else if b == 1 {
        OpCode::Add
    } else if b == 2 {
        OpCode::Subtract
    } else if b == 3 {
        OpCode::Multiply
    } else if b == 4 {
        OpCode::Divide
    } else if b == 5 {
        OpCode::Negate
    } else if b == 6 {
        OpCode::Return
    } else {
        OpCode::EOP
    }
}

/// One disassembled instruction: its offset, the source line it came from
/// (with a flag marking a line equal to the previous instruction's), its
/// opcode, and for operand-bearing instructions the operand byte and the
/// pool value it refers to.
#[derive(Debug, Copy, Clone)]
pub struct InstrInfo {
    pub offset: usize,
    pub line: usize,
    pub line_repeated: bool,
    pub op: OpCode,
    pub operand: Option<u8>,
    pub constant: Option<Value>,
}

/// Bytecode, constants and line map for one compiled program. The compiler
/// appends; the virtual machine and the disassembler only read.
#[derive(Debug, PartialEq, Clone)]
pub struct Chunk {
    pub code: Vec<Code>,
    pub constants: Vec<Value>,
    pub lines: Vec<usize>,
}

impl Chunk {
    /// The constant pool, as a sequence.
    pub open spec fn constants_view(self) -> Seq<Value> {
        self.constants@
    }

    /// The line map, as a sequence.
    pub open spec fn lines_view(self) -> Seq<usize> {
        self.lines@
    }

    /// One source line is recorded per instruction byte, and every pooled
    /// constant is a well-formed fraction.
    pub open spec fn wf(self) -> bool {
        &&& self.code@.len() == self.lines_view().len()
        &&& forall|k: int|
            0 <= k < self.constants_view().len() ==> (#[trigger] self.constants_view()[k]).wf()
    }

    /// The opcode decoded at `offset`: the sentinel for any offset at or
    /// past the end of the stream.
    pub open spec fn op_at(self, offset: int) -> OpCode {
        if 0 <= offset < self.code@.len() {
            spec_byte_op(self.code@[offset])
        } else {
            OpCode::EOP
        }
    }

    pub fn new() -> (c: Chunk)
        ensures
            c.wf(),
            c.code@ == Seq::<Code>::empty(),
            c.constants_view() == Seq::<Value>::empty(),
            c.lines_view() == Seq::<usize>::empty(),
    {
        Chunk { code: Vec::new(), constants: Vec::new(), lines: Vec::new() }
    }

    /// Appends one instruction byte together with its source line.
    pub fn push_chunk(&mut self, code: Code, line: usize)
        requires
            old(self).wf(),
        ensures
            final(self).wf(),
            final(self).code@ == old(self).code@ + seq![code],
            final(self).lines_view() == old(self).lines_view() + seq![line],
            final(self).constants_view() == old(self).constants_view(),
    {
        self.code.push(code);
        self.lines.push(line);
        proof {
            assert(self.code@ =~= old(self).code@ + seq![code]);
            assert(self.lines@ =~= old(self).lines@ + seq![line]);
            assert forall|k: int|
                0 <= k < self.constants_view().len() implies (#[trigger] self.constants_view()[
                k]).wf() by {
                assert(self.constants_view()[k] == old(self).constants_view()[k]);
            }
        }
    }

    /// Appends one opcode byte together with its source line.
    pub fn push_op_code(&mut self, code: OpCode, line: usize)
        requires
            old(self).wf(),
        ensures
            final(self).wf(),
            final(self).code@ == old(self).code@ + seq![spec_op_byte(code)],
            final(self).lines_view() == old(self).lines_view() + seq![line],
            final(self).constants_view() == old(self).constants_view(),
    {
        let b = op_to_byte(code);
        self.push_chunk(b, line)
    }

    /// Decodes the opcode at `offset`; any offset at or past the end of the
    /// stream yields the end-of-program sentinel.
    pub fn get_op_code(&self, offset: usize) -> (op: OpCode)
        ensures
            op == self.op_at(offset as int),
    {
        if offset < self.code.len() {
            byte_to_op(self.code[offset])
        } else {
            OpCode::EOP
        }
    }

    /// Appends a value to the constant pool and returns its index. Repeated
    /// values are not deduplicated: each call takes a new slot.
    pub fn push_constant(&mut self, value: Value) -> (idx: usize)
        requires
            old(self).wf(),
            value.wf(),
        ensures
            final(self).wf(),
            final(self).constants_view() == old(self).constants_view() + seq![value],
            final(self).code@ == old(self).code@,
            final(self).lines_view() == old(self).lines_view(),
            idx == old(self).constants_view().len(),
    {
        self.constants.push(value);
        proof {
            assert(self.constants@ =~= old(self).constants@ + seq![value]);
            assert forall|k: int|
                0 <= k < self.constants_view().len() implies (#[trigger] self.constants_view()[
                k]).wf() by {
                if k < old(self).constants_view().len() {
                    assert((old(self).constants_view()[k]).wf());
                } else {
                    assert(self.constants_view()[k] == value);
                }
            }
        }
        self.constants.len() - 1
    }

    /// The pool value at `idx`, or `None` past the pool's end.
    pub fn get_constant(&self, idx: usize) -> (r: Option<Value>)
        ensures
            r == (if idx < self.constants_view().len() {
                Some(self.constants_view()[idx as int])
            } else {
                None::<Value>
            }),
    {
        if idx < self.constants.len() {
            Some(self.constants[idx])
        } else {
            None
        }
    }

    /// How many constants the pool holds.
    pub fn constants_len(&self) -> (n: usize)
        ensures
            n == self.constants_view().len(),
    {
        self.constants.len()
    }

    /// The source line recorded for the instruction byte at `offset`.
    pub fn line_at(&self, offset: usize) -> (r: Option<usize>)
        ensures
            r == (if offset < self.lines_view().len() {
                Some(self.lines_view()[offset as int])
            } else {
                None::<usize>
            }),
    {
        if offset < self.lines.len() {
            Some(self.lines[offset])
        } else {
            None
        }
    }

    /// The disassembly of the single instruction at `offset`, and the
    /// offset of the next one.
    pub open spec fn spec_instr_at(self, offset: int) -> (InstrInfo, int) {
        let op = spec_byte_op(self.code@[offset]);
        let info = InstrInfo {
            offset: offset as usize,
            line: self.lines_view()[offset],
            line_repeated: offset > 0 && self.lines_view()[offset] == self.lines_view()[offset
                - 1],
            op,
            operand: if op == OpCode::Constant && offset + 1 < self.code@.len() {
                Some(self.code@[offset + 1])
            } else {
                None
            },
            constant: if op == OpCode::Constant && offset + 1 < self.code@.len() && self.code@[
                offset + 1
            ] < self.constants_view().len() {
                Some(self.constants_view()[self.code@[offset + 1] as int])
            } else {
                None
            },
        };
        let next = if op == OpCode::Constant {
            if offset + 1 < self.code@.len() {
                offset + 2
            } else {
                self.code@.len() as int
            }
        } else {
            offset + 1
        };
        (info, next)
    }

    /// The disassembly of the whole stream from `offset` on.
    pub open spec fn spec_disasm(self, offset: int) -> Seq<InstrInfo>
        decreases self.code@.len() - offset,
    {
        if offset < 0 || offset >= self.code@.len() {
            Seq::empty()
        } else {
            seq![self.spec_instr_at(offset).0] + self.spec_disasm(self.spec_instr_at(offset).1)
        }
    }

    /// Disassembles one instruction: reports its offset, line, mnemonic
    /// tag, and for a constant instruction the operand byte with the pool
    /// value it names; returns the report and the next instruction's
    /// offset.
    pub fn disassemble_instruction(&self, offset: usize) -> (r: (InstrInfo, usize))
        requires
            self.wf(),
            offset < self.code@.len(),
        ensures
            r.0 == self.spec_instr_at(offset as int).0,
            r.1 as int == self.spec_instr_at(offset as int).1,
            offset < r.1 <= self.code@.len() || r.1 == offset + 2,
    {
        let n = self.code.len();
        let line = self.lines[offset];
        let line_repeated = offset > 0 && self.lines[offset] == self.lines[offset - 1];
        let op = byte_to_op(self.code[offset]);
        if op == OpCode::Constant {
            if offset < n - 1 {
                let operand = self.code[offset + 1];
                let constant = self.get_constant(operand as usize);
                (
                    InstrInfo {
                        offset,
                        line,
                        line_repeated,
                        op,
                        operand: Some(operand),
                        constant,
                    },
                    offset + 2,
                )
            } else {
                (
                    InstrInfo { offset, line, line_repeated, op, operand: None, constant: None },
                    self.code.len(),
                )
            }
        } else {
            (
                InstrInfo { offset, line, line_repeated, op, operand: None, constant: None },
                offset + 1,
            )
        }
    }

    /// Disassembles the whole instruction stream, in order, for diagnostic
    /// display; execution is unaffected.
    #[verifier::loop_isolation(false)]
    pub fn disassemble(&self) -> (r: Vec<InstrInfo>)
        requires
            self.wf(),
        ensures
            r@ == self.spec_disasm(0),
    {
        let mut out: Vec<InstrInfo> = Vec::new();
        let mut offset: usize = 0;
        while offset < self.code.len()
            invariant
                out@ + self.spec_disasm(offset as int) == self.spec_disasm(0),
            decreases self.code@.len() - offset,
        {
            let (info, next) = self.disassemble_instruction(offset);
            out.push(info);
            proof {
                assert(out@ + self.spec_disasm(next as int) =~= self.spec_disasm(0));
            }
            offset = next;
        }
        proof {
            assert(out@ =~= self.spec_disasm(0));
        }
        out
    }
}

} // verus!
