//! The instruction as the engine runs it: operation, modifier and operands,
//! without what a mutation needs to know.

use crate::instruction::field::Field;
use crate::instruction::instruction::{parse_parts, Instruction};
use crate::instruction::op_code::OpCode;
use crate::instruction::op_modifier::OpModifier;
use crate::text::chars_of;
use vstd::prelude::*;

verus! {

/// What is answered for a line without a first operand.
pub open spec fn missing_a_error() -> Seq<char> {
    "missing field a"@
}

/// What is answered for a line without a second operand.
pub open spec fn missing_b_error() -> Seq<char> {
    "missing field b"@
}

/// An instruction with both operands written out.
#[derive(Clone, Copy, Debug, PartialEq, Eq)]
pub struct RunnableInstruction {
    /// The operation.
    pub code: OpCode,
    /// The modifier.
    pub modifier: OpModifier,
    /// The operands: field A, then field B.
    pub fields: [Field; 2],
}

/// The runnable instruction that `line` writes, in upper case: both operands
/// have to be written. A line without code writes none.
pub open spec fn parse_runnable(line: Seq<char>, core_size: usize) -> Result<
    Option<RunnableInstruction>,
    Seq<char>,
> {
    match parse_parts(line, core_size) {
        Err(e) => Err(e),
        Ok(None) => Ok(None),
        Ok(Some(w)) => if w.a is None {
            Err(missing_a_error())
        } else if w.b is None {
            Err(missing_b_error())
        } else {
            Ok(
                Some(
                    RunnableInstruction {
                        code: w.code,
                        modifier: w.modifier,
                        fields: [w.a->0, w.b->0],
                    },
                ),
            )
        },
    }
}

impl RunnableInstruction {
    /// The same instruction as a cell of a core of `core_size` cells, whose
    /// mutations draw offsets below `ptr_range`.
    pub open spec fn as_cell(self, ptr_range: usize, core_size: usize) -> Instruction {
        Instruction {
            ptr_range,
            core_size,
            code: self.code,
            modifier: self.modifier,
            fields: self.fields,
        }
    }

    /// The pipes that the instruction opens from its source to its destination.
    pub open spec fn pipes(self) -> Seq<(usize, usize)> {
        self.as_cell(0, 0).pipes()
    }

    /// Whether the instruction transfers the whole source instruction.
    pub open spec fn whole_copy(self) -> bool {
        self.as_cell(0, 0).whole_copy()
    }

    /// The instruction as it is written.
    pub open spec fn written(self) -> Seq<char> {
        self.as_cell(0, 0).written()
    }

    /// The same instruction as a cell of a core.
    pub fn to_cell(&self, ptr_range: usize, core_size: usize) -> (r: Instruction)
        ensures
            r == self.as_cell(ptr_range, core_size),
    {
        Instruction {
            ptr_range,
            core_size,
            code: self.code,
            modifier: self.modifier,
            fields: self.fields,
        }
    }

    /// The runnable part of a cell.
    pub fn of_cell(cell: &Instruction) -> (r: RunnableInstruction)
        ensures
            r.as_cell(cell.ptr_range, cell.core_size) == *cell,
    {
        RunnableInstruction { code: cell.code, modifier: cell.modifier, fields: cell.fields }
    }

    /// An instruction at random for a core of `core_size` cells, with
    /// offsets below `ptr_range` and a written modifier.
    pub fn get_random(ptr_range: usize, core_size: usize) -> (r: Self)
        requires
            ptr_range > 0,
            core_size > 0,
        ensures
            r.as_cell(ptr_range, core_size).is_drawn(ptr_range, core_size),
            r.as_cell(ptr_range, core_size).wf(core_size),
    {
        let cell = Instruction::get_random(ptr_range, core_size);
        let r = Self::of_cell(&cell);
        assert(r.as_cell(ptr_range, core_size) == cell);
        r
    }

    /// The pipes of the instruction and whether it transfers whole instructions.
    pub fn get_field_transmisions(&self) -> (r: (Vec<(usize, usize)>, bool))
        ensures
            r.0@ == self.pipes(),
            r.1 == self.whole_copy(),
    {
        self.to_cell(0, 0).get_field_transmisions()
    }

    /// Reads the runnable instruction that `line` writes, in upper case.
    pub fn parse(line: String, core_size: usize) -> (r: Result<Option<Self>, String>)
        requires
            core_size > 0,
        ensures
            match r {
                Ok(found) => parse_runnable(line@, core_size) == Ok::<
                    Option<RunnableInstruction>,
                    Seq<char>,
                >(found),
                Err(e) => parse_runnable(line@, core_size) == Err::<
                    Option<RunnableInstruction>,
                    Seq<char>,
                >(e@),
            },
            r matches Ok(Some(ins)) ==> ins.as_cell(core_size, core_size).wf(core_size),
    {
        let chars = chars_of(line.as_str());
        let (code, modifier, a, b) = match Instruction::parse_parts_chars(&chars, core_size) {
            Ok(Some(parts)) => parts,
            Ok(None) => {
                return Ok(None);
            },
            Err(e) => {
                return Err(e);
            },
        };
        let a = if let Some(a) = a {
            a
        } else {
            return Err("missing field a".to_string());
        };
        let b = if let Some(b) = b {
            b
        } else {
            return Err("missing field b".to_string());
        };
        let ins = Self { code, modifier, fields: [a, b] };
        proof {
            let wanted = RunnableInstruction { code, modifier, fields: [a, b] };
            assert(ins.fields =~= wanted.fields);
        }
        Ok(Some(ins))
    }

    /// The instruction as it is written.
    pub fn text(&self) -> (r: String)
        requires
            self.fields[0].value().wf(),
            self.fields[1].value().wf(),
        ensures
            r@ == self.written(),
    {
        self.to_cell(0, 0).text()
    }
}

} // verus!
