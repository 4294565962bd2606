//! The instruction, and the data paths that its operation opens between the
//! source and the destination.

use crate::instruction::field::{is_drawn_field, parse_field, Field};
use crate::instruction::op_code::{parse_opcode, OpCode};
use crate::instruction::op_modifier::{parse_modifier, OpModifier};
use crate::text::{chars_of, find_from, index_of, slice_of, trim_start, trimmed_start};
use crate::utils::ModUsize;
use vstd::prelude::*;
use vstd::string::StringExecFns;

verus! {

/// The modifier that stands for a missing one: it follows from the operation
/// and from which of the two operands are immediate. `DAT` and `NOP` move
/// nothing and have none.
pub open spec fn implied_modifier(code: OpCode, a_immediate: bool, b_immediate: bool) -> Option<
    OpModifier,
> {
    if code is DAT || code is NOP {
        None
    } else if code.is_branch() {
        Some(OpModifier::B)
    } else if a_immediate {
        Some(OpModifier::AB)
    } else if code is SLT || b_immediate {
        Some(OpModifier::B)
    } else if code.is_transfer() {
        Some(OpModifier::I)
    } else {
        Some(OpModifier::F)
    }
}

/// The pipes of a written modifier: pairs (sub-field of the source, sub-field
/// of the destination), 0 for A and 1 for B.
pub open spec fn modifier_pipes(modifier: OpModifier) -> Seq<(usize, usize)> {
    match modifier {
        OpModifier::A => seq![(0usize, 0usize)],
        OpModifier::B => seq![(1usize, 1usize)],
        OpModifier::AB => seq![(0usize, 1usize)],
        OpModifier::BA => seq![(1usize, 0usize)],
        OpModifier::F => seq![(0usize, 0usize), (1usize, 1usize)],
        OpModifier::X => seq![(0usize, 1usize), (1usize, 0usize)],
        OpModifier::I => seq![(0usize, 0usize), (1usize, 1usize)],
        OpModifier::Default => Seq::empty(),
    }
}

/// One cell of the core.
#[derive(Clone, Copy, Debug, PartialEq, Eq)]
pub struct Instruction {
    /// The range from which random offsets are drawn when the instruction mutates.
    pub ptr_range: usize,
    /// The core size for which the instruction was made.
    pub core_size: usize,
    /// The operation.
    pub code: OpCode,
    /// The modifier.
    pub modifier: OpModifier,
    /// The operands: field A, then field B.
    pub fields: [Field; 2],
}

impl Instruction {
    /// Both fields belong to a core of `core_size` cells.
    pub open spec fn wf(self, core_size: usize) -> bool {
        self.fields[0].wf(core_size) && self.fields[1].wf(core_size)
    }

    /// The modifier that decides the transmission: the written one, or the
    /// implied one where none is written.
    pub open spec fn effective_modifier(self) -> Option<OpModifier> {
        if self.modifier is Default {
            implied_modifier(
                self.code,
                self.fields[0] is Inmediate,
                self.fields[1] is Inmediate,
            )
        } else {
            Some(self.modifier)
        }
    }

    /// The pipes that the instruction opens from its source to its destination.
    pub open spec fn pipes(self) -> Seq<(usize, usize)> {
        match self.effective_modifier() {
            Some(m) => modifier_pipes(m),
            None => Seq::empty(),
        }
    }

    /// Whether the instruction transfers the whole source instruction.
    pub open spec fn whole_copy(self) -> bool {
        self.effective_modifier() == Some(OpModifier::I)
    }

    /// The instruction with the number of field `i` replaced.
    pub open spec fn with_field_value(self, i: int, data: crate::utils::ModUsize) -> Instruction {
        Instruction {
            fields: if i == 0 {
                [self.fields[0].with_value(data), self.fields[1]]
            } else {
                [self.fields[0], self.fields[1].with_value(data)]
            },
            ..self
        }
    }

    /// The pipes of the instruction and whether it transfers whole instructions.
    pub fn get_field_transmisions(&self) -> (r: (Vec<(usize, usize)>, bool))
        ensures
            r.0@ == self.pipes(),
            r.1 == self.whole_copy(),
            forall|k: int| 0 <= k < r.0@.len() ==> r.0@[k].0 < 2 && r.0@[k].1 < 2,
            r.0@.len() <= 2,
    {
        let a_immediate = match self.fields[0] {
            Field::Inmediate(_) => true,
            _ => false,
        };
        let b_immediate = match self.fields[1] {
            Field::Inmediate(_) => true,
            _ => false,
        };
        match self.modifier {
            OpModifier::A => (vec![(0, 0)], false),
            OpModifier::B => (vec![(1, 1)], false),
            OpModifier::AB => (vec![(0, 1)], false),
            OpModifier::BA => (vec![(1, 0)], false),
            OpModifier::F => (vec![(0, 0), (1, 1)], false),
            OpModifier::X => (vec![(0, 1), (1, 0)], false),
            OpModifier::I => (vec![(0, 0), (1, 1)], true),
            OpModifier::Default => {
                match self.code {
                    OpCode::DAT | OpCode::NOP => (vec![], false),
                    OpCode::MOV | OpCode::SEQ | OpCode::SNE | OpCode::CMP => {
                        if a_immediate {
                            (vec![(0, 1)], false)
                        } else if b_immediate {
                            (vec![(1, 1)], false)
                        } else {
                            (vec![(0, 0), (1, 1)], true)
                        }
                    },
                    OpCode::ADD | OpCode::SUB | OpCode::MUL | OpCode::DIV | OpCode::MOD => {
                        if a_immediate {
                            (vec![(0, 1)], false)
                        } else if b_immediate {
                            (vec![(1, 1)], false)
                        } else {
                            (vec![(0, 0), (1, 1)], false)
                        }
                    },
                    OpCode::SLT => {
                        if a_immediate {
                            (vec![(0, 1)], false)
                        } else {
                            (vec![(1, 1)], false)
                        }
                    },
                    OpCode::JMP | OpCode::JMZ | OpCode::JMN | OpCode::DJN | OpCode::SPL => (
                        vec![(1, 1)],
                        false,
                    ),
                }
            },
        }
    }

    /// Field A for 0, field B for 1.
    pub(crate) fn get_field(&self, i: usize) -> (r: Field)
        requires
            i < 2,
        ensures
            r == self.fields[i as int],
    {
        self.fields[i]
    }
}

/// The field of an operand that was not written: the instruction's own cell.
pub open spec fn default_field(core_size: usize) -> Field {
    Field::Direct(ModUsize { val: 0, congruence: core_size })
}

/// The instruction made of what a line wrote. A `DAT` with one operand holds
/// it in field B; an operand that was not written is the default field.
pub open spec fn assemble(
    code: OpCode,
    modifier: OpModifier,
    a: Option<Field>,
    b: Option<Field>,
    core_size: usize,
) -> Instruction {
    let first = if code is DAT && b is None {
        b
    } else {
        a
    };
    let second = if code is DAT && b is None {
        a
    } else {
        b
    };
    Instruction {
        ptr_range: core_size,
        core_size,
        code,
        modifier,
        fields: [
            match first {
                Some(field) => field,
                None => default_field(core_size),
            },
            match second {
                Some(field) => field,
                None => default_field(core_size),
            },
        ],
    }
}

/// The part of a line that is code: what stands before the first `;`,
/// without the blanks that it starts with.
pub open spec fn code_of(line: Seq<char>) -> Seq<char> {
    trim_start(line.take(index_of(line, ';')))
}

/// What a line writes: operation, modifier, field A and field B, the fields
/// as far as they are written.
pub struct Written {
    /// The operation.
    pub code: OpCode,
    /// The modifier.
    pub modifier: OpModifier,
    /// The first operand.
    pub a: Option<Field>,
    /// The second operand.
    pub b: Option<Field>,
}

/// The parts that `line` writes, in upper case: an operation, a modifier if
/// one is written, and up to two operands with a comma between them. A line
/// without code writes nothing.
pub open spec fn parse_parts(line: Seq<char>, core_size: usize) -> Result<Option<Written>, Seq<char>> {
    if code_of(line).len() == 0 {
        Ok(None)
    } else {
        match parse_opcode(code_of(line)) {
            Err(e) => Err(e),
            Ok((code, after_code)) => match parse_modifier(trim_start(after_code)) {
                Err(e) => Err(e),
                Ok((modifier, after_modifier)) => match parse_field(
                    trim_start(after_modifier),
                    core_size,
                ) {
                    Err(e) => Err(e),
                    Ok((a, after_a)) => match parse_field(trim_start(after_a), core_size) {
                        Err(e) => Err(e),
                        Ok((b, _)) => Ok(Some(Written { code, modifier, a, b })),
                    },
                },
            },
        }
    }
}

/// The instruction that `line` writes, in upper case. A line without code
/// writes none.
pub open spec fn parse_instruction(line: Seq<char>, core_size: usize) -> Result<
    Option<Instruction>,
    Seq<char>,
> {
    match parse_parts(line, core_size) {
        Err(e) => Err(e),
        Ok(None) => Ok(None),
        Ok(Some(w)) => Ok(Some(assemble(w.code, w.modifier, w.a, w.b, core_size))),
    }
}

impl Instruction {
    /// The instruction as it is written: operation, modifier, a space, field
    /// A, a comma and a space, field B.
    pub open spec fn written(self) -> Seq<char> {
        self.code.mnemonic() + self.modifier.written() + " "@ + self.fields[0].written() + ", "@
            + self.fields[1].written()
    }

    /// The instruction as it is written.
    pub fn text(&self) -> (r: String)
        requires
            self.fields[0].value().wf(),
            self.fields[1].value().wf(),
        ensures
            r@ == self.written(),
    {
        let mut r = self.code.text();
        r.append(self.modifier.text().as_str());
        r.append(" ");
        r.append(self.fields[0].text().as_str());
        r.append(", ");
        r.append(self.fields[1].text().as_str());
        r
    }

    /// The instruction can be drawn for a core of `core_size` cells with
    /// offsets below `ptr_range`: it keeps both numbers, has a written
    /// modifier, and both of its fields can be drawn.
    pub open spec fn is_drawn(self, ptr_range: usize, core_size: usize) -> bool {
        &&& self.ptr_range == ptr_range
        &&& self.core_size == core_size
        &&& !(self.modifier is Default)
        &&& is_drawn_field(self.fields[0], ptr_range, core_size)
        &&& is_drawn_field(self.fields[1], ptr_range, core_size)
    }

    /// An instruction at random for a core of `core_size` cells, with
    /// offsets below `ptr_range` and a written modifier.
    pub fn get_random(ptr_range: usize, core_size: usize) -> (r: Self)
        requires
            ptr_range > 0,
            core_size > 0,
        ensures
            r.is_drawn(ptr_range, core_size),
            r.wf(core_size),
    {
        Self {
            core_size,
            ptr_range,
            code: OpCode::get_random(),
            modifier: OpModifier::get_random(),
            fields: [
                Field::get_random(ptr_range, core_size),
                Field::get_random(ptr_range, core_size),
            ],
        }
    }

    /// Replaces the instruction by one at random for the same core and the
    /// same range of offsets.
    pub fn mutate(&mut self)
        requires
            old(self).ptr_range > 0,
            old(self).core_size > 0,
        ensures
            final(self).is_drawn(old(self).ptr_range, old(self).core_size),
            final(self).wf(old(self).core_size),
    {
        *self = Self::get_random(self.ptr_range, self.core_size)
    }

    /// Reads the parts that `line` writes, in upper case.
    pub fn parse_parts_chars(line: &Vec<char>, core_size: usize) -> (r: Result<
        Option<(OpCode, OpModifier, Option<Field>, Option<Field>)>,
        String,
    >)
        requires
            core_size > 0,
        ensures
            match r {
                Ok(None) => parse_parts(line@, core_size) == Ok::<Option<Written>, Seq<char>>(None),
                Ok(Some((code, modifier, a, b))) => parse_parts(line@, core_size) == Ok::<
                    Option<Written>,
                    Seq<char>,
                >(Some(Written { code, modifier, a, b })),
                Err(e) => parse_parts(line@, core_size) == Err::<Option<Written>, Seq<char>>(e@),
            },
            r matches Ok(Some((_, _, Some(a), _))) ==> a.wf(core_size),
            r matches Ok(Some((_, _, _, Some(b)))) ==> b.wf(core_size),
    {
        assert(line@.skip(0) =~= line@);
        let end = find_from(line, 0, ';');
        let before = slice_of(line, 0, end);
        assert(line@.subrange(0, end as int) =~= line@.take(end as int));
        let line = trimmed_start(&before);
        if line.len() == 0 {
            return Ok(None);
        }
        let (code, line) = match OpCode::parse_chars(&line) {
            Ok(found) => found,
            Err(e) => {
                return Err(e);
            },
        };
        let line = trimmed_start(&line);
        let (modifier, line) = match OpModifier::parse_chars(&line) {
            Ok(found) => found,
            Err(e) => {
                return Err(e);
            },
        };
        let line = trimmed_start(&line);
        let (a, line) = match Field::parse_chars(&line, core_size) {
            Ok(found) => found,
            Err(e) => {
                return Err(e);
            },
        };
        let line = trimmed_start(&line);
        let (b, _) = match Field::parse_chars(&line, core_size) {
            Ok(found) => found,
            Err(e) => {
                return Err(e);
            },
        };
        Ok(Some((code, modifier, a, b)))
    }

    /// Reads the instruction that `line` writes, in upper case.
    pub fn parse_chars(line: &Vec<char>, core_size: usize) -> (r: Result<Option<Self>, String>)
        requires
            core_size > 0,
        ensures
            match r {
                Ok(found) => parse_instruction(line@, core_size) == Ok::<
                    Option<Instruction>,
                    Seq<char>,
                >(found),
                Err(e) => parse_instruction(line@, core_size) == Err::<
                    Option<Instruction>,
                    Seq<char>,
                >(e@),
            },
            r matches Ok(Some(ins)) ==> ins.wf(core_size),
    {
        let (code, modifier, a, b) = match Self::parse_parts_chars(line, core_size) {
            Ok(Some(parts)) => parts,
            Ok(None) => {
                return Ok(None);
            },
            Err(e) => {
                return Err(e);
            },
        };
        let ghost wanted = assemble(code, modifier, a, b, core_size);
        let (a, b) = match code {
            OpCode::DAT => if b.is_none() {
                (b, a)
            } else {
                (a, b)
            },
            _ => (a, b),
        };
        let a = if let Some(a) = a {
            a
        } else {
            Field::default(core_size)
        };
        let b = if let Some(b) = b {
            b
        } else {
            Field::default(core_size)
        };
        let ins = Self { core_size, ptr_range: core_size, code, modifier, fields: [a, b] };
        assert(ins.fields =~= wanted.fields);
        Ok(Some(ins))
    }

    /// Reads the instruction that `line` writes, in upper case.
    pub fn parse(line: String, core_size: usize) -> (r: Result<Option<Self>, String>)
        requires
            core_size > 0,
        ensures
            match r {
                Ok(found) => parse_instruction(line@, core_size) == Ok::<
                    Option<Instruction>,
                    Seq<char>,
                >(found),
                Err(e) => parse_instruction(line@, core_size) == Err::<
                    Option<Instruction>,
                    Seq<char>,
                >(e@),
            },
            r matches Ok(Some(ins)) ==> ins.wf(core_size),
    {
        let chars = chars_of(line.as_str());
        Self::parse_chars(&chars, core_size)
    }
}

} // verus!
