//! The operand fields of an instruction and their addressing modes.

use crate::engine::CoreRuntime;
use crate::instruction::decrement::Decrement;
use crate::machine::{
    address_wf, core_wf, lemma_resolve_wf, lemma_sum_wf, resolve, resolve_through,
};
use crate::text::{
    chars_of, find_from, index_of, number_of, parse_number, slice_of, string_of, trim, trimmed,
};
use crate::utils::{gen_range, modulo, random_word, ModUsize};
use vstd::prelude::*;
use vstd::string::StringExecFns;

verus! {

/// One operand of an instruction: a number and the way it addresses a cell.
#[derive(Clone, Copy, Debug, PartialEq, Eq, Structural)]
pub enum Field {
    /// The cell at this offset from the instruction.
    Direct(ModUsize),
    /// The instruction's own cell; the number is the operand itself.
    Inmediate(ModUsize),
    /// The cell that the first field of the cell at this offset points to.
    AIndirect(ModUsize, Decrement),
    /// The cell that the second field of the cell at this offset points to.
    BIndirect(ModUsize, Decrement),
}

impl Field {
    /// The number that the field holds, whatever its addressing mode.
    pub open spec fn value(self) -> ModUsize {
        match self {
            Field::Direct(x) => x,
            Field::Inmediate(x) => x,
            Field::AIndirect(x, _) => x,
            Field::BIndirect(x, _) => x,
        }
    }

    /// The field with its number replaced and its addressing mode kept.
    pub open spec fn with_value(self, data: ModUsize) -> Field {
        match self {
            Field::Direct(_) => Field::Direct(data),
            Field::Inmediate(_) => Field::Inmediate(data),
            Field::AIndirect(_, m) => Field::AIndirect(data, m),
            Field::BIndirect(_, m) => Field::BIndirect(data, m),
        }
    }

    /// The field belongs to a core of `core_size` cells: its number is a
    /// reduced residue modulo `core_size`.
    pub open spec fn wf(self, core_size: usize) -> bool {
        self.value().wf() && self.value().congruence == core_size
    }

    /// The number that the field holds.
    pub fn get_val(&self) -> (r: &ModUsize)
        ensures
            *r == self.value(),
    {
        match self {
            Field::Direct(x) => x,
            Field::Inmediate(x) => x,
            Field::AIndirect(x, _) => x,
            Field::BIndirect(x, _) => x,
        }
    }

    /// Replaces the number that the field holds; the addressing mode stays.
    pub fn set_val(&mut self, data: ModUsize)
        ensures
            *final(self) == old(self).with_value(data),
    {
        *self = match *self {
            Field::Direct(_) => Field::Direct(data),
            Field::Inmediate(_) => Field::Inmediate(data),
            Field::AIndirect(_, m) => Field::AIndirect(data, m),
            Field::BIndirect(_, m) => Field::BIndirect(data, m),
        };
    }

    /// Takes one from the number, modulo the core size.
    pub(crate) fn decrement(&mut self)
        requires
            old(self).value().wf(),
        ensures
            *final(self) == old(self).with_value(old(self).value().moved(-1)),
            final(self).value().wf(),
    {
        let next = self.get_val().inc(-1);
        self.set_val(next);
    }

    /// Adds one to the number, modulo the core size.
    pub(crate) fn increment(&mut self)
        requires
            old(self).value().wf(),
        ensures
            *final(self) == old(self).with_value(old(self).value().moved(1)),
            final(self).value().wf(),
    {
        let next = self.get_val().inc(1);
        self.set_val(next);
    }

    /// Resolves the field of the instruction at `ic`: returns the address that
    /// it designates and performs, on the cell that an indirect field points
    /// through, the decrement before the read or the increment after it.
    pub fn solve(&self, core: &mut CoreRuntime, ic: ModUsize) -> (r: ModUsize)
        requires
            core_wf(old(core).core@),
            address_wf(ic, old(core).core@.len()),
            self.wf(old(core).core@.len() as usize),
        ensures
            r == resolve(*self, old(core).core@, ic).address,
            final(core).core@ == resolve(*self, old(core).core@, ic).core,
            final(core).warriors == old(core).warriors,
            final(core).core_size == old(core).core_size,
            core_wf(final(core).core@),
            final(core).core@.len() == old(core).core@.len(),
            address_wf(r, old(core).core@.len()),
    {
        proof {
            lemma_resolve_wf(*self, core.core@, ic);
        }
        match self {
            Field::Direct(p) => ic + *p,
            Field::Inmediate(_) => ic,
            Field::AIndirect(x, m) => {
                proof {
                    lemma_sum_wf(ic, *x);
                }
                Self::solve_through(core, ic + *x, 0, *m)
            },
            Field::BIndirect(x, m) => {
                proof {
                    lemma_sum_wf(ic, *x);
                }
                Self::solve_through(core, ic + *x, 1, *m)
            },
        }
    }

    /// Resolution through sub-field `sub` of the cell at `pointer`.
    fn solve_through(core: &mut CoreRuntime, pointer: ModUsize, sub: usize, mode: Decrement) -> (r:
        ModUsize)
        requires
            core_wf(old(core).core@),
            address_wf(pointer, old(core).core@.len()),
            sub < 2,
        ensures
            r == resolve_through(old(core).core@, pointer, sub, mode).address,
            final(core).core@ == resolve_through(old(core).core@, pointer, sub, mode).core,
            final(core).warriors == old(core).warriors,
            final(core).core_size == old(core).core_size,
    {
        assert(core.core@[pointer.val as int].wf(core.core@.len() as usize));
        if let Decrement::Predecrement = mode {
            core.get_mut_instruction_at(&pointer).fields[sub].decrement();
        }
        assert(core.core@[pointer.val as int].fields[sub as int].value().wf());
        let ret = pointer + *core.get_instruction_at(&pointer).fields[sub].get_val();
        if let Decrement::Postincrement = mode {
            core.get_mut_instruction_at(&pointer).fields[sub].increment();
        }
        proof {
            let wanted = resolve_through(old(core).core@, pointer, sub, mode).core;
            assert(core.core@[pointer.val as int].fields =~= wanted[pointer.val as int].fields);
            assert(core.core@ =~= wanted);
        }
        ret
    }

    /// The field of an operand that was not written: the instruction's own cell.
    pub(crate) fn default(core_size: usize) -> (r: Field)
        requires
            core_size > 0,
        ensures
            r == Field::Direct(ModUsize { val: 0, congruence: core_size }),
            r.wf(core_size),
    {
        Field::Direct(ModUsize::new(0, core_size))
    }
}

/// What is answered for an operand whose number cannot be read.
pub open spec fn number_error() -> Seq<char> {
    "parsing number failed"@
}

/// The field that the mark `sigil` in front of a number makes of it, or
/// `None` where the character is no mark.
pub open spec fn marked_field(sigil: char, value: ModUsize) -> Option<Field> {
    if sigil == '#' {
        Some(Field::Inmediate(value))
    } else if sigil == '$' {
        Some(Field::Direct(value))
    } else if sigil == '*' {
        Some(Field::AIndirect(value, Decrement::Plain))
    } else if sigil == '@' {
        Some(Field::BIndirect(value, Decrement::Plain))
    } else if sigil == '{' {
        Some(Field::AIndirect(value, Decrement::Predecrement))
    } else if sigil == '<' {
        Some(Field::BIndirect(value, Decrement::Predecrement))
    } else if sigil == '}' {
        Some(Field::AIndirect(value, Decrement::Postincrement))
    } else if sigil == '>' {
        Some(Field::BIndirect(value, Decrement::Postincrement))
    } else {
        None
    }
}

/// Whether `c` marks an addressing mode.
pub open spec fn is_sigil(c: char) -> bool {
    c == '#' || c == '$' || c == '*' || c == '@' || c == '{' || c == '<' || c == '}' || c == '>'
}

/// The field that `token` writes: a mark, if any, and a number, which is
/// taken modulo `core_size`. Without a mark the field is direct.
pub open spec fn parse_operand(token: Seq<char>, core_size: usize) -> Option<Field> {
    let marked = token.len() > 0 && is_sigil(token[0]);
    let number = parse_number(
        if marked {
            token.drop_first()
        } else {
            token
        },
    );
    match number {
        None => None,
        Some(n) => if marked {
            marked_field(token[0], ModUsize::residue(n, core_size))
        } else {
            Some(Field::Direct(ModUsize::residue(n, core_size)))
        },
    }
}

/// `s` with a space in place of every comma.
pub open spec fn commas_to_spaces(s: Seq<char>) -> Seq<char> {
    s.map_values(|c: char| if c == ',' {
            ' '
        } else {
            c
        })
}

/// The first operand of `line` and what follows it. A blank line holds no
/// operand. Else the operand stands before the first comma, blanks round it
/// put aside; what follows the comma is handed on with its own commas
/// replaced by spaces.
pub open spec fn parse_field(line: Seq<char>, core_size: usize) -> Result<
    (Option<Field>, Seq<char>),
    Seq<char>,
> {
    let text = trim(line);
    let comma = index_of(text, ',');
    if text.len() == 0 {
        Ok((None, Seq::empty()))
    } else {
        match parse_operand(trim(text.take(comma)), core_size) {
            None => Err(number_error()),
            Some(field) => Ok(
                (
                    Some(field),
                    if comma < text.len() {
                        commas_to_spaces(text.skip(comma + 1))
                    } else {
                        Seq::empty()
                    },
                ),
            ),
        }
    }
}

/// A field that was read belongs to the core it was read for.
pub proof fn lemma_parse_operand_wf(token: Seq<char>, core_size: usize)
    requires
        core_size > 0,
    ensures
        parse_operand(token, core_size) matches Some(field) ==> field.wf(core_size),
{
    let marked = token.len() > 0 && is_sigil(token[0]);
    let number = parse_number(
        if marked {
            token.drop_first()
        } else {
            token
        },
    );
    if let Some(n) = number {
        crate::utils::lemma_residue_wf(n, core_size);
    }
}

/// The field that four draws make: `kind` chooses the addressing mode, a
/// direct or indirect field holds `offset` and an immediate one `literal`,
/// both modulo `core_size`, and an indirect field has the side effect `mode`.
pub open spec fn drawn_field(
    kind: usize,
    offset: usize,
    literal: usize,
    mode: Decrement,
    core_size: usize,
) -> Field {
    if kind % 4 == 0 {
        Field::Direct(ModUsize::residue(offset as int, core_size))
    } else if kind % 4 == 1 {
        Field::Inmediate(ModUsize::residue(literal as int, core_size))
    } else if kind % 4 == 2 {
        Field::AIndirect(ModUsize::residue(offset as int, core_size), mode)
    } else {
        Field::BIndirect(ModUsize::residue(offset as int, core_size), mode)
    }
}

/// `field` can be drawn for a core of `core_size` cells: it is made of some
/// draws, with an offset below `ptr_range` and a literal below `core_size`.
pub open spec fn is_drawn_field(field: Field, ptr_range: usize, core_size: usize) -> bool {
    exists|kind: usize, offset: usize, literal: usize, mode: Decrement|
        offset < ptr_range && literal < core_size && field == #[trigger] drawn_field(
            kind,
            offset,
            literal,
            mode,
            core_size,
        )
}

impl Field {
    /// The mark of the addressing mode as it is written; a direct field has none.
    pub open spec fn mark(self) -> Seq<char> {
        match self {
            Field::Direct(_) => ""@,
            Field::Inmediate(_) => "#"@,
            Field::AIndirect(_, Decrement::Plain) => "*"@,
            Field::AIndirect(_, Decrement::Predecrement) => "{"@,
            Field::AIndirect(_, Decrement::Postincrement) => "}"@,
            Field::BIndirect(_, Decrement::Plain) => "@"@,
            Field::BIndirect(_, Decrement::Predecrement) => "<"@,
            Field::BIndirect(_, Decrement::Postincrement) => ">"@,
        }
    }

    /// The field as it is written: its mark and its number, signed and
    /// nearest to zero.
    pub open spec fn written(self) -> Seq<char> {
        self.mark() + crate::utils::decimal_text(self.value().centered_spec())
    }

    /// The field as it is written.
    pub fn text(&self) -> (r: String)
        requires
            self.value().wf(),
        ensures
            r@ == self.written(),
    {
        let mut r = match self {
            Field::Direct(_) => "".to_string(),
            Field::Inmediate(_) => "#".to_string(),
            Field::AIndirect(_, Decrement::Plain) => "*".to_string(),
            Field::AIndirect(_, Decrement::Predecrement) => "{".to_string(),
            Field::AIndirect(_, Decrement::Postincrement) => "}".to_string(),
            Field::BIndirect(_, Decrement::Plain) => "@".to_string(),
            Field::BIndirect(_, Decrement::Predecrement) => "<".to_string(),
            Field::BIndirect(_, Decrement::Postincrement) => ">".to_string(),
        };
        let number = crate::utils::format_decimal(Self::t(self.get_val()) as i128);
        r.append(number.as_str());
        r
    }

    /// The number as it is shown: signed, and nearest to zero.
    pub(crate) fn t(x: &ModUsize) -> (r: isize)
        requires
            x.wf(),
        ensures
            r == x.centered_spec(),
    {
        x.centered()
    }

    /// The field that four draws make.
    pub fn from_draws(kind: usize, offset: usize, literal: usize, mode: Decrement, core_size: usize) -> (r:
        Field)
        requires
            core_size > 0,
        ensures
            r == drawn_field(kind, offset, literal, mode, core_size),
            r.wf(core_size),
    {
        proof {
            crate::utils::lemma_residue_wf(offset as int, core_size);
            crate::utils::lemma_residue_wf(literal as int, core_size);
        }
        let at = ModUsize { val: modulo(offset as i128, core_size), congruence: core_size };
        if kind % 4 == 0 {
            Field::Direct(at)
        } else if kind % 4 == 1 {
            Field::Inmediate(
                ModUsize { val: modulo(literal as i128, core_size), congruence: core_size },
            )
        } else if kind % 4 == 2 {
            Field::AIndirect(at, mode)
        } else {
            Field::BIndirect(at, mode)
        }
    }

    /// A field at random for a core of `core_size` cells: the four
    /// addressing modes are equally likely, an offset is drawn below
    /// `ptr_range` and a literal below `core_size`.
    pub fn get_random(ptr_range: usize, core_size: usize) -> (r: Field)
        requires
            ptr_range > 0,
            core_size > 0,
        ensures
            r.wf(core_size),
            is_drawn_field(r, ptr_range, core_size),
    {
        let offset = gen_range(0, ptr_range);
        let literal = gen_range(0, core_size);
        let mode = Decrement::get_random();
        let kind = random_word();
        Self::from_draws(kind, offset, literal, mode, core_size)
    }

    /// The field that `token` writes.
    pub fn parse_token(token: &Vec<char>, core_size: usize) -> (r: Option<Field>)
        requires
            core_size > 0,
        ensures
            r == parse_operand(token@, core_size),
            r matches Some(field) ==> field.wf(core_size),
    {
        proof {
            lemma_parse_operand_wf(token@, core_size);
        }
        let sigil: char = if token.len() > 0 {
            token[0]
        } else {
            ' '
        };
        let marked = token.len() > 0 && (sigil == '#' || sigil == '$' || sigil == '*' || sigil
            == '@' || sigil == '{' || sigil == '<' || sigil == '}' || sigil == '>');
        let number = if marked {
            let digits = slice_of(token, 1, token.len());
            assert(token@.subrange(1, token@.len() as int) =~= token@.drop_first());
            number_of(&digits)
        } else {
            number_of(token)
        };
        match number {
            None => None,
            Some(n) => {
                let value = ModUsize::new(n, core_size);
                if !marked || sigil == '$' {
                    Some(Field::Direct(value))
                } else if sigil == '#' {
                    Some(Field::Inmediate(value))
                } else if sigil == '*' {
                    Some(Field::AIndirect(value, Decrement::Plain))
                } else if sigil == '@' {
                    Some(Field::BIndirect(value, Decrement::Plain))
                } else if sigil == '{' {
                    Some(Field::AIndirect(value, Decrement::Predecrement))
                } else if sigil == '<' {
                    Some(Field::BIndirect(value, Decrement::Predecrement))
                } else if sigil == '}' {
                    Some(Field::AIndirect(value, Decrement::Postincrement))
                } else {
                    Some(Field::BIndirect(value, Decrement::Postincrement))
                }
            },
        }
    }

    /// Reads the first operand of `line` and returns it with what follows it.
    pub fn parse_chars(line: &Vec<char>, core_size: usize) -> (r: Result<
        (Option<Field>, Vec<char>),
        String,
    >)
        requires
            core_size > 0,
        ensures
            match r {
                Ok((field, rest)) => parse_field(line@, core_size) == Ok::<
                    (Option<Field>, Seq<char>),
                    Seq<char>,
                >((field, rest@)),
                Err(e) => parse_field(line@, core_size) == Err::<
                    (Option<Field>, Seq<char>),
                    Seq<char>,
                >(e@),
            },
            r matches Ok((Some(field), _)) ==> field.wf(core_size),
    {
        let text = trimmed(line);
        if text.len() == 0 {
            return Ok((None, Vec::new()));
        }
        assert(text@.skip(0) =~= text@);
        let comma = find_from(&text, 0, ',');
        let before = slice_of(&text, 0, comma);
        assert(text@.subrange(0, comma as int) =~= text@.take(comma as int));
        let token = trimmed(&before);
        match Self::parse_token(&token, core_size) {
            None => Err("parsing number failed".to_string()),
            Some(field) => {
                let mut rest: Vec<char> = Vec::new();
                if comma < text.len() {
                    let ghost tail = text@.skip(comma + 1);
                    let mut i: usize = comma + 1;
                    while i < text.len()
                        invariant
                            comma < i <= text@.len(),
                            tail == text@.skip(comma + 1),
                            rest@ == commas_to_spaces(tail.take(i - comma - 1)),
                        decreases text@.len() - i,
                    {
                        let c = text[i];
                        rest.push(
                            if c == ',' {
                                ' '
                            } else {
                                c
                            },
                        );
                        proof {
                            assert(commas_to_spaces(tail.take(i - comma)) =~= commas_to_spaces(
                                tail.take(i - comma - 1),
                            ).push(
                                if c == ',' {
                                    ' '
                                } else {
                                    c
                                },
                            ));
                        }
                        i += 1;
                    }
                    assert(tail.take(tail.len() as int) =~= tail);
                }
                Ok((Some(field), rest))
            },
        }
    }

    /// Reads the first operand of `line` and returns it with what follows it.
    pub fn parse(line: String, core_size: usize) -> (r: Result<(Option<Self>, String), String>)
        requires
            core_size > 0,
        ensures
            match r {
                Ok((field, rest)) => parse_field(line@, core_size) == Ok::<
                    (Option<Field>, Seq<char>),
                    Seq<char>,
                >((field, rest@)),
                Err(e) => parse_field(line@, core_size) == Err::<
                    (Option<Field>, Seq<char>),
                    Seq<char>,
                >(e@),
            },
            r matches Ok((Some(field), _)) ==> field.wf(core_size),
    {
        let chars = chars_of(line.as_str());
        match Self::parse_chars(&chars, core_size) {
            Ok((field, rest)) => Ok((field, string_of(&rest))),
            Err(e) => Err(e),
        }
    }
}

} // verus!
