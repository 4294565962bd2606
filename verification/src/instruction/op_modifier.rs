//! The modifier of an instruction: which sub-fields it reads and writes.

use crate::text::{chars_of, slice_of, string_of};
use crate::utils::pick;
use vstd::prelude::*;

verus! {

/// Which sub-fields of the source go to which sub-fields of the destination.
#[derive(Clone, Copy, Debug, PartialEq, Eq, Structural)]
pub enum OpModifier {
    /// A of the source to A of the destination.
    A,
    /// B to B.
    B,
    /// A to B.
    AB,
    /// B to A.
    BA,
    /// A to A and B to B.
    F,
    /// A to B and B to A.
    X,
    /// The whole instruction.
    I,
    /// None written: the operation and the addressing modes decide.
    Default,
}

/// What is answered for a dot that no modifier follows.
pub open spec fn stray_dot_error() -> Seq<char> {
    "stray dot, specting op modifier after it"@
}

/// The modifier that two letters after the dot write, if they write one.
pub open spec fn two_letter_modifier(a: char, b: char) -> Option<OpModifier> {
    if a == 'A' && b == 'B' {
        Some(OpModifier::AB)
    } else if a == 'B' && b == 'A' {
        Some(OpModifier::BA)
    } else {
        None
    }
}

/// The modifier that one letter after the dot writes, if it writes one.
pub open spec fn one_letter_modifier(a: char) -> Option<OpModifier> {
    if a == 'A' {
        Some(OpModifier::A)
    } else if a == 'B' {
        Some(OpModifier::B)
    } else if a == 'F' {
        Some(OpModifier::F)
    } else if a == 'X' {
        Some(OpModifier::X)
    } else if a == 'I' {
        Some(OpModifier::I)
    } else {
        None
    }
}

/// The modifier that `line` starts with and the rest of the line. A line
/// that starts with no dot has the default modifier and is left whole; after
/// a dot the longest modifier is taken, and a dot with none is an error.
pub open spec fn parse_modifier(line: Seq<char>) -> Result<(OpModifier, Seq<char>), Seq<char>> {
    if line.len() == 0 || line[0] != '.' {
        Ok((OpModifier::Default, line))
    } else if line.len() >= 3 && two_letter_modifier(line[1], line[2]) is Some {
        Ok((two_letter_modifier(line[1], line[2])->0, line.skip(3)))
    } else if line.len() >= 2 && one_letter_modifier(line[1]) is Some {
        Ok((one_letter_modifier(line[1])->0, line.skip(2)))
    } else {
        Err(stray_dot_error())
    }
}

impl OpModifier {
    /// The modifier as it is written: a dot and its letters, or nothing for
    /// the default.
    pub open spec fn written(self) -> Seq<char> {
        match self {
            OpModifier::A => ".A"@,
            OpModifier::B => ".B"@,
            OpModifier::AB => ".AB"@,
            OpModifier::BA => ".BA"@,
            OpModifier::F => ".F"@,
            OpModifier::X => ".X"@,
            OpModifier::I => ".I"@,
            OpModifier::Default => ""@,
        }
    }

    /// The modifier as it is written.
    pub fn text(&self) -> (r: String)
        ensures
            r@ == self.written(),
    {
        match self {
            OpModifier::A => ".A".to_string(),
            OpModifier::B => ".B".to_string(),
            OpModifier::AB => ".AB".to_string(),
            OpModifier::BA => ".BA".to_string(),
            OpModifier::F => ".F".to_string(),
            OpModifier::X => ".X".to_string(),
            OpModifier::I => ".I".to_string(),
            OpModifier::Default => "".to_string(),
        }
    }

    /// A written modifier at random: never the default.
    pub fn get_random() -> (r: OpModifier)
        ensures
            !(r is Default),
    {
        let all = [
            OpModifier::A,
            OpModifier::B,
            OpModifier::AB,
            OpModifier::BA,
            OpModifier::F,
            OpModifier::X,
            OpModifier::I,
        ];
        let r = pick(all.as_slice());
        assert(all@.contains(r));
        r
    }

    /// Reads the modifier that `line` starts with, in upper case, and returns
    /// it with the rest of the line.
    pub fn parse_chars(line: &Vec<char>) -> (r: Result<(OpModifier, Vec<char>), String>)
        ensures
            match r {
                Ok((modifier, rest)) => parse_modifier(line@) == Ok::<
                    (OpModifier, Seq<char>),
                    Seq<char>,
                >((modifier, rest@)),
                Err(e) => parse_modifier(line@) == Err::<(OpModifier, Seq<char>), Seq<char>>(e@),
            },
    {
        let len = line.len();
        if len == 0 || line[0] != '.' {
            let rest = slice_of(line, 0, len);
            assert(line@.subrange(0, len as int) =~= line@);
            return Ok((OpModifier::Default, rest));
        }
        proof {
            assert(line@.subrange(3, len as int) =~= line@.skip(3));
            assert(line@.subrange(2, len as int) =~= line@.skip(2));
        }
        if len >= 3 && line[1] == 'A' && line[2] == 'B' {
            Ok((OpModifier::AB, slice_of(line, 3, len)))
        } else if len >= 3 && line[1] == 'B' && line[2] == 'A' {
            Ok((OpModifier::BA, slice_of(line, 3, len)))
        } else if len >= 2 && line[1] == 'A' {
            Ok((OpModifier::A, slice_of(line, 2, len)))
        } else if len >= 2 && line[1] == 'B' {
            Ok((OpModifier::B, slice_of(line, 2, len)))
        } else if len >= 2 && line[1] == 'F' {
            Ok((OpModifier::F, slice_of(line, 2, len)))
        } else if len >= 2 && line[1] == 'X' {
            Ok((OpModifier::X, slice_of(line, 2, len)))
        } else if len >= 2 && line[1] == 'I' {
            Ok((OpModifier::I, slice_of(line, 2, len)))
        } else {
            Err("stray dot, specting op modifier after it".to_string())
        }
    }

    /// Reads the modifier that `line` starts with, in upper case, and returns
    /// it with the rest of the line.
    pub fn parse(line: String) -> (r: Result<(Self, String), String>)
        ensures
            match r {
                Ok((modifier, rest)) => parse_modifier(line@) == Ok::<
                    (OpModifier, Seq<char>),
                    Seq<char>,
                >((modifier, rest@)),
                Err(e) => parse_modifier(line@) == Err::<(OpModifier, Seq<char>), Seq<char>>(e@),
            },
    {
        let chars = chars_of(line.as_str());
        match Self::parse_chars(&chars) {
            Ok((modifier, rest)) => Ok((modifier, string_of(&rest))),
            Err(e) => Err(e),
        }
    }
}

} // verus!
