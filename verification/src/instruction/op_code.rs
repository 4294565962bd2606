//! The operations of the instruction set.

use crate::text::{chars_of, slice_of, string_of};
use crate::utils::pick;
use vstd::prelude::*;
use vstd::string::StringExecFns;

verus! {

/// The operation that an instruction performs.
#[derive(Clone, Copy, Debug, PartialEq, Eq, Structural)]
pub enum OpCode {
    /// Data: executing it ends the process.
    DAT,
    /// Move: copies the source to the destination.
    MOV,
    /// Add: adds the source to the destination.
    ADD,
    /// Subtract: takes the source away from the destination.
    SUB,
    /// Multiply: multiplies the destination by the source.
    MUL,
    /// Divide: divides the destination by the source.
    DIV,
    /// Modulus: leaves the remainder of the destination divided by the source.
    MOD,
    /// Jump: continues at the address of the first field.
    JMP,
    /// Jump if zero.
    JMZ,
    /// Jump if not zero.
    JMN,
    /// Decrement, then jump if not zero.
    DJN,
    /// Split: starts a second process at the address of the first field.
    SPL,
    /// Compare: the older name of `SEQ`.
    CMP,
    /// Skip the next instruction if source and destination are equal.
    SEQ,
    /// Skip the next instruction if source and destination differ.
    SNE,
    /// Skip the next instruction if the source is lower than the destination.
    SLT,
    /// No operation.
    NOP,
}

impl OpCode {
    /// The operations that move or compare whole instructions when no
    /// modifier is written and no operand is immediate.
    pub open spec fn is_transfer(self) -> bool {
        self is MOV || self is SEQ || self is SNE || self is CMP
    }

    /// The arithmetic operations.
    pub open spec fn is_arithmetic(self) -> bool {
        self is ADD || self is SUB || self is MUL || self is DIV || self is MOD
    }

    /// The operations that only look at the second field of their target, if at all.
    pub open spec fn is_branch(self) -> bool {
        self is JMP || self is JMZ || self is JMN || self is DJN || self is SPL
    }
}

/// The operation that the three letters `a`, `b`, `c` name, in upper case.
pub open spec fn named_operation(a: char, b: char, c: char) -> Option<OpCode> {
    if a == 'D' && b == 'A' && c == 'T' {
        Some(OpCode::DAT)
    } else if a == 'M' && b == 'O' && c == 'V' {
        Some(OpCode::MOV)
    } else if a == 'A' && b == 'D' && c == 'D' {
        Some(OpCode::ADD)
    } else if a == 'S' && b == 'U' && c == 'B' {
        Some(OpCode::SUB)
    } else if a == 'M' && b == 'U' && c == 'L' {
        Some(OpCode::MUL)
    } else if a == 'D' && b == 'I' && c == 'V' {
        Some(OpCode::DIV)
    } else if a == 'M' && b == 'O' && c == 'D' {
        Some(OpCode::MOD)
    } else if a == 'J' && b == 'M' && c == 'P' {
        Some(OpCode::JMP)
    } else if a == 'J' && b == 'M' && c == 'Z' {
        Some(OpCode::JMZ)
    } else if a == 'J' && b == 'M' && c == 'N' {
        Some(OpCode::JMN)
    } else if a == 'D' && b == 'J' && c == 'N' {
        Some(OpCode::DJN)
    } else if a == 'S' && b == 'P' && c == 'L' {
        Some(OpCode::SPL)
    } else if a == 'C' && b == 'M' && c == 'P' {
        Some(OpCode::CMP)
    } else if a == 'S' && b == 'E' && c == 'Q' {
        Some(OpCode::SEQ)
    } else if a == 'S' && b == 'N' && c == 'E' {
        Some(OpCode::SNE)
    } else if a == 'S' && b == 'L' && c == 'T' {
        Some(OpCode::SLT)
    } else if a == 'N' && b == 'O' && c == 'P' {
        Some(OpCode::NOP)
    } else {
        None
    }
}

/// What is answered for a line that starts with no operation.
pub open spec fn opcode_error(line: Seq<char>) -> Seq<char> {
    "parsing opcode from "@ + line + " failed"@
}

/// The operation that `line` starts with and the rest of the line, or the
/// error for a line that starts with none.
pub open spec fn parse_opcode(line: Seq<char>) -> Result<(OpCode, Seq<char>), Seq<char>> {
    if line.len() >= 3 && named_operation(line[0], line[1], line[2]) is Some {
        Ok((named_operation(line[0], line[1], line[2])->0, line.skip(3)))
    } else {
        Err(opcode_error(line))
    }
}

impl OpCode {
    /// The three letters that name the operation.
    pub open spec fn mnemonic(self) -> Seq<char> {
        match self {
            OpCode::DAT => "DAT"@,
            OpCode::MOV => "MOV"@,
            OpCode::ADD => "ADD"@,
            OpCode::SUB => "SUB"@,
            OpCode::MUL => "MUL"@,
            OpCode::DIV => "DIV"@,
            OpCode::MOD => "MOD"@,
            OpCode::JMP => "JMP"@,
            OpCode::JMZ => "JMZ"@,
            OpCode::JMN => "JMN"@,
            OpCode::DJN => "DJN"@,
            OpCode::SPL => "SPL"@,
            OpCode::CMP => "CMP"@,
            OpCode::SEQ => "SEQ"@,
            OpCode::SNE => "SNE"@,
            OpCode::SLT => "SLT"@,
            OpCode::NOP => "NOP"@,
        }
    }

    /// The name of the operation.
    pub fn text(&self) -> (r: String)
        ensures
            r@ == self.mnemonic(),
    {
        match self {
            OpCode::DAT => "DAT".to_string(),
            OpCode::MOV => "MOV".to_string(),
            OpCode::ADD => "ADD".to_string(),
            OpCode::SUB => "SUB".to_string(),
            OpCode::MUL => "MUL".to_string(),
            OpCode::DIV => "DIV".to_string(),
            OpCode::MOD => "MOD".to_string(),
            OpCode::JMP => "JMP".to_string(),
            OpCode::JMZ => "JMZ".to_string(),
            OpCode::JMN => "JMN".to_string(),
            OpCode::DJN => "DJN".to_string(),
            OpCode::SPL => "SPL".to_string(),
            OpCode::CMP => "CMP".to_string(),
            OpCode::SEQ => "SEQ".to_string(),
            OpCode::SNE => "SNE".to_string(),
            OpCode::SLT => "SLT".to_string(),
            OpCode::NOP => "NOP".to_string(),
        }
    }

    /// An operation at random; the four commonest are twice as likely as the others.
    pub fn get_random() -> (r: OpCode) {
        let all = [
            OpCode::DAT,
            OpCode::MOV,
            OpCode::ADD,
            OpCode::SUB,
            OpCode::DAT,
            OpCode::MOV,
            OpCode::ADD,
            OpCode::SUB,
            OpCode::MUL,
            OpCode::DIV,
            OpCode::MOD,
            OpCode::JMP,
            OpCode::JMZ,
            OpCode::JMN,
            OpCode::DJN,
            OpCode::SPL,
            OpCode::CMP,
            OpCode::SEQ,
            OpCode::SNE,
            OpCode::SLT,
            OpCode::NOP,
        ];
        pick(all.as_slice())
    }

    /// The operation that three letters name.
    fn named(a: char, b: char, c: char) -> (r: Option<OpCode>)
        ensures
            r == named_operation(a, b, c),
    {
        if a == 'D' && b == 'A' && c == 'T' {
            Some(OpCode::DAT)
        } else if a == 'M' && b == 'O' && c == 'V' {
            Some(OpCode::MOV)
        } else if a == 'A' && b == 'D' && c == 'D' {
            Some(OpCode::ADD)
        } else if a == 'S' && b == 'U' && c == 'B' {
            Some(OpCode::SUB)
        } else if a == 'M' && b == 'U' && c == 'L' {
            Some(OpCode::MUL)
        } else if a == 'D' && b == 'I' && c == 'V' {
            Some(OpCode::DIV)
        } else if a == 'M' && b == 'O' && c == 'D' {
            Some(OpCode::MOD)
        } else if a == 'J' && b == 'M' && c == 'P' {
            Some(OpCode::JMP)
        } else if a == 'J' && b == 'M' && c == 'Z' {
            Some(OpCode::JMZ)
        } else if a == 'J' && b == 'M' && c == 'N' {
            Some(OpCode::JMN)
        } else if a == 'D' && b == 'J' && c == 'N' {
            Some(OpCode::DJN)
        } else if a == 'S' && b == 'P' && c == 'L' {
            Some(OpCode::SPL)
        } else if a == 'C' && b == 'M' && c == 'P' {
            Some(OpCode::CMP)
        } else if a == 'S' && b == 'E' && c == 'Q' {
            Some(OpCode::SEQ)
        } else if a == 'S' && b == 'N' && c == 'E' {
            Some(OpCode::SNE)
        } else if a == 'S' && b == 'L' && c == 'T' {
            Some(OpCode::SLT)
        } else if a == 'N' && b == 'O' && c == 'P' {
            Some(OpCode::NOP)
        } else {
            None
        }
    }

    /// Reads the operation that `line` starts with, in upper case, and
    /// returns it with the rest of the line.
    pub fn parse_chars(line: &Vec<char>) -> (r: Result<(OpCode, Vec<char>), String>)
        ensures
            match r {
                Ok((code, rest)) => parse_opcode(line@) == Ok::<(OpCode, Seq<char>), Seq<char>>(
                    (code, rest@),
                ),
                Err(e) => parse_opcode(line@) == Err::<(OpCode, Seq<char>), Seq<char>>(e@),
            },
    {
        if line.len() >= 3 {
            if let Some(code) = Self::named(line[0], line[1], line[2]) {
                let rest = slice_of(line, 3, line.len());
                assert(line@.subrange(3, line@.len() as int) =~= line@.skip(3));
                return Ok((code, rest));
            }
        }
        let mut message = String::from_str("parsing opcode from ");
        let text = string_of(line);
        message.append(text.as_str());
        message.append(" failed");
        Err(message)
    }

    /// Reads the operation that `line` starts with, in upper case, and
    /// returns it with the rest of the line.
    pub fn parse(line: String) -> (r: Result<(Self, String), String>)
        ensures
            match r {
                Ok((code, rest)) => parse_opcode(line@) == Ok::<(OpCode, Seq<char>), Seq<char>>(
                    (code, rest@),
                ),
                Err(e) => parse_opcode(line@) == Err::<(OpCode, Seq<char>), Seq<char>>(e@),
            },
    {
        let chars = chars_of(line.as_str());
        match Self::parse_chars(&chars) {
            Ok((code, rest)) => Ok((code, string_of(&rest))),
            Err(e) => Err(e),
        }
    }
}

} // verus!
