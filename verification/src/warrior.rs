//! A warrior: a program and the processes that run it.

use crate::instruction::instruction::{parse_instruction, Instruction};
use crate::text::{chars_of, find_from, index_of, slice_of, trim, trimmed, uppercase, uppercase_text};
use crate::utils::{decimal_text, format_decimal, gen_range, pick_mut};
use crate::utils::ModUsize;
use vstd::prelude::*;
use vstd::string::StringExecFns;

verus! {

/// What a warrior is, as plain values.
pub struct WarriorView {
    /// The offset of the first instruction to run, from the start of the body.
    pub org: usize,
    /// The name.
    pub name: Seq<char>,
    /// The program, as it is written into the core.
    pub body: Seq<Instruction>,
    /// The program counters of the live processes, the next to run first.
    pub threads: Seq<ModUsize>,
}

impl WarriorView {
    /// The same warrior with other processes.
    pub open spec fn with_threads(self, threads: Seq<ModUsize>) -> WarriorView {
        WarriorView { threads, ..self }
    }

    /// Every instruction has a core and a range of offsets to draw from, so
    /// that it can be replaced by one at random.
    pub open spec fn can_mutate(self) -> bool {
        forall|i: int|
            0 <= i < self.body.len() ==> (#[trigger] self.body[i]).ptr_range > 0
                && self.body[i].core_size > 0
    }

    /// Every process stands on a cell of a core of `core_size` cells.
    pub open spec fn threads_fit(self, core_size: usize) -> bool {
        forall|i: int|
            0 <= i < self.threads.len() ==> (#[trigger] self.threads[i]).wf()
                && self.threads[i].congruence == core_size
    }

    /// Every instruction and every process belongs to a core of `core_size` cells.
    pub open spec fn fits(self, core_size: usize) -> bool {
        &&& forall|i: int| 0 <= i < self.body.len() ==> (#[trigger] self.body[i]).wf(core_size)
        &&& self.threads_fit(core_size)
    }
}

/// Whether `line` is the pseudo-instruction that marks where a warrior starts.
pub open spec fn is_org_line(line: Seq<char>) -> bool {
    line.len() >= 3 && line[0] == 'O' && line[1] == 'R' && line[2] == 'G'
}

/// What is answered for a second `ORG`.
pub open spec fn several_org_error() -> Seq<char> {
    "multiple ORG pseudoinstructions found"@
}

/// An error with the number of the line on which it was found, counted from 0.
pub open spec fn line_error(number: nat, message: Seq<char>) -> Seq<char> {
    "linea "@ + decimal_text(number as int) + ": "@ + message
}

/// What the lines of a listing wrote so far.
pub struct Listing {
    /// The number of the line with `ORG`, if one was met.
    pub org: Option<usize>,
    /// The instructions.
    pub body: Seq<Instruction>,
}

/// What line number `number` adds to a listing: an `ORG` line sets the start,
/// once; any other line adds the instruction that it writes, if it writes one.
pub open spec fn parse_line(line: Seq<char>, number: nat, so_far: Listing, core_size: usize) -> Result<
    Listing,
    Seq<char>,
> {
    if is_org_line(line) {
        if so_far.org is None {
            Ok(Listing { org: Some(number as usize), body: so_far.body })
        } else {
            Err(line_error(number, several_org_error()))
        }
    } else {
        match parse_instruction(line, core_size) {
            Ok(None) => Ok(so_far),
            Ok(Some(op)) => Ok(Listing { org: so_far.org, body: so_far.body.push(op) }),
            Err(e) => Err(line_error(number, e)),
        }
    }
}

/// The listing that `text` completes, in upper case: its lines end at each
/// line feed, are numbered from `number` on, and are read without the blanks
/// at their ends. The first line in error ends the reading.
pub open spec fn parse_lines(text: Seq<char>, number: nat, so_far: Listing, core_size: usize) -> Result<
    Listing,
    Seq<char>,
>
    decreases text.len(),
{
    let end = index_of(text, '\n');
    match parse_line(trim(text.take(end)), number, so_far, core_size) {
        Err(e) => Err(e),
        Ok(listing) => if 0 <= end < text.len() {
            parse_lines(text.skip(end + 1), number + 1, listing, core_size)
        } else {
            Ok(listing)
        },
    }
}

/// The warrior that `text` writes, in upper case: it starts at the offset
/// that the number of its `ORG` line gives, or at 0 without one, and has no
/// process yet.
pub open spec fn parse_warrior(text: Seq<char>, name: Seq<char>, core_size: usize) -> Result<
    WarriorView,
    Seq<char>,
> {
    match parse_lines(text, 0, Listing { org: None, body: Seq::empty() }, core_size) {
        Err(e) => Err(e),
        Ok(listing) => Ok(
            WarriorView {
                org: match listing.org {
                    Some(line) => line,
                    None => 0,
                },
                name,
                body: listing.body,
                threads: Seq::empty(),
            },
        ),
    }
}

/// A competitor: a named program and, during a battle, its processes.
#[derive(Debug, Clone, PartialEq)]
pub struct Warrior {
    /// The offset of the first instruction to run, from the start of the body.
    pub org: usize,
    /// The name.
    pub name: String,
    /// The program.
    pub body: Vec<Instruction>,
    /// The program counters of the live processes, the next to run first.
    pub instruction_counters: Vec<ModUsize>,
}

impl View for Warrior {
    type V = WarriorView;

    open spec fn view(&self) -> WarriorView {
        WarriorView {
            org: self.org,
            name: self.name@,
            body: self.body@,
            threads: self.instruction_counters@,
        }
    }
}

impl Warrior {
    /// A warrior that has not been deployed: it has no process yet.
    pub fn new(org: usize, name: String, body: Vec<Instruction>) -> (r: Warrior)
        ensures
            r@ == (WarriorView { org, name: name@, body: body@, threads: Seq::empty() }),
    {
        Warrior { org, name, body, instruction_counters: Vec::new() }
    }

    /// The message of an error on line `number`.
    fn line_message(number: usize, message: &str) -> (r: String)
        ensures
            r@ == line_error(number as nat, message@),
    {
        let mut r = String::from_str("linea ");
        let digits = format_decimal(number as i128);
        r.append(digits.as_str());
        r.append(": ");
        r.append(message);
        r
    }

    /// Reads a warrior from a listing that is in upper case already.
    pub fn parse_upper(text: &Vec<char>, name: String, core_size: usize) -> (r: Result<
        Self,
        String,
    >)
        requires
            core_size > 0,
        ensures
            match r {
                Ok(warrior) => parse_warrior(text@, name@, core_size) == Ok::<
                    WarriorView,
                    Seq<char>,
                >(warrior@),
                Err(e) => parse_warrior(text@, name@, core_size) == Err::<WarriorView, Seq<char>>(
                    e@,
                ),
            },
            r matches Ok(warrior) ==> warrior@.fits(core_size),
    {
        let mut body: Vec<Instruction> = Vec::new();
        let mut start: Option<usize> = None;
        let mut pos: usize = 0;
        let mut number: usize = 0;
        let ghost whole = parse_lines(
            text@,
            0,
            Listing { org: None, body: Seq::empty() },
            core_size,
        );
        assert(text@.skip(0) =~= text@);
        loop
            invariant
                core_size > 0,
                number <= pos <= text@.len(),
                whole == parse_lines(
                    text@,
                    0,
                    Listing { org: None, body: Seq::empty() },
                    core_size,
                ),
                whole == parse_lines(
                    text@.skip(pos as int),
                    number as nat,
                    Listing { org: start, body: body@ },
                    core_size,
                ),
                forall|i: int| 0 <= i < body@.len() ==> (#[trigger] body@[i]).wf(core_size),
            decreases text@.len() - pos,
        {
            let end = find_from(text, pos, '\n');
            let raw = slice_of(text, pos, end);
            assert(text@.subrange(pos as int, end as int) =~= text@.skip(pos as int).take(
                end - pos,
            ));
            let line = trimmed(&raw);
            if line.len() >= 3 && line[0] == 'O' && line[1] == 'R' && line[2] == 'G' {
                if start.is_none() {
                    start = Some(number);
                } else {
                    return Err(
                        Self::line_message(number, "multiple ORG pseudoinstructions found"),
                    );
                }
            } else {
                match Instruction::parse_chars(&line, core_size) {
                    Ok(None) => (),
                    Ok(Some(op)) => body.push(op),
                    Err(err) => {
                        return Err(Self::line_message(number, err.as_str()));
                    },
                }
            }
            if end >= text.len() {
                return Ok(
                    Self {
                        org: match start {
                            Some(line) => line,
                            None => 0,
                        },
                        name,
                        instruction_counters: Vec::new(),
                        body,
                    },
                );
            }
            assert(text@.skip(pos as int).skip(end - pos + 1) =~= text@.skip(end + 1));
            pos = end + 1;
            number += 1;
        }
    }

    /// Reads a warrior from its listing: one instruction on a line, upper or
    /// lower case, with comments after `;`.
    pub fn parse(str: String, name: String, core_size: usize) -> (r: Result<Self, String>)
        requires
            core_size > 0,
        ensures
            match r {
                Ok(warrior) => parse_warrior(uppercase_text(str@), name@, core_size) == Ok::<
                    WarriorView,
                    Seq<char>,
                >(warrior@),
                Err(e) => parse_warrior(uppercase_text(str@), name@, core_size) == Err::<
                    WarriorView,
                    Seq<char>,
                >(e@),
            },
            r matches Ok(warrior) ==> warrior@.fits(core_size),
    {
        let str = uppercase(str.as_str());
        let text = chars_of(str.as_str());
        Self::parse_upper(&text, name, core_size)
    }

    /// A warrior of `size` instructions at random for a core of `core_size`
    /// cells. It starts at an instruction drawn at random and has no process.
    pub fn random_create(size: usize, core_size: usize) -> (r: Self)
        requires
            size > 0,
            core_size > 0,
        ensures
            r@.body.len() == size,
            r@.org < size,
            r@.name == "random"@,
            r@.threads.len() == 0,
            r@.fits(core_size),
            r@.can_mutate(),
            forall|k: int| 0 <= k < size ==> (#[trigger] r@.body[k]).is_drawn(size, core_size),
    {
        let mut body: Vec<Instruction> = Vec::new();
        let mut i: usize = 0;
        while i < size
            invariant
                i <= size,
                size > 0,
                core_size > 0,
                body@.len() == i,
                forall|k: int|
                    0 <= k < body@.len() ==> (#[trigger] body@[k]).wf(core_size) && body@[k].is_drawn(
                        size,
                        core_size,
                    ),
            decreases size - i,
        {
            let inst = Instruction::get_random(size, core_size);
            body.push(inst);
            i += 1;
        }
        let org = gen_range(0, size);
        Warrior { org, name: "random".to_string(), body, instruction_counters: Vec::new() }
    }

    /// A copy of the warrior with one instruction, picked at random, replaced
    /// by an instruction at random.
    pub fn mutate(&self) -> (r: Warrior)
        requires
            self@.body.len() > 0,
            self@.can_mutate(),
        ensures
            r@.org == self@.org,
            r@.name == self@.name,
            r@.threads == self@.threads,
            exists|i: int, fresh: Instruction|
                0 <= i < self@.body.len() && #[trigger] self@.body.update(i, fresh) == r@.body
                    && fresh.is_drawn(self@.body[i].ptr_range, self@.body[i].core_size)
                    && fresh.wf(fresh.core_size),
    {
        let mut offspring = self.duplicate();
        let ghost before = offspring.body@;
        let slot = pick_mut(&mut offspring.body);
        let ghost picked = *slot;
        slot.mutate();
        proof {
            let fresh = *slot;
            let i = choose|i: int|
                0 <= i < before.len() && picked == before[i] && offspring.body@ == before.update(
                    i,
                    fresh,
                );
            assert(self@.body.update(i, fresh) == offspring@.body);
        }
        offspring
    }

    /// A second warrior equal to this one.
    pub fn duplicate(&self) -> (r: Warrior)
        ensures
            r@ == self@,
    {
        let mut body: Vec<Instruction> = Vec::new();
        let mut i: usize = 0;
        while i < self.body.len()
            invariant
                i <= self.body.len(),
                body@ == self.body@.take(i as int),
            decreases self.body.len() - i,
        {
            body.push(self.body[i]);
            i += 1;
        }
        assert(self.body@.take(self.body@.len() as int) =~= self.body@);
        let r = Warrior {
            org: self.org,
            name: self.name.clone(),
            body,
            instruction_counters: self.get_counters(),
        };
        r
    }

    /// Starts a process at `ptr`; it runs after all the others.
    pub fn new_thread(&mut self, ptr: ModUsize)
        ensures
            final(self)@ == old(self)@.with_threads(old(self)@.threads.push(ptr)),
    {
        self.instruction_counters.push(ptr);
    }

    /// The program counters of the live processes, the next to run first.
    pub fn get_counters(&self) -> (r: Vec<ModUsize>)
        ensures
            r@ == self@.threads,
    {
        let mut counters: Vec<ModUsize> = Vec::new();
        let mut i: usize = 0;
        while i < self.instruction_counters.len()
            invariant
                i <= self.instruction_counters.len(),
                counters@ == self.instruction_counters@.take(i as int),
            decreases self.instruction_counters.len() - i,
        {
            counters.push(self.instruction_counters[i]);
            i += 1;
        }
        assert(self.instruction_counters@.take(self.instruction_counters@.len() as int)
            =~= self.instruction_counters@);
        counters
    }

    /// Takes the process whose turn it is and puts it behind the others; its
    /// counter is returned, and `set_last_instruction_counter` moves it on.
    pub fn get_next_instruction_counter(&mut self) -> (r: ModUsize)
        requires
            old(self)@.threads.len() > 0,
        ensures
            r == old(self)@.threads[0],
            final(self)@ == old(self)@.with_threads(
                old(self)@.threads.drop_first().push(old(self)@.threads[0]),
            ),
    {
        let ret = self.instruction_counters.remove(0);
        self.instruction_counters.push(ret);
        ret
    }

    /// Moves the process that ran last to `val`.
    pub fn set_last_instruction_counter(&mut self, val: ModUsize)
        requires
            old(self)@.threads.len() > 0,
        ensures
            final(self)@ == old(self)@.with_threads(
                old(self)@.threads.update(old(self)@.threads.len() - 1, val),
            ),
    {
        let last_i = self.instruction_counters.len() - 1;
        self.instruction_counters[last_i] = val;
    }

    /// Ends the process that ran last.
    pub(crate) fn kill_thread(&mut self)
        requires
            old(self)@.threads.len() > 0,
        ensures
            final(self)@ == old(self)@.with_threads(old(self)@.threads.drop_last()),
    {
        let last_i = self.instruction_counters.len() - 1;
        self.instruction_counters.remove(last_i);
    }

    /// Whether the warrior has no process left.
    pub(crate) fn dead(&self) -> (r: bool)
        ensures
            r == (self@.threads.len() == 0),
    {
        self.instruction_counters.len() == 0
    }
}

} // verus!
