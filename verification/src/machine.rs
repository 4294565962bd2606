//! What one step of the machine does, as mathematics: the resolution of the
//! operands, the effect of each operation, and the order in which warriors and
//! their processes take turns. The engine is proved against these functions.

use crate::instruction::decrement::Decrement;
use crate::instruction::field::Field;
use crate::instruction::instruction::Instruction;
use crate::instruction::op_code::OpCode;
use crate::utils::ModUsize;
use crate::warrior::WarriorView;
use vstd::arithmetic::div_mod::lemma_mod_bound;
use vstd::prelude::*;
use vstd::std_specs::ops::{AddSpec, DivSpec, MulSpec, SubSpec};

verus! {

/// The core with the number of sub-field `sub` of cell `at` replaced by `data`.
pub open spec fn poke(core: Seq<Instruction>, at: ModUsize, sub: usize, data: ModUsize) -> Seq<
    Instruction,
> {
    core.update(at.val as int, core[at.val as int].with_field_value(sub as int, data))
}

/// Every cell of the core belongs to a core of this length.
pub open spec fn core_wf(core: Seq<Instruction>) -> bool {
    &&& core.len() <= usize::MAX
    &&& forall|i: int| 0 <= i < core.len() ==> (#[trigger] core[i]).wf(core.len() as usize)
}

/// An address of a core of `len` cells.
pub open spec fn address_wf(at: ModUsize, len: nat) -> bool {
    at.wf() && at.congruence == len
}

/// What resolving a field gives: the address it designates and the core as
/// the resolution left it.
pub struct Resolved {
    /// The core after the side effects of the resolution.
    pub core: Seq<Instruction>,
    /// The address that the field designates.
    pub address: ModUsize,
}

/// Resolution through the sub-field `sub` of the cell at `pointer`: a
/// predecrement changes that sub-field before it is read, a postincrement
/// after; the address is the pointer's own address plus what was read.
pub open spec fn resolve_through(
    core: Seq<Instruction>,
    pointer: ModUsize,
    sub: usize,
    mode: Decrement,
) -> Resolved {
    let found = core[pointer.val as int].fields[sub as int].value();
    let read = if mode is Predecrement {
        found.moved(-1)
    } else {
        found
    };
    let left = if mode is Postincrement {
        found.moved(1)
    } else {
        read
    };
    Resolved {
        core: if mode is Plain {
            core
        } else {
            poke(core, pointer, sub, left)
        },
        address: pointer.add_spec(read),
    }
}

/// The address that `field` of the instruction at `ic` designates, and the
/// core after the side effects of resolving it.
pub open spec fn resolve(field: Field, core: Seq<Instruction>, ic: ModUsize) -> Resolved {
    match field {
        Field::Direct(offset) => Resolved { core, address: ic.add_spec(offset) },
        Field::Inmediate(_) => Resolved { core, address: ic },
        Field::AIndirect(offset, mode) => resolve_through(core, ic.add_spec(offset), 0, mode),
        Field::BIndirect(offset, mode) => resolve_through(core, ic.add_spec(offset), 1, mode),
    }
}

/// What an operation writes through one pipe, from the source's number
/// `operand` and the destination's number `held`; `None` where it writes
/// nothing: a division by zero, or an operation that stores no data.
pub open spec fn pipe_value(code: OpCode, operand: ModUsize, held: ModUsize) -> Option<ModUsize> {
    match code {
        OpCode::MOV => Some(operand),
        OpCode::ADD => Some(held.add_spec(operand)),
        OpCode::SUB => Some(held.sub_spec(operand)),
        OpCode::MUL => Some(held.mul_spec(operand)),
        OpCode::DIV => if operand.val == 0 {
            None
        } else {
            Some(held.div_spec(operand))
        },
        OpCode::MOD => if operand.val == 0 {
            None
        } else {
            Some(ModUsize { val: held.val % operand.val, congruence: held.congruence })
        },
        OpCode::DJN => Some(held.moved(-1)),
        _ => None,
    }
}

/// The number of the source that pipe `k` reads.
pub open spec fn pipe_operand(pipes: Seq<(usize, usize)>, k: int, src: Instruction) -> ModUsize {
    src.fields[pipes[k].0 as int].value()
}

/// The number of the destination that pipe `k` reads and replaces.
pub open spec fn pipe_held(pipes: Seq<(usize, usize)>, k: int, dst: Instruction) -> ModUsize {
    dst.fields[pipes[k].1 as int].value()
}

/// The core after the operation wrote through each of `pipes` in turn, into
/// the cell at `at`. Source and destination are the instructions as they were
/// before the first write.
pub open spec fn write_pipes(
    code: OpCode,
    pipes: Seq<(usize, usize)>,
    src: Instruction,
    dst: Instruction,
    core: Seq<Instruction>,
    at: ModUsize,
) -> Seq<Instruction>
    decreases pipes.len(),
{
    if pipes.len() == 0 {
        core
    } else {
        let k = pipes.len() - 1;
        let so_far = write_pipes(code, pipes.drop_last(), src, dst, core, at);
        match pipe_value(code, pipe_operand(pipes, k, src), pipe_held(pipes, k, dst)) {
            Some(data) => poke(so_far, at, pipes[k].1, data),
            None => so_far,
        }
    }
}

/// Some pipe divides by zero.
pub open spec fn divides_by_zero(pipes: Seq<(usize, usize)>, src: Instruction) -> bool {
    exists|k: int| 0 <= k < pipes.len() && (#[trigger] pipe_operand(pipes, k, src)).val == 0
}

/// Every number that the pipes read of the destination is zero.
pub open spec fn all_zero(pipes: Seq<(usize, usize)>, dst: Instruction) -> bool {
    forall|k: int| 0 <= k < pipes.len() ==> (#[trigger] pipe_held(pipes, k, dst)).val == 0
}

/// Every number that the pipes read of the destination is zero once it is
/// decremented.
pub open spec fn all_zero_after_decrement(pipes: Seq<(usize, usize)>, dst: Instruction) -> bool {
    forall|k: int|
        0 <= k < pipes.len() ==> (#[trigger] pipe_held(pipes, k, dst)).moved(-1).val == 0
}

/// Every pipe reads the same number at both of its ends.
pub open spec fn all_equal(pipes: Seq<(usize, usize)>, src: Instruction, dst: Instruction) -> bool {
    forall|k: int|
        0 <= k < pipes.len() ==> #[trigger] pipe_operand(pipes, k, src) == pipe_held(pipes, k, dst)
}

/// Some pipe reads a lower number of the source than of the destination; the
/// numbers compare as they are held, unsigned.
pub open spec fn some_lower(pipes: Seq<(usize, usize)>, src: Instruction, dst: Instruction) -> bool {
    exists|k: int|
        0 <= k < pipes.len() && (#[trigger] pipe_operand(pipes, k, src)).val < pipe_held(
            pipes,
            k,
            dst,
        ).val
}

/// What executing an instruction leaves behind.
pub struct Outcome {
    /// The core after the operation.
    pub core: Seq<Instruction>,
    /// Where the process goes on, if it lives.
    pub next: ModUsize,
    /// Whether the process ends.
    pub die: bool,
}

/// The core after `ins` wrote its results: `src` and `dst` are the
/// instructions found at the two resolved addresses, `at` the resolved
/// address of the destination.
pub open spec fn core_after(
    ins: Instruction,
    src: Instruction,
    dst: Instruction,
    core: Seq<Instruction>,
    at: ModUsize,
) -> Seq<Instruction> {
    if ins.code is MOV && ins.whole_copy() {
        core.update(at.val as int, src)
    } else {
        write_pipes(ins.code, ins.pipes(), src, dst, core, at)
    }
}

/// Whether executing `ins` ends the process: a `DAT`, or a division by zero.
pub open spec fn dies(ins: Instruction, src: Instruction) -> bool {
    ins.code is DAT || ((ins.code is DIV || ins.code is MOD) && divides_by_zero(ins.pipes(), src))
}

/// Whether `ins` leaves the straight path: a jump that is taken, or a
/// comparison that skips the next instruction.
pub open spec fn branches(ins: Instruction, src: Instruction, dst: Instruction) -> bool {
    match ins.code {
        OpCode::JMP => true,
        OpCode::JMZ => all_zero(ins.pipes(), dst),
        OpCode::JMN => !all_zero(ins.pipes(), dst),
        OpCode::DJN => !all_zero_after_decrement(ins.pipes(), dst),
        OpCode::CMP | OpCode::SEQ => all_equal(ins.pipes(), src, dst),
        OpCode::SNE => !all_equal(ins.pipes(), src, dst),
        OpCode::SLT => some_lower(ins.pipes(), src, dst),
        _ => false,
    }
}

/// Where the process goes on after `ins` at `pc`: a jump goes to the resolved
/// address of field A, a skip two cells on, anything else one cell on.
pub open spec fn next_counter(
    ins: Instruction,
    src: Instruction,
    dst: Instruction,
    pc: ModUsize,
    target: ModUsize,
) -> ModUsize {
    if !branches(ins, src, dst) {
        pc.moved(1)
    } else if ins.code is JMP || ins.code is JMZ || ins.code is JMN || ins.code is DJN {
        target
    } else {
        pc.moved(1).moved(1)
    }
}

/// One instruction, from fetch to the new program counter. Both fields are
/// resolved, field A first, before the source and the destination are read:
/// both are what stands at their addresses after the side effects of both
/// resolutions, and before the operation writes anything.
pub open spec fn execute(core: Seq<Instruction>, pc: ModUsize) -> Outcome {
    let ins = core[pc.val as int];
    let a = resolve(ins.fields[0], core, pc);
    let b = resolve(ins.fields[1], a.core, pc);
    let src = b.core[a.address.val as int];
    let dst = b.core[b.address.val as int];
    Outcome {
        core: core_after(ins, src, dst, b.core, b.address),
        next: next_counter(ins, src, dst, pc, a.address),
        die: dies(ins, src),
    }
}

/// The process that a split starts: at the resolved address of field A.
pub open spec fn spawned(core: Seq<Instruction>, pc: ModUsize) -> Option<ModUsize> {
    let ins = core[pc.val as int];
    if ins.code is SPL {
        Some(resolve(ins.fields[0], core, pc).address)
    } else {
        None
    }
}

/// The processes of a warrior after its first one ran: the process goes behind
/// the others unless it ended, and a process that it started goes behind it.
pub open spec fn threads_after(
    threads: Seq<ModUsize>,
    outcome: Outcome,
    spawn: Option<ModUsize>,
) -> Seq<ModUsize> {
    let waiting = threads.drop_first();
    let continued = if outcome.die {
        waiting
    } else {
        waiting.push(outcome.next)
    };
    match spawn {
        Some(at) => continued.push(at),
        None => continued,
    }
}

/// A battle: the core and the warriors that are still alive, the one whose
/// turn it is first.
pub struct Battle {
    /// The cells of the core.
    pub core: Seq<Instruction>,
    /// The live warriors in the order of their turns.
    pub warriors: Seq<WarriorView>,
}

impl Battle {
    /// The invariant of a battle: every number in the core and every program
    /// counter belongs to this core, and every warrior has a process.
    pub open spec fn wf(self) -> bool {
        &&& core_wf(self.core)
        &&& forall|w: int|
            0 <= w < self.warriors.len() ==> (#[trigger] self.warriors[w]).threads.len() > 0
                && self.warriors[w].threads_fit(self.core.len() as usize)
    }

    /// The battle after one step: the first process of the first warrior
    /// executes one instruction; the warrior then goes behind the others, or
    /// leaves if it has no process left.
    pub open spec fn step(self) -> Battle {
        if self.warriors.len() == 0 {
            self
        } else {
            let warrior = self.warriors[0];
            let pc = warrior.threads[0];
            let outcome = execute(self.core, pc);
            let threads = threads_after(warrior.threads, outcome, spawned(self.core, pc));
            let others = self.warriors.drop_first();
            Battle {
                core: outcome.core,
                warriors: if threads.len() == 0 {
                    others
                } else {
                    others.push(warrior.with_threads(threads))
                },
            }
        }
    }

    /// The battle after `n` steps.
    pub open spec fn run(self, n: nat) -> Battle
        decreases n,
    {
        if n == 0 {
            self
        } else {
            self.run((n - 1) as nat).step()
        }
    }
}


/// A reduced number written into a cell of a well-formed core leaves the core
/// well formed.
pub proof fn lemma_poke_wf(core: Seq<Instruction>, at: ModUsize, sub: usize, data: ModUsize)
    requires
        core_wf(core),
        at.val < core.len(),
        sub < 2,
        address_wf(data, core.len()),
    ensures
        core_wf(poke(core, at, sub, data)),
        poke(core, at, sub, data).len() == core.len(),
{
    let cell = core[at.val as int];
    assert(cell.wf(core.len() as usize));
    let poked = poke(core, at, sub, data);
    assert forall|i: int| 0 <= i < poked.len() implies (#[trigger] poked[i]).wf(
        core.len() as usize,
    ) by {
        if i != at.val {
            assert(core[i].wf(core.len() as usize));
        }
    }
}

/// Moving an address of a core gives an address of that core.
pub proof fn lemma_moved_wf(at: ModUsize, by: int)
    requires
        at.wf(),
    ensures
        at.moved(by).wf(),
        at.moved(by).congruence == at.congruence,
{
    lemma_mod_bound(at.val + by, at.congruence as int);
}

/// The sum of two addresses of a core is an address of that core.
pub proof fn lemma_sum_wf(a: ModUsize, b: ModUsize)
    requires
        a.wf(),
        b.wf(),
        a.congruence == b.congruence,
    ensures
        a.add_spec(b).wf(),
        a.add_spec(b).congruence == a.congruence,
{
    lemma_mod_bound(a.val + b.val, a.congruence as int);
}

/// Resolution through a pointer keeps the core well formed and designates a
/// cell of it.
pub proof fn lemma_resolve_through_wf(
    core: Seq<Instruction>,
    pointer: ModUsize,
    sub: usize,
    mode: Decrement,
)
    requires
        core_wf(core),
        address_wf(pointer, core.len()),
        sub < 2,
    ensures
        core_wf(resolve_through(core, pointer, sub, mode).core),
        resolve_through(core, pointer, sub, mode).core.len() == core.len(),
        address_wf(resolve_through(core, pointer, sub, mode).address, core.len()),
{
    let cell = core[pointer.val as int];
    assert(cell.wf(core.len() as usize));
    let found = cell.fields[sub as int].value();
    lemma_moved_wf(found, -1);
    lemma_moved_wf(found, 1);
    let read = if mode is Predecrement {
        found.moved(-1)
    } else {
        found
    };
    lemma_sum_wf(pointer, read);
    if !(mode is Plain) {
        let left = if mode is Postincrement {
            found.moved(1)
        } else {
            read
        };
        lemma_poke_wf(core, pointer, sub, left);
    }
}

/// Resolution keeps the core well formed and designates a cell of it.
pub proof fn lemma_resolve_wf(field: Field, core: Seq<Instruction>, ic: ModUsize)
    requires
        core_wf(core),
        address_wf(ic, core.len()),
        field.wf(core.len() as usize),
    ensures
        core_wf(resolve(field, core, ic).core),
        resolve(field, core, ic).core.len() == core.len(),
        address_wf(resolve(field, core, ic).address, core.len()),
{
    match field {
        Field::Direct(offset) => {
            lemma_sum_wf(ic, offset);
        },
        Field::Inmediate(_) => {},
        Field::AIndirect(offset, mode) => {
            lemma_sum_wf(ic, offset);
            lemma_resolve_through_wf(core, ic.add_spec(offset), 0, mode);
        },
        Field::BIndirect(offset, mode) => {
            lemma_sum_wf(ic, offset);
            lemma_resolve_through_wf(core, ic.add_spec(offset), 1, mode);
        },
    }
}

/// The pipes of an instruction are at most two, and name sub-fields 0 and 1.
pub proof fn lemma_pipes_bounded(ins: Instruction)
    ensures
        ins.pipes().len() <= 2,
        forall|k: int|
            0 <= k < ins.pipes().len() ==> (#[trigger] ins.pipes()[k]).0 < 2 && ins.pipes()[k].1
                < 2,
{
}

/// What an operation writes through a pipe is a number of the core that its
/// operands belong to.
pub proof fn lemma_pipe_value_wf(code: OpCode, operand: ModUsize, held: ModUsize)
    requires
        operand.wf(),
        held.wf(),
        operand.congruence == held.congruence,
    ensures
        pipe_value(code, operand, held) matches Some(data) ==> data.wf() && data.congruence
            == held.congruence,
{
    let m = held.congruence as int;
    match code {
        OpCode::ADD => {
            lemma_mod_bound(held.val + operand.val, m);
        },
        OpCode::SUB => {
            lemma_mod_bound(held.val - operand.val, m);
        },
        OpCode::MUL => {
            lemma_mod_bound(held.val * operand.val, m);
        },
        OpCode::DIV => {
            if operand.val != 0 {
                vstd::arithmetic::div_mod::lemma_div_nonincreasing(
                    held.val as int,
                    operand.val as int,
                );
            }
        },
        OpCode::MOD => {
            if operand.val != 0 {
                lemma_mod_bound(held.val as int, operand.val as int);
            }
        },
        OpCode::DJN => {
            lemma_moved_wf(held, -1);
        },
        _ => {},
    }
}

/// Writing through pipes keeps the core well formed and its length.
pub proof fn lemma_write_pipes_wf(
    code: OpCode,
    pipes: Seq<(usize, usize)>,
    src: Instruction,
    dst: Instruction,
    core: Seq<Instruction>,
    at: ModUsize,
)
    requires
        core_wf(core),
        address_wf(at, core.len()),
        src.wf(core.len() as usize),
        dst.wf(core.len() as usize),
        forall|k: int| 0 <= k < pipes.len() ==> (#[trigger] pipes[k]).0 < 2 && pipes[k].1 < 2,
    ensures
        core_wf(write_pipes(code, pipes, src, dst, core, at)),
        write_pipes(code, pipes, src, dst, core, at).len() == core.len(),
    decreases pipes.len(),
{
    if pipes.len() > 0 {
        let k = pipes.len() - 1;
        assert(pipes[k].0 < 2 && pipes[k].1 < 2);
        assert forall|j: int| 0 <= j < pipes.drop_last().len() implies (
        #[trigger] pipes.drop_last()[j]).0 < 2 && pipes.drop_last()[j].1 < 2 by {
            assert(pipes.drop_last()[j] == pipes[j]);
        }
        lemma_write_pipes_wf(code, pipes.drop_last(), src, dst, core, at);
        let so_far = write_pipes(code, pipes.drop_last(), src, dst, core, at);
        let operand = pipe_operand(pipes, k, src);
        let held = pipe_held(pipes, k, dst);
        lemma_pipe_value_wf(code, operand, held);
        match pipe_value(code, operand, held) {
            Some(data) => {
                lemma_poke_wf(so_far, at, pipes[k].1, data);
            },
            None => {},
        }
    }
}

/// An operation that stores no data leaves the core as it is.
pub proof fn lemma_write_pipes_inert(
    code: OpCode,
    pipes: Seq<(usize, usize)>,
    src: Instruction,
    dst: Instruction,
    core: Seq<Instruction>,
    at: ModUsize,
)
    requires
        !(code is MOV || code is DJN || code.is_arithmetic()),
    ensures
        write_pipes(code, pipes, src, dst, core, at) == core,
    decreases pipes.len(),
{
    if pipes.len() > 0 {
        lemma_write_pipes_inert(code, pipes.drop_last(), src, dst, core, at);
    }
}

/// Executing an instruction of a well-formed core leaves the core well
/// formed, and the process at an address of it.
pub proof fn lemma_execute_wf(core: Seq<Instruction>, pc: ModUsize)
    requires
        core_wf(core),
        address_wf(pc, core.len()),
    ensures
        core_wf(execute(core, pc).core),
        execute(core, pc).core.len() == core.len(),
        address_wf(execute(core, pc).next, core.len()),
        spawned(core, pc) matches Some(at) ==> address_wf(at, core.len()),
{
    let ins = core[pc.val as int];
    assert(ins.wf(core.len() as usize));
    lemma_resolve_wf(ins.fields[0], core, pc);
    let a = resolve(ins.fields[0], core, pc);
    lemma_resolve_wf(ins.fields[1], a.core, pc);
    let b = resolve(ins.fields[1], a.core, pc);
    let src = b.core[a.address.val as int];
    assert(src.wf(core.len() as usize));
    let dst = b.core[b.address.val as int];
    assert(dst.wf(core.len() as usize));
    lemma_pipes_bounded(ins);
    lemma_write_pipes_wf(ins.code, ins.pipes(), src, dst, b.core, b.address);
    if ins.code is MOV && ins.whole_copy() {
        let copied = b.core.update(b.address.val as int, src);
        assert forall|i: int| 0 <= i < copied.len() implies (#[trigger] copied[i]).wf(
            core.len() as usize,
        ) by {
            if i != b.address.val {
                assert(b.core[i].wf(core.len() as usize));
            }
        }
    }
    lemma_moved_wf(pc, 1);
    lemma_moved_wf(pc.moved(1), 1);
}

/// A step of a well-formed battle gives a well-formed battle on a core of
/// the same size.
pub proof fn lemma_step_wf(battle: Battle)
    requires
        battle.wf(),
    ensures
        battle.step().wf(),
        battle.step().core.len() == battle.core.len(),
{
    if battle.warriors.len() > 0 {
        let size = battle.core.len() as usize;
        let warrior = battle.warriors[0];
        assert(warrior.threads.len() > 0 && warrior.threads_fit(size));
        let pc = warrior.threads[0];
        assert(pc.wf() && pc.congruence == size);
        lemma_execute_wf(battle.core, pc);
        let outcome = execute(battle.core, pc);
        let threads = threads_after(warrior.threads, outcome, spawned(battle.core, pc));
        let others = battle.warriors.drop_first();
        assert forall|i: int| 0 <= i < threads.len() implies (#[trigger] threads[i]).wf()
            && threads[i].congruence == size by {
            if i < warrior.threads.len() - 1 {
                assert(threads[i] == warrior.threads[i + 1]);
                assert(warrior.threads[i + 1].wf());
            }
        }
        let after = battle.step();
        assert forall|w: int| 0 <= w < after.warriors.len() implies (
        #[trigger] after.warriors[w]).threads.len() > 0 && after.warriors[w].threads_fit(size) by {
            if w < others.len() {
                assert(after.warriors[w] == battle.warriors[w + 1]);
                assert(battle.warriors[w + 1].threads_fit(size));
            } else {
                assert(after.warriors[w] == warrior.with_threads(threads));
            }
        }
    }
}

} // verus!
