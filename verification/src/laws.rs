//! What holds of every battle: the laws of the machine, proved from the
//! definitions in [`crate::machine`].

use crate::instruction::decrement::Decrement;
use crate::instruction::field::Field;
use crate::instruction::instruction::Instruction;
use crate::machine::{
    address_wf, core_wf, execute, lemma_step_wf, lemma_sum_wf, poke, resolve, spawned,
    threads_after, write_pipes, Battle, Outcome,
};
use crate::utils::ModUsize;
use crate::warrior::WarriorView;
use vstd::prelude::*;
use vstd::std_specs::ops::AddSpec;

verus! {

/// Resolving a field changes at most the one sub-field that an indirect field
/// points through, once: every other cell, and the rest of that cell, stay.
pub proof fn lemma_resolve_frame(field: Field, core: Seq<Instruction>, ic: ModUsize)
    requires
        core_wf(core),
        address_wf(ic, core.len()),
        field.wf(core.len() as usize),
    ensures
        resolve(field, core, ic).core.len() == core.len(),
        forall|i: int|
            0 <= i < core.len() && i != ic.add_spec(field.value()).val ==> resolve(
                field,
                core,
                ic,
            ).core[i] == core[i],
        field is Direct || field is Inmediate ==> resolve(field, core, ic).core == core,
        ({
            let pointer = ic.add_spec(field.value()).val as int;
            let cell = resolve(field, core, ic).core[pointer];
            &&& cell.code == core[pointer].code
            &&& cell.modifier == core[pointer].modifier
            &&& cell.ptr_range == core[pointer].ptr_range
            &&& cell.core_size == core[pointer].core_size
            &&& field is AIndirect ==> cell.fields[1] == core[pointer].fields[1]
            &&& field is BIndirect ==> cell.fields[0] == core[pointer].fields[0]
        }),
{
    lemma_sum_wf(ic, field.value());
}

/// Resolving an A-indirect field with postincrement adds one, modulo the core
/// size, to field A of the cell it points through, and changes nothing else.
/// The address it gives is the one read before the increment.
pub proof fn lemma_postincrement_once(offset: ModUsize, core: Seq<Instruction>, ic: ModUsize)
    requires
        core_wf(core),
        address_wf(ic, core.len()),
        address_wf(offset, core.len()),
    ensures
        ({
            let field = Field::AIndirect(offset, Decrement::Postincrement);
            let pointer = ic.add_spec(offset);
            let found = core[pointer.val as int].fields[0].value();
            let after = resolve(field, core, ic);
            &&& after.address == pointer.add_spec(found)
            &&& after.core == poke(core, pointer, 0, found.moved(1))
            &&& after.core[pointer.val as int].fields[0].value() == found.moved(1)
            &&& after.core[pointer.val as int].fields[1] == core[pointer.val as int].fields[1]
            &&& forall|i: int|
                0 <= i < core.len() && i != pointer.val ==> after.core[i] == core[i]
        }),
{
    lemma_sum_wf(ic, offset);
}

/// A move whose source and destination are the same cell leaves the core as
/// it is: the source is read whole before the destination is written. This
/// holds of every modifier that moves a sub-field to itself, and so of the
/// plain `MOV 0, 0`.
pub proof fn lemma_self_move(core: Seq<Instruction>, pc: ModUsize, offset: ModUsize)
    requires
        core_wf(core),
        address_wf(pc, core.len()),
        core[pc.val as int].code is MOV,
        core[pc.val as int].fields[0] == Field::Direct(offset),
        core[pc.val as int].fields[1] == Field::Direct(offset),
        !(core[pc.val as int].modifier is AB || core[pc.val as int].modifier is BA
            || core[pc.val as int].modifier is X),
    ensures
        execute(core, pc).core == core,
        !execute(core, pc).die,
        execute(core, pc).next == pc.moved(1),
{
    let ins = core[pc.val as int];
    assert(ins.wf(core.len() as usize));
    lemma_sum_wf(pc, offset);
    let at = pc.add_spec(offset);
    let cell = core[at.val as int];
    assert(cell.with_field_value(0, cell.fields[0].value()).fields =~= cell.fields);
    assert(cell.with_field_value(1, cell.fields[1].value()).fields =~= cell.fields);
    assert(poke(core, at, 0, cell.fields[0].value()) =~= core);
    assert(poke(core, at, 1, cell.fields[1].value()) =~= core);
    assert(core.update(at.val as int, cell) =~= core);
    let pipes = ins.pipes();
    if !ins.whole_copy() {
        if pipes.len() == 1 {
            assert(pipes.drop_last().len() == 0);
            assert(write_pipes(ins.code, pipes.drop_last(), cell, cell, core, at) == core);
        } else {
            assert(pipes.len() == 2);
            let first = pipes.drop_last();
            assert(first.len() == 1);
            assert(first.drop_last().len() == 0);
            assert(write_pipes(ins.code, first.drop_last(), cell, cell, core, at) == core);
            assert(first[0] == pipes[0]);
            assert(write_pipes(ins.code, first, cell, cell, core, at) == core);
        }
    }
}

/// The imp: `MOV 0, 1` copies itself into the next cell and goes on there, so
/// that it runs the same instruction again.
pub proof fn lemma_imp_step(core: Seq<Instruction>, pc: ModUsize)
    requires
        core_wf(core),
        address_wf(pc, core.len()),
        core.len() > 1,
        core[pc.val as int].code is MOV,
        core[pc.val as int].modifier is Default,
        core[pc.val as int].fields[0] == Field::Direct(ModUsize { val: 0, congruence: pc.congruence }),
        core[pc.val as int].fields[1] == Field::Direct(ModUsize { val: 1, congruence: pc.congruence }),
    ensures
        execute(core, pc).core == core.update(pc.moved(1).val as int, core[pc.val as int]),
        execute(core, pc).next == pc.moved(1),
        !execute(core, pc).die,
        execute(core, pc).core[execute(core, pc).next.val as int] == core[pc.val as int],
{
    let zero = ModUsize { val: 0, congruence: pc.congruence };
    let one = ModUsize { val: 1, congruence: pc.congruence };
    lemma_sum_wf(pc, zero);
    lemma_sum_wf(pc, one);
    vstd::arithmetic::div_mod::lemma_small_mod(pc.val as nat, pc.congruence as nat);
    assert(pc.add_spec(zero) == pc);
    assert(pc.add_spec(one) == pc.moved(1));
}

/// A split keeps the process and starts another: the warrior's processes are
/// those that waited, then the one that goes on at the next cell, then the
/// new one at the target. The process that goes on so runs before the new one.
pub proof fn lemma_split_order(battle: Battle)
    requires
        battle.wf(),
        battle.warriors.len() > 0,
        battle.core[battle.warriors[0].threads[0].val as int].code is SPL,
    ensures
        ({
            let warrior = battle.warriors[0];
            let pc = warrior.threads[0];
            let target = resolve(battle.core[pc.val as int].fields[0], battle.core, pc).address;
            let after = battle.step();
            &&& after.warriors.len() == battle.warriors.len()
            &&& after.warriors.last() == warrior.with_threads(
                warrior.threads.drop_first().push(pc.moved(1)).push(target),
            )
        }),
{
    let warrior = battle.warriors[0];
    let pc = warrior.threads[0];
    let outcome = execute(battle.core, pc);
    let threads = threads_after(warrior.threads, outcome, spawned(battle.core, pc));
    assert(threads.len() > 0);
}

/// After a split by a warrior with one process, the warrior's next turn runs
/// the instruction after the split, and its turn after that the target:
/// whatever the first of the two does, the target is then first in line.
pub proof fn lemma_split_next_two_turns(
    battle: Battle,
    outcome: Outcome,
    spawn: Option<ModUsize>,
)
    requires
        battle.wf(),
        battle.warriors.len() > 0,
        battle.warriors[0].threads.len() == 1,
        battle.core[battle.warriors[0].threads[0].val as int].code is SPL,
    ensures
        ({
            let pc = battle.warriors[0].threads[0];
            let target = resolve(battle.core[pc.val as int].fields[0], battle.core, pc).address;
            let threads = battle.step().warriors.last().threads;
            &&& threads == seq![pc.moved(1), target]
            &&& threads_after(threads, outcome, spawn)[0] == target
        }),
{
    lemma_split_order(battle);
    let warrior = battle.warriors[0];
    let pc = warrior.threads[0];
    let target = resolve(battle.core[pc.val as int].fields[0], battle.core, pc).address;
    assert(warrior.threads.drop_first().push(pc.moved(1)).push(target) =~= seq![
        pc.moved(1),
        target,
    ]);
}

/// A battle stays well formed, on a core of the same size, however long it runs.
pub proof fn lemma_run_wf(battle: Battle, n: nat)
    requires
        battle.wf(),
    ensures
        battle.run(n).wf(),
        battle.run(n).core.len() == battle.core.len(),
    decreases n,
{
    if n > 0 {
        lemma_run_wf(battle, (n - 1) as nat);
        lemma_step_wf(battle.run((n - 1) as nat));
    }
}

/// No warrior leaves the battle during its first `n` steps.
pub open spec fn none_eliminated(battle: Battle, n: nat) -> bool {
    forall|k: nat| k < n ==> (#[trigger] battle.run(k)).step().warriors.len() == battle.warriors.len()
}

/// Warrior `j` of `battle` after the one instruction that it executes at step
/// `j` of a round.
pub open spec fn after_its_turn(battle: Battle, j: int) -> WarriorView {
    let warrior = battle.warriors[j];
    let core = battle.run(j as nat).core;
    warrior.with_threads(
        threads_after(
            warrior.threads,
            execute(core, warrior.threads[0]),
            spawned(core, warrior.threads[0]),
        ),
    )
}

/// Round robin: while no warrior leaves, step `j` runs one instruction of
/// warrior `j` and of no other. After `n` steps the warriors that have not
/// run stand first, untouched and in order, and behind them the `n` that
/// have run, each changed by its one instruction.
pub proof fn lemma_round_robin(battle: Battle, n: nat)
    requires
        battle.wf(),
        n <= battle.warriors.len(),
        none_eliminated(battle, n),
    ensures
        battle.run(n).warriors.len() == battle.warriors.len(),
        forall|j: int|
            0 <= j < battle.warriors.len() - n ==> #[trigger] battle.run(n).warriors[j]
                == battle.warriors[n + j],
        forall|j: int|
            0 <= j < n ==> #[trigger] battle.run(n).warriors[battle.warriors.len() - n + j]
                == after_its_turn(battle, j),
    decreases n,
{
    if n > 0 {
        let m = (n - 1) as nat;
        assert(none_eliminated(battle, m)) by {
            assert forall|k: nat| k < m implies (#[trigger] battle.run(k)).step().warriors.len()
                == battle.warriors.len() by {
                assert(k < n);
            }
        }
        lemma_round_robin(battle, m);
        let before = battle.run(m);
        let after = battle.run(n);
        assert(after == before.step());
        assert(after.warriors.len() == battle.warriors.len());
        let count = battle.warriors.len() as int;
        assert(before.warriors[0] == battle.warriors[m as int + 0]);
        assert forall|j: int| 0 <= j < count - n implies #[trigger] after.warriors[j]
            == battle.warriors[n + j] by {
            assert(after.warriors[j] == before.warriors[j + 1]);
            assert(before.warriors[j + 1] == battle.warriors[m as int + (j + 1)]);
        }
        assert forall|j: int| 0 <= j < n implies #[trigger] after.warriors[count - n + j]
            == after_its_turn(battle, j) by {
            if j < m {
                assert(after.warriors[count - n + j] == before.warriors[count - m + j]);
            } else {
                assert(after.warriors[count - 1] == after_its_turn(battle, m as int));
            }
        }
    }
}

/// Fairness: if no warrior leaves during a round of as many steps as there
/// are warriors, each warrior has executed exactly one instruction, and the
/// warriors stand in the order in which they started.
pub proof fn lemma_fair_round(battle: Battle)
    requires
        battle.wf(),
        none_eliminated(battle, battle.warriors.len()),
    ensures
        battle.run(battle.warriors.len()).warriors.len() == battle.warriors.len(),
        forall|j: int|
            0 <= j < battle.warriors.len() ==> #[trigger] battle.run(
                battle.warriors.len(),
            ).warriors[j] == after_its_turn(battle, j),
        forall|j: int|
            0 <= j < battle.warriors.len() ==> {
                let then = #[trigger] battle.run(battle.warriors.len()).warriors[j];
                &&& then.name == battle.warriors[j].name
                &&& then.org == battle.warriors[j].org
                &&& then.body == battle.warriors[j].body
            },
{
    lemma_round_robin(battle, battle.warriors.len());
    let count = battle.warriors.len();
    assert forall|j: int| 0 <= j < count implies #[trigger] battle.run(count).warriors[j]
        == after_its_turn(battle, j) by {
        assert(battle.run(count).warriors[count - count + j] == after_its_turn(battle, j));
    }
}

} // verus!
