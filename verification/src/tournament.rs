//! Deciding which of two warriors wins a battle.

use crate::arena::{CoreConfig, CoreConfigView};
use crate::engine::CoreRuntime;
use crate::machine::{address_wf, Battle};
use crate::utils::ModUsize;
use crate::warrior::{Warrior, WarriorView};
use vstd::prelude::*;

verus! {

/// The size of the core in which duels are fought.
pub const CORE_SIZE: usize = 8000;

/// After `n` steps, at least one, a single warrior is left.
pub open spec fn decided_at(battle: Battle, n: nat) -> bool {
    n >= 1 && battle.run(n).warriors.len() == 1
}

/// Step `n` is the first after which a single warrior is left.
pub open spec fn first_decided_at(battle: Battle, n: nat) -> bool {
    decided_at(battle, n) && forall|k: nat| k < n ==> !#[trigger] decided_at(battle, k)
}

/// `a` and `b` are one warrior but for their processes.
pub open spec fn same_warrior(a: WarriorView, b: WarriorView) -> bool {
    a.org == b.org && a.name == b.name && a.body == b.body
}

/// A step leaves each warrior that stays in the battle what it was but for
/// its processes: every warrior after the step was in the battle before it.
pub proof fn lemma_step_keeps_warriors(battle: Battle)
    ensures
        forall|j: int|
            0 <= j < battle.step().warriors.len() ==> exists|i: int|
                0 <= i < battle.warriors.len() && same_warrior(
                    #[trigger] battle.step().warriors[j],
                    battle.warriors[i],
                ),
{
    let after = battle.step();
    assert forall|j: int| 0 <= j < after.warriors.len() implies exists|i: int|
        0 <= i < battle.warriors.len() && same_warrior(
            #[trigger] after.warriors[j],
            battle.warriors[i],
        ) by {
        if battle.warriors.len() > 0 {
            if j < battle.warriors.len() - 1 {
                assert(same_warrior(after.warriors[j], battle.warriors[j + 1]));
            } else {
                assert(same_warrior(after.warriors[j], battle.warriors[0]));
            }
        } else {
            assert(same_warrior(after.warriors[j], battle.warriors[j]));
        }
    }
}

/// However long a battle runs, each warrior still in it was in it at the start.
pub proof fn lemma_run_keeps_warriors(battle: Battle, n: nat)
    ensures
        forall|j: int|
            0 <= j < battle.run(n).warriors.len() ==> exists|i: int|
                0 <= i < battle.warriors.len() && same_warrior(
                    #[trigger] battle.run(n).warriors[j],
                    battle.warriors[i],
                ),
    decreases n,
{
    if n == 0 {
        assert forall|j: int| 0 <= j < battle.run(n).warriors.len() implies exists|i: int|
            0 <= i < battle.warriors.len() && same_warrior(
                #[trigger] battle.run(n).warriors[j],
                battle.warriors[i],
            ) by {
            assert(same_warrior(battle.run(n).warriors[j], battle.warriors[j]));
        }
    } else {
        let before = battle.run((n - 1) as nat);
        lemma_run_keeps_warriors(battle, (n - 1) as nat);
        lemma_step_keeps_warriors(before);
        assert forall|j: int| 0 <= j < battle.run(n).warriors.len() implies exists|i: int|
            0 <= i < battle.warriors.len() && same_warrior(
                #[trigger] battle.run(n).warriors[j],
                battle.warriors[i],
            ) by {
            let m = choose|m: int|
                0 <= m < before.warriors.len() && same_warrior(
                    before.step().warriors[j],
                    before.warriors[m],
                );
            let i = choose|i: int|
                0 <= i < battle.warriors.len() && same_warrior(
                    before.warriors[m],
                    battle.warriors[i],
                );
            assert(same_warrior(battle.run(n).warriors[j], battle.warriors[i]));
        }
    }
}

/// Runs the battle until a single warrior is left after a step, for `max_t`
/// steps at most, and returns that warrior. The battle is left as the last
/// step made it.
pub fn run_until_decided(runtime: &mut CoreRuntime, max_t: usize) -> (r: Option<Warrior>)
    requires
        old(runtime).wf(),
    ensures
        final(runtime).wf(),
        match r {
            Some(winner) => exists|n: nat|
                n <= max_t && #[trigger] first_decided_at(old(runtime)@, n) && final(runtime)@
                    == old(runtime)@.run(n) && winner@ == final(runtime)@.warriors[0],
            None => final(runtime)@ == old(runtime)@.run(max_t as nat) && forall|n: nat|
                n <= max_t ==> !#[trigger] decided_at(old(runtime)@, n),
        },
{
    let ghost start = runtime@;
    let mut t: usize = 0;
    while t < max_t
        invariant
            t <= max_t,
            start == old(runtime)@,
            runtime.wf(),
            runtime@ == start.run(t as nat),
            forall|n: nat| n <= t ==> !#[trigger] decided_at(start, n),
        decreases max_t - t,
    {
        runtime.tick();
        t += 1;
        if runtime.warriors.len() == 1 {
            assert(decided_at(start, t as nat));
            assert(first_decided_at(start, t as nat));
            let winner = runtime.warriors[0].duplicate();
            assert(winner@ == runtime@.warriors[0]);
            return Some(winner);
        }
        assert(!decided_at(start, t as nat));
    }
    None
}

/// The configuration of a duel in which `a` alone found a place, at `pa`.
pub open spec fn duel_of_one(a: WarriorView, pa: ModUsize) -> CoreConfigView {
    CoreConfigView { core_size: CORE_SIZE, placements: Seq::empty() }.deployed(pa, a)
}

/// `start` is the battle of a duel in which `a` stands at `pa`, and `b` at
/// `pb` or nowhere: `b` fights only where it found a place that shares no
/// cell with `a`.
pub open spec fn starts_duel(
    a: WarriorView,
    b: WarriorView,
    pa: ModUsize,
    pb: ModUsize,
    start: Battle,
) -> bool {
    &&& address_wf(pa, CORE_SIZE as nat)
    &&& start == duel_of_one(a, pa).battle() || {
        &&& address_wf(pb, CORE_SIZE as nat)
        &&& duel_of_one(a, pa).is_free(pb.val as int, b.body.len() as int)
        &&& start == duel_of_one(a, pa).deployed(pb, b).battle()
    }
}

/// `winner` is how the battle `start` ends within `max_t` steps: the warrior
/// that is alone after the first step that leaves a single warrior, or none
/// where no step does.
pub open spec fn duel_outcome(start: Battle, max_t: usize, winner: Option<WarriorView>) -> bool {
    match winner {
        Some(w) => exists|n: nat|
            n <= max_t && #[trigger] first_decided_at(start, n) && w == start.run(n).warriors[0],
        None => forall|n: nat| n <= max_t ==> !#[trigger] decided_at(start, n),
    }
}

/// The warrior that won, as plain values.
pub open spec fn winner_view(r: Option<Warrior>) -> Option<WarriorView> {
    match r {
        Some(w) => Some(w@),
        None => None,
    }
}

/// Fights `a` against `b`, each at a place drawn at random, for `max_t`
/// steps at most. The winner is the warrior that is alone in the battle after
/// a step; a warrior that found no place does not fight. The places are
/// drawn, the battle that starts from them is not: the result is the outcome
/// of that battle.
pub fn decide_winner(a: Warrior, b: Warrior, max_t: usize) -> (r: Option<Warrior>)
    requires
        a@.fits(CORE_SIZE),
        b@.fits(CORE_SIZE),
    ensures
        exists|pa: ModUsize, pb: ModUsize, start: Battle| #[trigger]
            starts_duel(a@, b@, pa, pb, start) && duel_outcome(start, max_t, winner_view(r)),
        r matches Some(winner) ==> same_warrior(winner@, a@) || same_warrior(winner@, b@),
        max_t == 0 ==> r is None,
{
    let ghost a_view = a@;
    let ghost b_view = b@;
    let mut core_conf = CoreConfig::new(CORE_SIZE);
    let ghost empty = core_conf@;
    assert(empty.all_free(a_view.body.len() as int));
    let _ = core_conf.deploy(a, None);
    let ghost alone = core_conf@;
    let ghost pa = choose|at: ModUsize|
        address_wf(at, CORE_SIZE as nat) && empty.is_free(at.val as int, a_view.body.len() as int)
            && alone == #[trigger] empty.deployed(at, a_view);
    assert(alone == duel_of_one(a_view, pa));
    let placed = core_conf.deploy(b, None);
    let ghost both = core_conf@;
    let ghost pb = if placed is Ok {
        choose|at: ModUsize|
            address_wf(at, CORE_SIZE as nat) && alone.is_free(
                at.val as int,
                b_view.body.len() as int,
            ) && both == #[trigger] alone.deployed(at, b_view)
    } else {
        pa
    };

    let mut runtime = core_conf.brawl();
    let ghost start = runtime@;
    proof {
        assert(starts_duel(a_view, b_view, pa, pb, start));
        assert forall|i: int| 0 <= i < start.warriors.len() implies same_warrior(
            #[trigger] start.warriors[i],
            a_view,
        ) || same_warrior(start.warriors[i], b_view) by {
            assert(start.warriors[i] == both.placements[i].1);
        }
    }
    let r = run_until_decided(&mut runtime, max_t);
    proof {
        if r is Some {
            let winner = r->0;
            let n = choose|n: nat|
                n <= max_t && #[trigger] first_decided_at(start, n) && runtime@ == start.run(n)
                    && winner@ == runtime@.warriors[0];
            assert(duel_outcome(start, max_t, winner_view(r)));
            lemma_run_keeps_warriors(start, n);
            let i = choose|i: int|
                0 <= i < start.warriors.len() && same_warrior(
                    start.run(n).warriors[0],
                    start.warriors[i],
                );
            assert(same_warrior(start.warriors[i], a_view) || same_warrior(
                start.warriors[i],
                b_view,
            ));
        } else {
            assert(duel_outcome(start, max_t, winner_view(r)));
        }
    }
    r
}

} // verus!
