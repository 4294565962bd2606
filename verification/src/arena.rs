//! Setting up a battle: the places of the warriors in the core, which must
//! not overlap, and the core that a battle starts from.

use crate::engine::CoreRuntime;
use crate::instruction::field::Field;
use crate::instruction::instruction::Instruction;
use crate::instruction::op_code::OpCode;
use crate::instruction::op_modifier::OpModifier;
use crate::machine::{address_wf, core_wf, Battle};
use crate::utils::{modulo, ModUsize};
use crate::warrior::{Warrior, WarriorView};
use vstd::arithmetic::div_mod::{lemma_add_mod_noop, lemma_mod_bound, lemma_small_mod};
use vstd::prelude::*;
use vstd::std_specs::ops::AddSpec;

verus! {

/// Cell `x` lies in the segment of `len` cells that starts at cell `start` of
/// a circular core of `size` cells.
pub open spec fn in_segment(x: int, start: int, len: int, size: int) -> bool {
    (x - start) % size < len
}

/// Two segments of a circular core collide: some cell lies in both.
pub open spec fn segments_collide(
    start_a: int,
    len_a: int,
    start_b: int,
    len_b: int,
    size: int,
) -> bool {
    exists|x: int|
        0 <= x < size && #[trigger] in_segment(x, start_a, len_a, size) && in_segment(
            x,
            start_b,
            len_b,
            size,
        )
}

/// Which of two segments is named first does not matter.
pub proof fn lemma_collide_symmetric(start_a: int, len_a: int, start_b: int, len_b: int, size: int)
    ensures
        segments_collide(start_a, len_a, start_b, len_b, size) == segments_collide(
            start_b,
            len_b,
            start_a,
            len_a,
            size,
        ),
{
    if segments_collide(start_a, len_a, start_b, len_b, size) {
        let x = choose|x: int|
            0 <= x < size && #[trigger] in_segment(x, start_a, len_a, size) && in_segment(
                x,
                start_b,
                len_b,
                size,
            );
        assert(in_segment(x, start_b, len_b, size) && in_segment(x, start_a, len_a, size));
    }
    if segments_collide(start_b, len_b, start_a, len_a, size) {
        let x = choose|x: int|
            0 <= x < size && #[trigger] in_segment(x, start_b, len_b, size) && in_segment(
                x,
                start_a,
                len_a,
                size,
            );
        assert(in_segment(x, start_a, len_a, size) && in_segment(x, start_b, len_b, size));
    }
}

/// Where the first segment is shorter than the core and no shorter than the
/// second, the two collide exactly if the second starts inside the first or
/// runs round the core into its start.
pub proof fn lemma_collide_by_distance(
    start_a: int,
    len_a: int,
    start_b: int,
    len_b: int,
    size: int,
)
    requires
        0 <= start_a < size,
        0 <= start_b < size,
        1 <= len_b <= len_a < size,
    ensures
        segments_collide(start_a, len_a, start_b, len_b, size) <==> ({
            let distance = (start_b - start_a) % size;
            distance < len_a || distance + len_b > size
        }),
{
    let distance = (start_b - start_a) % size;
    lemma_mod_bound(start_b - start_a, size);
    lemma_small_mod(0, size as nat);
    if distance < len_a {
        assert(in_segment(start_b, start_a, len_a, size));
        assert(in_segment(start_b, start_b, len_b, size));
    } else if distance + len_b > size {
        // the first cell of the first segment lies in the second
        assert(in_segment(start_a, start_a, len_a, size));
        lemma_add_mod_noop(start_a - start_b, start_b - start_a, size);
        lemma_mod_bound(start_a - start_b, size);
        let back = (start_a - start_b) % size;
        assert((back + distance) % size == 0);
        if back + distance < size {
            lemma_small_mod((back + distance) as nat, size as nat);
        } else {
            lemma_small_mod((back + distance - size) as nat, size as nat);
            vstd::arithmetic::div_mod::lemma_mod_sub_multiples_vanish(back + distance, size);
        }
        assert(back == size - distance);
        assert(in_segment(start_a, start_b, len_b, size));
    }
    if segments_collide(start_a, len_a, start_b, len_b, size) {
        let x = choose|x: int|
            0 <= x < size && #[trigger] in_segment(x, start_a, len_a, size) && in_segment(
                x,
                start_b,
                len_b,
                size,
            );
        let u = (x - start_a) % size;
        let v = (x - start_b) % size;
        lemma_mod_bound(x - start_b, size);
        // u == (v + distance) % size
        lemma_add_mod_noop(x - start_b, start_b - start_a, size);
        if v + distance < size {
            lemma_small_mod((v + distance) as nat, size as nat);
        } else {
            lemma_small_mod((v + distance - size) as nat, size as nat);
            vstd::arithmetic::div_mod::lemma_mod_sub_multiples_vanish(v + distance, size);
        }
    }
}

/// A segment as long as the core, or longer, holds every cell: it collides
/// with every segment that is not empty.
pub proof fn lemma_collide_with_whole_core(
    start_a: int,
    len_a: int,
    start_b: int,
    len_b: int,
    size: int,
)
    requires
        0 <= start_b < size,
        len_b >= 1,
        len_a >= size,
    ensures
        segments_collide(start_a, len_a, start_b, len_b, size),
{
    lemma_mod_bound(start_b - start_a, size);
    lemma_small_mod(0, size as nat);
    assert(in_segment(start_b, start_a, len_a, size));
    assert(in_segment(start_b, start_b, len_b, size));
}

/// An empty segment collides with nothing.
pub proof fn lemma_empty_segment(start_a: int, len_a: int, start_b: int, size: int)
    requires
        size > 0,
    ensures
        !segments_collide(start_a, len_a, start_b, 0, size),
{
    assert forall|x: int| 0 <= x < size implies !in_segment(x, start_b, 0, size) by {
        lemma_mod_bound(x - start_b, size);
    }
}

/// Whether the segment of `len_a` cells at `start_a` and the segment of
/// `len_b` cells at `start_b` have a cell in common. Segments that touch
/// without sharing a cell do not collide.
pub fn check_segment_colision(
    start_a: &ModUsize,
    len_a: usize,
    start_b: &ModUsize,
    len_b: usize,
) -> (r: bool)
    requires
        start_a.wf(),
        start_b.wf(),
        start_a.congruence == start_b.congruence,
    ensures
        r == segments_collide(
            start_a.val as int,
            len_a as int,
            start_b.val as int,
            len_b as int,
            start_a.congruence as int,
        ),
    decreases
            (if len_a < len_b {
                1int
            } else {
                0int
            }),
{
    let size = start_a.congruence;
    proof {
        lemma_collide_symmetric(
            start_a.val as int,
            len_a as int,
            start_b.val as int,
            len_b as int,
            size as int,
        );
    }
    if len_a < len_b {
        check_segment_colision(start_b, len_b, start_a, len_a)
    } else if len_b == 0 {
        proof {
            lemma_empty_segment(start_a.val as int, len_a as int, start_b.val as int, size as int);
        }
        false
    } else if len_a >= size {
        proof {
            lemma_collide_with_whole_core(
                start_a.val as int,
                len_a as int,
                start_b.val as int,
                len_b as int,
                size as int,
            );
        }
        true
    } else {
        proof {
            lemma_collide_by_distance(
                start_a.val as int,
                len_a as int,
                start_b.val as int,
                len_b as int,
                size as int,
            );
        }
        let n_start_b = *start_b - *start_a;
        n_start_b.val < len_a || n_start_b.val > size - len_b
    }
}

/// The instruction that fills the core before the warriors are written: data
/// that ends any process reaching it.
pub open spec fn blank_cell(core_size: usize) -> Instruction {
    Instruction {
        ptr_range: 0,
        core_size: 0,
        code: OpCode::DAT,
        modifier: OpModifier::Default,
        fields: [
            Field::Direct(ModUsize { val: 0, congruence: core_size }),
            Field::Direct(ModUsize { val: 0, congruence: core_size }),
        ],
    }
}

/// The core with `body` written from cell `start` on, round the end of the
/// core where it is reached.
pub open spec fn with_body(core: Seq<Instruction>, start: int, body: Seq<Instruction>) -> Seq<
    Instruction,
>
    decreases body.len(),
{
    if body.len() == 0 {
        core
    } else {
        with_body(core, start, body.drop_last()).update(
            (start + body.len() - 1) % (core.len() as int),
            body.last(),
        )
    }
}

/// The core at the start of a battle: blank cells, then the body of each
/// warrior at its place, in the order of deployment.
pub open spec fn initial_core(core_size: usize, placements: Seq<(ModUsize, WarriorView)>) -> Seq<
    Instruction,
>
    decreases placements.len(),
{
    if placements.len() == 0 {
        Seq::new(core_size as nat, |i: int| blank_cell(core_size))
    } else {
        with_body(
            initial_core(core_size, placements.drop_last()),
            placements.last().0.val as int,
            placements.last().1.body,
        )
    }
}

/// Cell `k` of a segment lies in the segment: `k` cells after its start,
/// round the core.
pub proof fn lemma_cell_of_segment(start: int, k: int, len: int, size: int)
    requires
        0 <= start < size,
        0 <= k < len,
        k < size,
    ensures
        0 <= (start + k) % size < size,
        ((start + k) % size - start) % size == k,
        in_segment((start + k) % size, start, len, size),
{
    lemma_mod_bound(start + k, size);
    if start + k < size {
        lemma_small_mod((start + k) as nat, size as nat);
        lemma_small_mod(k as nat, size as nat);
    } else {
        lemma_small_mod((start + k - size) as nat, size as nat);
        vstd::arithmetic::div_mod::lemma_mod_sub_multiples_vanish(start + k, size);
        lemma_small_mod(k as nat, size as nat);
        vstd::arithmetic::div_mod::lemma_mod_add_multiples_vanish(k - size, size);
    }
}

/// Writing a body that is no longer than the core puts each of its
/// instructions into the cell of its segment that corresponds to it, and
/// leaves the cells outside the segment as they were.
pub proof fn lemma_with_body(core: Seq<Instruction>, start: int, body: Seq<Instruction>)
    requires
        0 <= start < core.len(),
        body.len() <= core.len(),
    ensures
        with_body(core, start, body).len() == core.len(),
        forall|k: int|
            0 <= k < body.len() ==> with_body(core, start, body)[(start + k) % (
            core.len() as int)] == #[trigger] body[k],
        forall|x: int|
            0 <= x < core.len() && !in_segment(x, start, body.len() as int, core.len() as int)
                ==> #[trigger] with_body(core, start, body)[x] == core[x],
    decreases body.len(),
{
    let size = core.len() as int;
    if body.len() > 0 {
        let n = body.len() as int;
        let inner = with_body(core, start, body.drop_last());
        let cell = (start + n - 1) % size;
        lemma_with_body(core, start, body.drop_last());
        lemma_cell_of_segment(start, n - 1, n, size);
        let written = with_body(core, start, body);
        assert(written == inner.update(cell, body.last()));
        assert forall|k: int| 0 <= k < n implies written[(start + k) % size] == #[trigger] body[k] by {
            lemma_cell_of_segment(start, k, n, size);
            if k < n - 1 {
                assert(body.drop_last()[k] == body[k]);
                assert((start + k) % size != cell);
            }
        }
        assert forall|x: int|
            0 <= x < size && !in_segment(x, start, n, size) implies #[trigger] written[x]
            == core[x] by {
            assert(!in_segment(x, start, n - 1, size));
            assert(x != cell);
        }
    }
}

/// The core at the start of a battle holds the body of each warrior in the
/// cells of its segment, and blank cells wherever no warrior stands. This
/// holds of warriors that share no cell and are no longer than the core.
pub proof fn lemma_initial_core(config: CoreConfigView)
    requires
        config.wf(),
        config.core_size > 0,
        forall|i: int|
            0 <= i < config.placements.len() ==> (#[trigger] config.placements[i]).1.body.len()
                <= config.core_size,
    ensures
        initial_core(config.core_size, config.placements).len() == config.core_size,
        forall|i: int, k: int|
            0 <= i < config.placements.len() && 0 <= k < config.placements[i].1.body.len()
                ==> initial_core(config.core_size, config.placements)[(
            config.placements[i].0.val + k) % (config.core_size as int)]
                == #[trigger] config.placements[i].1.body[k],
        forall|x: int|
            0 <= x < config.core_size && (forall|i: int|
                0 <= i < config.placements.len() ==> !in_segment(
                    x,
                    (#[trigger] config.placements[i]).0.val as int,
                    config.placements[i].1.body.len() as int,
                    config.core_size as int,
                )) ==> #[trigger] initial_core(config.core_size, config.placements)[x]
                == blank_cell(config.core_size),
    decreases config.placements.len(),
{
    let size = config.core_size as int;
    let all = config.placements;
    if all.len() > 0 {
        let last = all.len() - 1;
        let earlier = CoreConfigView { core_size: config.core_size, placements: all.drop_last() };
        assert forall|i: int| 0 <= i < earlier.placements.len() implies #[trigger] earlier.placements[i]
            == all[i] by {}
        assert(earlier.wf()) by {
            assert forall|i: int, j: int|
                0 <= i < j < earlier.placements.len() implies !#[trigger] earlier.collides_with(
                i,
                earlier.placements[j].0.val as int,
                earlier.placements[j].1.body.len() as int,
            ) by {
                assert(!config.collides_with(
                    i,
                    all[j].0.val as int,
                    all[j].1.body.len() as int,
                ));
            }
        }
        lemma_initial_core(earlier);
        let base = initial_core(config.core_size, earlier.placements);
        let start = all[last].0.val as int;
        let body = all[last].1.body;
        assert(address_wf(all[last].0, config.core_size as nat));
        lemma_with_body(base, start, body);
        let whole = initial_core(config.core_size, all);
        assert(whole == with_body(base, start, body));
        assert forall|i: int, k: int|
            0 <= i < all.len() && 0 <= k < all[i].1.body.len() implies whole[(all[i].0.val + k)
            % size] == #[trigger] all[i].1.body[k] by {
            if i < last {
                assert(address_wf(all[i].0, config.core_size as nat));
                let x = (all[i].0.val + k) % size;
                lemma_cell_of_segment(
                    all[i].0.val as int,
                    k,
                    all[i].1.body.len() as int,
                    size,
                );
                assert(!config.collides_with(i, start, body.len() as int));
                assert(!in_segment(x, start, body.len() as int, size));
                assert(base[x] == earlier.placements[i].1.body[k]);
            }
        }
        assert forall|x: int|
            0 <= x < size && (forall|i: int|
                0 <= i < all.len() ==> !in_segment(
                    x,
                    (#[trigger] all[i]).0.val as int,
                    all[i].1.body.len() as int,
                    size,
                )) implies #[trigger] whole[x] == blank_cell(config.core_size) by {
            assert(!in_segment(x, all[last].0.val as int, all[last].1.body.len() as int, size));
            assert forall|i: int| 0 <= i < earlier.placements.len() implies !in_segment(
                x,
                (#[trigger] earlier.placements[i]).0.val as int,
                earlier.placements[i].1.body.len() as int,
                size,
            ) by {
                assert(!in_segment(x, all[i].0.val as int, all[i].1.body.len() as int, size));
            }
        }
    }
}

/// A configuration as plain values.
pub struct CoreConfigView {
    /// The number of cells of the core.
    pub core_size: usize,
    /// The warriors deployed so far, each with the cell where its body starts.
    pub placements: Seq<(ModUsize, WarriorView)>,
}

impl CoreConfigView {
    /// Placement `i` and a segment of `len` cells at `start` collide.
    pub open spec fn collides_with(self, i: int, start: int, len: int) -> bool {
        segments_collide(
            start,
            len,
            self.placements[i].0.val as int,
            self.placements[i].1.body.len() as int,
            self.core_size as int,
        )
    }

    /// A segment of `len` cells at `start` collides with no warrior deployed so far.
    pub open spec fn is_free(self, start: int, len: int) -> bool {
        forall|i: int| 0 <= i < self.placements.len() ==> !#[trigger] self.collides_with(i, start, len)
    }

    /// Every place of the core is free for a segment of `len` cells, so that
    /// any place drawn is taken.
    pub open spec fn all_free(self, len: int) -> bool {
        forall|at: ModUsize|
            address_wf(at, self.core_size as nat) ==> #[trigger] self.is_free(at.val as int, len)
    }

    /// Place `j` of `draws` is free for a segment of `len` cells.
    pub open spec fn free_draw(self, draws: Seq<ModUsize>, j: int, len: int) -> bool {
        0 <= j < draws.len() && self.is_free(draws[j].val as int, len)
    }

    /// `after` is what deploying `warrior` at the first free place of `draws`
    /// makes of the configuration, and `ok` says whether there was one: with
    /// none the configuration stays as it is.
    pub open spec fn first_free_taken(
        self,
        warrior: WarriorView,
        draws: Seq<ModUsize>,
        after: CoreConfigView,
        ok: bool,
    ) -> bool {
        if ok {
            exists|j: int| #[trigger]
                self.free_draw(draws, j, warrior.body.len() as int) && (forall|k: int|
                    0 <= k < j ==> !#[trigger] self.free_draw(draws, k, warrior.body.len() as int))
                    && after == self.deployed(draws[j], warrior)
        } else {
            after == self && forall|k: int|
                0 <= k < draws.len() ==> !#[trigger] self.free_draw(
                    draws,
                    k,
                    warrior.body.len() as int,
                )
        }
    }

    /// The invariant of a configuration: every warrior belongs to this core,
    /// has a process, and shares no cell with another.
    pub open spec fn wf(self) -> bool {
        &&& forall|i: int|
            0 <= i < self.placements.len() ==> address_wf(
                (#[trigger] self.placements[i]).0,
                self.core_size as nat,
            ) && self.placements[i].1.fits(self.core_size) && self.placements[i].1.threads.len() > 0
        &&& forall|i: int, j: int|
            0 <= i < j < self.placements.len() ==> !#[trigger] self.collides_with(
                i,
                self.placements[j].0.val as int,
                self.placements[j].1.body.len() as int,
            )
    }

    /// The configuration after `warrior` was deployed at `at`: its first
    /// process starts `org` cells into its body.
    pub open spec fn deployed(self, at: ModUsize, warrior: WarriorView) -> CoreConfigView {
        CoreConfigView {
            core_size: self.core_size,
            placements: self.placements.push(
                (at, warrior.with_threads(warrior.threads.push(at.add_spec(warrior.org)))),
            ),
        }
    }

    /// The battle that the configuration starts.
    pub open spec fn battle(self) -> Battle {
        Battle {
            core: initial_core(self.core_size, self.placements),
            warriors: self.placements.map_values(|p: (ModUsize, WarriorView)| p.1),
        }
    }
}

/// What `deploy` answers when the place asked for is taken.
pub open spec fn occupied_message() -> Seq<char> {
    "Forced deploy position was already ocupied"@
}

/// What `deploy` answers when it found no free place.
pub open spec fn full_message() -> Seq<char> {
    "Core is likely full of warriors allready, cant deploy any more"@
}

/// The setting of a battle before it starts: the size of the core and the
/// warriors with their places.
#[derive(Debug, Clone)]
pub struct CoreConfig {
    core_size: usize,
    warrior_data: Vec<(ModUsize, Warrior)>,
}

impl View for CoreConfig {
    type V = CoreConfigView;

    closed spec fn view(&self) -> CoreConfigView {
        CoreConfigView {
            core_size: self.core_size,
            placements: self.warrior_data@.map_values(|p: (ModUsize, Warrior)| (p.0, p.1@)),
        }
    }
}

impl CoreConfig {
    /// An empty configuration for a core of `core_size` cells.
    pub fn new(core_size: usize) -> (r: Self)
        ensures
            r@.core_size == core_size,
            r@.placements == Seq::<(ModUsize, WarriorView)>::empty(),
            r@.wf(),
    {
        let r = Self { core_size, warrior_data: vec![] };
        assert(r@.placements =~= Seq::<(ModUsize, WarriorView)>::empty());
        r
    }

    /// Whether a body of `len` cells at `position` collides with no warrior
    /// deployed so far.
    pub fn position_is_free(&self, position: &ModUsize, len: usize) -> (r: bool)
        requires
            self@.wf(),
            address_wf(*position, self@.core_size as nat),
        ensures
            r == self@.is_free(position.val as int, len as int),
    {
        let mut i: usize = 0;
        while i < self.warrior_data.len()
            invariant
                i <= self.warrior_data@.len(),
                self@.wf(),
                address_wf(*position, self@.core_size as nat),
                forall|k: int|
                    0 <= k < i ==> !#[trigger] self@.collides_with(
                        k,
                        position.val as int,
                        len as int,
                    ),
            decreases self.warrior_data@.len() - i,
        {
            assert(address_wf(self@.placements[i as int].0, self@.core_size as nat));
            if check_segment_colision(
                position,
                len,
                &self.warrior_data[i].0,
                self.warrior_data[i].1.body.len(),
            ) {
                assert(self@.collides_with(i as int, position.val as int, len as int));
                return false;
            }
            i += 1;
        }
        true
    }

    /// Deploys `warrior` at the first of the places `draws` that is free,
    /// and starts its first process. With no free place among them the
    /// configuration stays as it was.
    pub fn deploy_at_first_free(&mut self, warrior: Warrior, draws: &Vec<ModUsize>) -> (r: Result<
        (),
        String,
    >)
        requires
            old(self)@.wf(),
            warrior@.fits(old(self)@.core_size),
            forall|j: int|
                0 <= j < draws@.len() ==> address_wf(
                    #[trigger] draws@[j],
                    old(self)@.core_size as nat,
                ),
        ensures
            final(self)@.wf(),
            final(self)@.core_size == old(self)@.core_size,
            r is Ok <==> exists|j: int|
                0 <= j < draws@.len() && old(self)@.is_free(
                    (#[trigger] draws@[j]).val as int,
                    warrior@.body.len() as int,
                ),
            r is Ok ==> exists|j: int|
                0 <= j < draws@.len() && old(self)@.is_free(
                    draws@[j].val as int,
                    warrior@.body.len() as int,
                ) && (forall|k: int|
                    0 <= k < j ==> !old(self)@.is_free(
                        draws@[k].val as int,
                        warrior@.body.len() as int,
                    )) && final(self)@ == #[trigger] old(self)@.deployed(draws@[j], warrior@),
            r matches Err(e) ==> final(self)@ == old(self)@ && e@ == full_message(),
            old(self)@.first_free_taken(warrior@, draws@, final(self)@, r is Ok),
    {
        let w_len = warrior.body.len();
        let mut j: usize = 0;
        while j < draws.len()
            invariant
                j <= draws@.len(),
                *self == *old(self),
                self@.wf(),
                w_len == warrior@.body.len(),
                warrior@.fits(self@.core_size),
                forall|k: int|
                    0 <= k < draws@.len() ==> address_wf(
                        #[trigger] draws@[k],
                        self@.core_size as nat,
                    ),
                forall|k: int| 0 <= k < j ==> !self@.is_free(draws@[k].val as int, w_len as int),
            decreases draws@.len() - j,
        {
            let position = draws[j];
            assert(address_wf(draws@[j as int], self@.core_size as nat));
            if self.position_is_free(&position, w_len) {
                self.place(warrior, position);
                proof {
                    let before = old(self)@;
                    assert(before.free_draw(draws@, j as int, w_len as int));
                    assert forall|k: int| 0 <= k < j implies !#[trigger] before.free_draw(
                        draws@,
                        k,
                        w_len as int,
                    ) by {}
                }
                return Ok(());
            }
            j += 1;
        }
        Err("Core is likely full of warriors allready, cant deploy any more".to_string())
    }

    /// As many places as the core has cells, each drawn at random.
    fn draw_places(core_size: usize) -> (r: Vec<ModUsize>)
        ensures
            r@.len() == core_size,
            forall|j: int| 0 <= j < r@.len() ==> address_wf(#[trigger] r@[j], core_size as nat),
    {
        let mut places: Vec<ModUsize> = Vec::new();
        let mut i: usize = 0;
        while i < core_size
            invariant
                i <= core_size,
                places@.len() == i,
                forall|j: int|
                    0 <= j < places@.len() ==> address_wf(#[trigger] places@[j], core_size as nat),
            decreases core_size - i,
        {
            places.push(ModUsize::rand(core_size, 0..core_size));
            i += 1;
        }
        places
    }

    /// Deploys `warrior`, at `input_position` if one is given and else at a
    /// place drawn at random, and starts its first process. A place given is
    /// refused if the body would share a cell with a warrior deployed before;
    /// without one, twice as many places are drawn as the core has cells, in
    /// two rounds, and the first free one is taken: one is found for certain
    /// where every place is free. On refusal the configuration stays as it was.
    pub fn deploy(&mut self, warrior: Warrior, input_position: Option<ModUsize>) -> (r: Result<
        (),
        String,
    >)
        requires
            old(self)@.wf(),
            warrior@.fits(old(self)@.core_size),
            input_position matches Some(at) ==> address_wf(at, old(self)@.core_size as nat),
        ensures
            final(self)@.wf(),
            final(self)@.core_size == old(self)@.core_size,
            r is Err ==> final(self)@ == old(self)@,
            input_position matches Some(at) ==> (r is Ok <==> old(self)@.is_free(
                at.val as int,
                warrior@.body.len() as int,
            )),
            input_position matches Some(at) ==> r is Ok ==> final(self)@ == old(self)@.deployed(
                at,
                warrior@,
            ),
            input_position matches Some(at) ==> (r matches Err(e) ==> e@ == occupied_message()),
            input_position is None ==> (r matches Err(e) ==> e@ == full_message()),
            input_position is None ==> exists|draws: Seq<ModUsize>|
                draws.len() <= 2 * old(self)@.core_size && (r is Err ==> draws.len() == 2 * old(
                    self,
                )@.core_size) && #[trigger] old(self)@.first_free_taken(
                    warrior@,
                    draws,
                    final(self)@,
                    r is Ok,
                ),
            input_position is None ==> r is Ok ==> exists|at: ModUsize|
                address_wf(at, old(self)@.core_size as nat) && old(self)@.is_free(
                    at.val as int,
                    warrior@.body.len() as int,
                ) && final(self)@ == #[trigger] old(self)@.deployed(at, warrior@),
            input_position is None && (forall|at: ModUsize|
                address_wf(at, old(self)@.core_size as nat) ==> !#[trigger] old(self)@.is_free(
                    at.val as int,
                    warrior@.body.len() as int,
                )) ==> r is Err,
            input_position is None && old(self)@.core_size > 0 && old(self)@.all_free(
                warrior@.body.len() as int,
            ) ==> r is Ok,
    {
        let w_len = warrior.body.len();
        let core_size = self.core_size;

        if let Some(deploy_position) = input_position {
            if !self.position_is_free(&deploy_position, w_len) {
                return Err("Forced deploy position was already ocupied".to_string());
            }
            self.place(warrior, deploy_position);
            return Ok(());
        } else {
            let ghost before = self@;
            let ghost given = warrior@;
            let ghost len = given.body.len() as int;
            let spare = warrior.duplicate();
            let first = Self::draw_places(core_size);
            match self.deploy_at_first_free(warrior, &first) {
                Ok(()) => {
                    proof {
                        let j = choose|j: int|
                            0 <= j < first@.len() && before.is_free(first@[j].val as int, len)
                                && (forall|k: int|
                                0 <= k < j ==> !before.is_free(first@[k].val as int, len))
                                && self@ == #[trigger] before.deployed(first@[j], given);
                        assert(address_wf(first@[j], core_size as nat));
                        assert(before.first_free_taken(given, first@, self@, true));
                    }
                    Ok(())
                },
                Err(_) => {
                    let second = Self::draw_places(core_size);
                    let r = self.deploy_at_first_free(spare, &second);
                    proof {
                        let draws = first@ + second@;
                        assert forall|k: int| 0 <= k < first@.len() implies !before.is_free(
                            first@[k].val as int,
                            len,
                        ) by {
                            assert(!before.free_draw(first@, k, len));
                        }
                        if core_size > 0 {
                            assert(address_wf(first@[0], core_size as nat));
                            assert(!before.is_free(first@[0].val as int, len));
                        }
                        if r is Ok {
                            let j = choose|j: int|
                                0 <= j < second@.len() && before.is_free(
                                    second@[j].val as int,
                                    len,
                                ) && (forall|k: int|
                                    0 <= k < j ==> !before.is_free(second@[k].val as int, len))
                                    && self@ == #[trigger] before.deployed(second@[j], given);
                            assert(address_wf(second@[j], core_size as nat));
                            let at = first@.len() + j;
                            assert(draws[at] == second@[j]);
                            assert(before.free_draw(draws, at, len));
                            assert forall|k: int| 0 <= k < at implies !#[trigger] before.free_draw(
                                draws,
                                k,
                                len,
                            ) by {
                                if k < first@.len() {
                                    assert(draws[k] == first@[k]);
                                } else {
                                    assert(draws[k] == second@[k - first@.len()]);
                                }
                            }
                            assert(before.first_free_taken(given, draws, self@, true));
                        } else {
                            assert forall|k: int| 0 <= k < draws.len() implies !#[trigger] before.free_draw(
                                draws,
                                k,
                                len,
                            ) by {
                                if k < first@.len() {
                                    assert(draws[k] == first@[k]);
                                } else {
                                    assert(draws[k] == second@[k - first@.len()]);
                                    assert(!before.free_draw(second@, k - first@.len(), len));
                                }
                            }
                            assert(before.first_free_taken(given, draws, self@, false));
                        }
                    }
                    r
                },
            }
        }
    }

    /// Starts the battle: the core is filled with blank cells, the body of
    /// each warrior is written at its place, and the warriors take their turns
    /// in the order of their deployment.
    pub fn brawl(&self) -> (r: CoreRuntime)
        requires
            self@.wf(),
            self@.core_size > 0,
        ensures
            r@ == self@.battle(),
            r.core_size == self@.core_size,
            r.wf(),
    {
        let blank = Instruction {
            ptr_range: 0,
            core_size: 0,
            code: OpCode::DAT,
            fields: [
                Field::Direct(ModUsize::new(0, self.core_size)),
                Field::Direct(ModUsize::new(0, self.core_size)),
            ],
            modifier: OpModifier::Default,
        };
        assert(blank.fields =~= blank_cell(self.core_size).fields);
        let mut core = vec![blank; self.core_size];
        assert(core@ =~= initial_core(self.core_size, self@.placements.take(0)));
        let mut warriors: Vec<Warrior> = Vec::new();

        let mut w: usize = 0;
        while w < self.warrior_data.len()
            invariant
                w <= self.warrior_data@.len(),
                self@.wf(),
                self@.core_size > 0,
                core@.len() == self@.core_size,
                core_wf(core@),
                core@ == initial_core(self@.core_size, self@.placements.take(w as int)),
                warriors@.len() == w,
                forall|k: int| 0 <= k < w ==> (#[trigger] warriors@[k])@ == self@.placements[k].1,
            decreases self.warrior_data@.len() - w,
        {
            let ghost placed = self@.placements.take(w as int);
            let ghost start = self@.placements[w as int].0;
            let ghost body = self@.placements[w as int].1.body;
            assert(address_wf(start, self@.core_size as nat));
            assert(self@.placements[w as int].1.fits(self@.core_size));
            let ghost base = core@;
            let deploy_position = self.warrior_data[w].0;
            let warrior = &self.warrior_data[w].1;
            let mut i: usize = 0;
            while i < warrior.body.len()
                invariant
                    i <= body.len(),
                    warrior@.body == body,
                    deploy_position == start,
                    address_wf(start, self@.core_size as nat),
                    self@.core_size > 0,
                    forall|k: int| 0 <= k < body.len() ==> (#[trigger] body[k]).wf(self@.core_size),
                    base.len() == self@.core_size,
                    core@.len() == self@.core_size,
                    core_wf(core@),
                    core@ == with_body(base, start.val as int, body.take(i as int)),
                decreases body.len() - i,
            {
                let op = warrior.body[i];
                let cell = modulo(deploy_position.val as i128 + i as i128, self.core_size);
                proof {
                    lemma_mod_bound(start.val + i, self@.core_size as int);
                    assert(body.take(i + 1).drop_last() =~= body.take(i as int));
                    assert(body[i as int].wf(self@.core_size));
                }
                core[cell] = op;
                i += 1;
            }
            proof {
                assert(body.take(body.len() as int) =~= body);
                let more = self@.placements.take(w + 1);
                assert(more.drop_last() =~= placed);
                assert(more.last() == self@.placements[w as int]);
            }
            warriors.push(warrior.duplicate());
            w += 1;
        }
        assert(self@.placements.take(self@.placements.len() as int) =~= self@.placements);
        let r = CoreRuntime { core_size: self.core_size, core, warriors };
        assert(r@.warriors =~= self@.battle().warriors);
        r
    }

    /// Records `warrior` at the free place `at` and starts its first process.
    fn place(&mut self, warrior: Warrior, at: ModUsize)
        requires
            old(self)@.wf(),
            warrior@.fits(old(self)@.core_size),
            address_wf(at, old(self)@.core_size as nat),
            old(self)@.is_free(at.val as int, warrior@.body.len() as int),
        ensures
            final(self)@ == old(self)@.deployed(at, warrior@),
            final(self)@.wf(),
    {
        let mut warrior = warrior;
        let ghost given = warrior@;
        proof {
            vstd::arithmetic::div_mod::lemma_mod_bound(
                at.val + given.org,
                at.congruence as int,
            );
        }
        let start = at + warrior.org;
        warrior.new_thread(start);
        self.warrior_data.push((at, warrior));
        proof {
            let before = old(self)@;
            let after = self@;
            assert(after.placements =~= before.deployed(at, given).placements);
            let n = before.placements.len() as int;
            assert forall|i: int| 0 <= i < after.placements.len() implies address_wf(
                (#[trigger] after.placements[i]).0,
                after.core_size as nat,
            ) && after.placements[i].1.fits(after.core_size) && after.placements[i].1.threads.len()
                > 0 by {
                if i < n {
                    assert(after.placements[i] == before.placements[i]);
                }
            }
            assert forall|i: int, j: int| 0 <= i < j < after.placements.len() implies !#[trigger] after.collides_with(
                i,
                after.placements[j].0.val as int,
                after.placements[j].1.body.len() as int,
            ) by {
                assert(after.placements[i] == before.placements[i]);
                if j < n {
                    assert(after.placements[j] == before.placements[j]);
                    assert(!before.collides_with(
                        i,
                        before.placements[j].0.val as int,
                        before.placements[j].1.body.len() as int,
                    ));
                } else {
                    assert(!before.collides_with(i, at.val as int, given.body.len() as int));
                    lemma_collide_symmetric(
                        at.val as int,
                        given.body.len() as int,
                        before.placements[i].0.val as int,
                        before.placements[i].1.body.len() as int,
                        before.core_size as int,
                    );
                }
            }
        }
    }
}

} // verus!
