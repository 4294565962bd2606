//! The engine: the core with its warriors, and the step that runs them.

use crate::instruction::instruction::Instruction;
use crate::instruction::op_code::OpCode;
use crate::machine::{
    address_wf, all_equal, all_zero, all_zero_after_decrement, core_wf, divides_by_zero, execute,
    lemma_execute_wf, lemma_moved_wf, lemma_pipe_value_wf, lemma_step_wf,
    lemma_write_pipes_inert, pipe_held, pipe_operand, pipe_value, poke, some_lower, spawned,
    threads_after, write_pipes, Battle,
};
use crate::utils::ModUsize;
use crate::warrior::Warrior;
use vstd::prelude::*;

verus! {

/// A battle in progress.
#[derive(Debug)]
pub struct CoreRuntime {
    /// The number of cells of the core.
    pub core_size: usize,
    /// The cells.
    pub core: Vec<Instruction>,
    /// The live warriors, the one whose turn it is first.
    pub warriors: Vec<Warrior>,
}

impl View for CoreRuntime {
    type V = Battle;

    open spec fn view(&self) -> Battle {
        Battle { core: self.core@, warriors: self.warriors@.map_values(|w: Warrior| w@) }
    }
}

impl CoreRuntime {
    /// The invariant of the engine: the core has `core_size` cells and the
    /// battle is well formed.
    pub open spec fn wf(&self) -> bool {
        self.core@.len() == self.core_size && self@.wf()
    }

    /// Whether no warrior is left.
    pub fn done(&self) -> (r: bool)
        ensures
            r == (self@.warriors.len() == 0),
    {
        self.warriors.len() == 0
    }

    /// Runs one instruction of the process whose turn it is: the first process
    /// of the first warrior. The process then goes behind the warrior's other
    /// processes, or ends; the warrior goes behind the other warriors, or
    /// leaves the battle with its last process. With no warrior left nothing
    /// happens.
    pub fn tick(&mut self)
        requires
            old(self).wf(),
        ensures
            final(self)@ == old(self)@.step(),
            final(self).core_size == old(self).core_size,
            final(self).wf(),
    {
        if self.warriors.len() == 0 {
            return;
        }
        proof {
            lemma_step_wf(self@);
        }
        let ghost before = self@;
        let ghost warrior = before.warriors[0];
        assert(warrior == self.warriors@[0]@);
        assert(warrior.threads.len() > 0 && warrior.threads_fit(self.core_size));

        let instruction_counter = self.warriors[0].get_next_instruction_counter();
        assert(instruction_counter == warrior.threads[0]);
        assert(address_wf(instruction_counter, before.core.len()));
        proof {
            lemma_execute_wf(before.core, instruction_counter);
        }

        let instruction = *self.get_instruction_at(&instruction_counter);
        assert(instruction.wf(self.core_size));

        let field_a_solution = instruction.fields[0].solve(self, instruction_counter);

        let field_b_solution = instruction.fields[1].solve(self, instruction_counter);

        let instruction_a = *self.get_instruction_at(&field_a_solution);
        assert(instruction_a.wf(self.core_size));

        let instruction_b = *self.get_instruction_at(&field_b_solution);
        assert(instruction_b.wf(self.core_size));

        let ghost resolved = self.core@;
        let (pipes, i_flag) = instruction.get_field_transmisions();

        let mut die = false;

        proof {
            lemma_moved_wf(instruction_counter, 1);
        }
        let mut next_instruction = instruction_counter.inc(1);

        match instruction.code {
            OpCode::DAT => {
                die = true;
            },
            OpCode::MOV => {
                if i_flag {
                    self.set_instruction_at(&field_b_solution, instruction_a);
                } else {
                    self.write_pipes(
                        OpCode::MOV,
                        &pipes,
                        &instruction_a,
                        &instruction_b,
                        &field_b_solution,
                    );
                }
            },
            OpCode::ADD | OpCode::SUB | OpCode::MUL => {
                self.write_pipes(
                    instruction.code,
                    &pipes,
                    &instruction_a,
                    &instruction_b,
                    &field_b_solution,
                );
            },
            OpCode::DIV | OpCode::MOD => {
                die = self.write_pipes(
                    instruction.code,
                    &pipes,
                    &instruction_a,
                    &instruction_b,
                    &field_b_solution,
                );
            },
            OpCode::JMP => {
                next_instruction = field_a_solution;
            },
            OpCode::JMZ => {
                if Self::reads_all_zero(&pipes, &instruction_b) {
                    next_instruction = field_a_solution;
                }
            },
            OpCode::JMN => {
                if !Self::reads_all_zero(&pipes, &instruction_b) {
                    next_instruction = field_a_solution;
                }
            },
            OpCode::DJN => {
                self.write_pipes(
                    OpCode::DJN,
                    &pipes,
                    &instruction_a,
                    &instruction_b,
                    &field_b_solution,
                );
                if !Self::reads_all_zero_after_decrement(&pipes, &instruction_b) {
                    next_instruction = field_a_solution;
                }
            },
            OpCode::SPL => (),
            OpCode::CMP | OpCode::SEQ => {
                if Self::reads_all_equal(&pipes, &instruction_a, &instruction_b) {
                    next_instruction = next_instruction.inc(1);
                }
            },
            OpCode::SNE => {
                if !Self::reads_all_equal(&pipes, &instruction_a, &instruction_b) {
                    next_instruction = next_instruction.inc(1);
                }
            },
            OpCode::SLT => {
                if Self::reads_some_lower(&pipes, &instruction_a, &instruction_b) {
                    next_instruction = next_instruction.inc(1);
                }
            },
            OpCode::NOP => (),
        }

        proof {
            let outcome = execute(before.core, instruction_counter);
            if !(instruction.code is MOV || instruction.code is DJN
                || instruction.code.is_arithmetic()) {
                lemma_write_pipes_inert(
                    instruction.code,
                    pipes@,
                    instruction_a,
                    instruction_b,
                    resolved,
                    field_b_solution,
                );
            }
            assert(self.core@ == outcome.core);
            assert(next_instruction == outcome.next);
            assert(die == outcome.die);
        }

        self.warriors[0].set_last_instruction_counter(next_instruction);

        if let OpCode::SPL = instruction.code {
            self.warriors[0].new_thread(field_a_solution);
        }

        if die {
            self.warriors[0].kill_thread();
        }

        proof {
            let outcome = execute(before.core, instruction_counter);
            let wanted = threads_after(
                warrior.threads,
                outcome,
                spawned(before.core, instruction_counter),
            );
            assert(self.warriors@[0]@.threads =~= wanted);
            assert(self.warriors@[0]@ == warrior.with_threads(wanted));
        }

        if self.warriors[0].dead() {
            self.warriors.remove(0);
        } else {
            let turn = self.warriors.remove(0);
            self.warriors.push(turn);
        }

        proof {
            assert(self@.warriors =~= before.step().warriors);
        }
    }

    /// The instruction in the cell at `ptr`.
    pub fn get_instruction_at(&self, ptr: &ModUsize) -> (r: &Instruction)
        requires
            ptr.val < self.core@.len(),
        ensures
            *r == self.core@[ptr.val as int],
    {
        &self.core[ptr.val]
    }

    /// The cell at `ptr`, to be written: the core afterwards differs from the
    /// core before in that cell alone, which holds what the caller left there.
    pub fn get_mut_instruction_at(&mut self, ptr: &ModUsize) -> (r: &mut Instruction)
        requires
            ptr.val < old(self).core@.len(),
        ensures
            *r == old(self).core@[ptr.val as int],
            final(self).core@ == old(self).core@.update(ptr.val as int, *final(r)),
            final(self).warriors == old(self).warriors,
            final(self).core_size == old(self).core_size,
    {
        &mut self.core[ptr.val]
    }

    /// Replaces the instruction in the cell at `ptr`.
    fn set_instruction_at(&mut self, ptr: &ModUsize, instruction: Instruction)
        requires
            ptr.val < old(self).core@.len(),
        ensures
            final(self).core@ == old(self).core@.update(ptr.val as int, instruction),
            final(self).warriors == old(self).warriors,
            final(self).core_size == old(self).core_size,
    {
        self.core[ptr.val] = instruction;
    }

    /// Replaces the number of field `i_field` of the cell at `ptr`.
    fn write_field_val(&mut self, ptr: &ModUsize, i_field: usize, data: ModUsize)
        requires
            ptr.val < old(self).core@.len(),
            i_field < 2,
        ensures
            final(self).core@ == poke(old(self).core@, *ptr, i_field, data),
            final(self).warriors == old(self).warriors,
            final(self).core_size == old(self).core_size,
    {
        self.core[ptr.val].fields[i_field].set_val(data);
        proof {
            let wanted = old(self).core@[ptr.val as int].with_field_value(i_field as int, data);
            assert(self.core@[ptr.val as int].fields =~= wanted.fields);
        }
    }

    /// Writes the results of `code` through `pipes` into the cell at `at`;
    /// `src` and `dst` are the instructions as they were read before. Returns
    /// whether a pipe divided by zero.
    fn write_pipes(
        &mut self,
        code: OpCode,
        pipes: &Vec<(usize, usize)>,
        src: &Instruction,
        dst: &Instruction,
        at: &ModUsize,
    ) -> (zero: bool)
        requires
            core_wf(old(self).core@),
            address_wf(*at, old(self).core@.len()),
            src.wf(old(self).core@.len() as usize),
            dst.wf(old(self).core@.len() as usize),
            forall|k: int| 0 <= k < pipes@.len() ==> (#[trigger] pipes@[k]).0 < 2 && pipes@[k].1 < 2,
        ensures
            final(self).core@ == write_pipes(code, pipes@, *src, *dst, old(self).core@, *at),
            zero == divides_by_zero(pipes@, *src),
            final(self).warriors == old(self).warriors,
            final(self).core_size == old(self).core_size,
    {
        let mut zero = false;
        let mut i: usize = 0;
        while i < pipes.len()
            invariant
                i <= pipes@.len(),
                address_wf(*at, old(self).core@.len()),
                src.wf(old(self).core@.len() as usize),
                dst.wf(old(self).core@.len() as usize),
                forall|k: int|
                    0 <= k < pipes@.len() ==> (#[trigger] pipes@[k]).0 < 2 && pipes@[k].1 < 2,
                self.core@.len() == old(self).core@.len(),
                self.core@ == write_pipes(
                    code,
                    pipes@.take(i as int),
                    *src,
                    *dst,
                    old(self).core@,
                    *at,
                ),
                zero == divides_by_zero(pipes@.take(i as int), *src),
                self.warriors == old(self).warriors,
                self.core_size == old(self).core_size,
            decreases pipes@.len() - i,
        {
            let (i_src, i_dst) = pipes[i];
            assert(pipes@[i as int].0 < 2 && pipes@[i as int].1 < 2);
            let operand = *src.get_field(i_src).get_val();
            let held = *dst.get_field(i_dst).get_val();
            proof {
                let done = pipes@.take(i as int);
                let more = pipes@.take(i + 1);
                assert(more.drop_last() =~= done);
                assert(pipe_operand(more, i as int, *src) == operand);
                assert(pipe_held(more, i as int, *dst) == held);
                lemma_pipe_value_wf(code, operand, held);
                if divides_by_zero(done, *src) {
                    let k = choose|k: int|
                        0 <= k < done.len() && (#[trigger] pipe_operand(done, k, *src)).val == 0;
                    assert(pipe_operand(more, k, *src).val == 0);
                }
                if divides_by_zero(more, *src) && operand.val != 0 {
                    let k = choose|k: int|
                        0 <= k < more.len() && (#[trigger] pipe_operand(more, k, *src)).val == 0;
                    assert(pipe_operand(done, k, *src).val == 0);
                }
            }
            if operand.val == 0 {
                zero = true;
            }
            match Self::pipe_data(code, operand, held) {
                Some(data) => self.write_field_val(at, i_dst, data),
                None => (),
            }
            i += 1;
        }
        assert(pipes@.take(pipes@.len() as int) =~= pipes@);
        zero
    }

    /// What `code` writes through one pipe, from the source's number
    /// `operand` and the destination's number `held`.
    fn pipe_data(code: OpCode, operand: ModUsize, held: ModUsize) -> (r: Option<ModUsize>)
        requires
            operand.wf(),
            held.wf(),
            operand.congruence == held.congruence,
        ensures
            r == pipe_value(code, operand, held),
    {
        match code {
            OpCode::MOV => Some(operand),
            OpCode::ADD => Some(held + operand),
            OpCode::SUB => Some(held - operand),
            OpCode::MUL => Some(held * operand),
            OpCode::DIV => if operand.val == 0 {
                None
            } else {
                Some(held / operand)
            },
            OpCode::MOD => if operand.val == 0 {
                None
            } else {
                Some(ModUsize { val: held.val % operand.val, congruence: held.congruence })
            },
            OpCode::DJN => Some(held.inc(-1)),
            _ => None,
        }
    }

    /// Whether every number that the pipes read of `dst` is zero.
    fn reads_all_zero(pipes: &Vec<(usize, usize)>, dst: &Instruction) -> (r: bool)
        requires
            forall|k: int| 0 <= k < pipes@.len() ==> (#[trigger] pipes@[k]).1 < 2,
        ensures
            r == all_zero(pipes@, *dst),
    {
        let mut i: usize = 0;
        while i < pipes.len()
            invariant
                i <= pipes@.len(),
                forall|k: int| 0 <= k < pipes@.len() ==> (#[trigger] pipes@[k]).1 < 2,
                forall|k: int| 0 <= k < i ==> (#[trigger] pipe_held(pipes@, k, *dst)).val == 0,
            decreases pipes@.len() - i,
        {
            assert(pipes@[i as int].1 < 2);
            if dst.get_field(pipes[i].1).get_val().val != 0 {
                assert(pipe_held(pipes@, i as int, *dst).val != 0);
                return false;
            }
            i += 1;
        }
        true
    }

    /// Whether every number that the pipes read of `dst` is zero once it is
    /// decremented.
    fn reads_all_zero_after_decrement(pipes: &Vec<(usize, usize)>, dst: &Instruction) -> (r: bool)
        requires
            forall|k: int| 0 <= k < pipes@.len() ==> (#[trigger] pipes@[k]).1 < 2,
            dst.fields[0].value().wf(),
            dst.fields[1].value().wf(),
        ensures
            r == all_zero_after_decrement(pipes@, *dst),
    {
        let mut i: usize = 0;
        while i < pipes.len()
            invariant
                i <= pipes@.len(),
                dst.fields[0].value().wf(),
                dst.fields[1].value().wf(),
                forall|k: int| 0 <= k < pipes@.len() ==> (#[trigger] pipes@[k]).1 < 2,
                forall|k: int|
                    0 <= k < i ==> (#[trigger] pipe_held(pipes@, k, *dst)).moved(-1).val == 0,
            decreases pipes@.len() - i,
        {
            assert(pipes@[i as int].1 < 2);
            if dst.get_field(pipes[i].1).get_val().inc(-1).val != 0 {
                assert(pipe_held(pipes@, i as int, *dst).moved(-1).val != 0);
                return false;
            }
            i += 1;
        }
        true
    }

    /// Whether every pipe reads the same number of `src` and of `dst`.
    fn reads_all_equal(pipes: &Vec<(usize, usize)>, src: &Instruction, dst: &Instruction) -> (r:
        bool)
        requires
            forall|k: int| 0 <= k < pipes@.len() ==> (#[trigger] pipes@[k]).0 < 2 && pipes@[k].1 < 2,
        ensures
            r == all_equal(pipes@, *src, *dst),
    {
        let mut i: usize = 0;
        while i < pipes.len()
            invariant
                i <= pipes@.len(),
                forall|k: int|
                    0 <= k < pipes@.len() ==> (#[trigger] pipes@[k]).0 < 2 && pipes@[k].1 < 2,
                forall|k: int|
                    0 <= k < i ==> #[trigger] pipe_operand(pipes@, k, *src) == pipe_held(
                        pipes@,
                        k,
                        *dst,
                    ),
            decreases pipes@.len() - i,
        {
            assert(pipes@[i as int].0 < 2 && pipes@[i as int].1 < 2);
            let a = *src.get_field(pipes[i].0).get_val();
            let b = *dst.get_field(pipes[i].1).get_val();
            if a != b {
                assert(pipe_operand(pipes@, i as int, *src) != pipe_held(pipes@, i as int, *dst));
                return false;
            }
            i += 1;
        }
        true
    }

    /// Whether some pipe reads a lower number of `src` than of `dst`.
    fn reads_some_lower(pipes: &Vec<(usize, usize)>, src: &Instruction, dst: &Instruction) -> (r:
        bool)
        requires
            forall|k: int| 0 <= k < pipes@.len() ==> (#[trigger] pipes@[k]).0 < 2 && pipes@[k].1 < 2,
        ensures
            r == some_lower(pipes@, *src, *dst),
    {
        let mut i: usize = 0;
        while i < pipes.len()
            invariant
                i <= pipes@.len(),
                forall|k: int|
                    0 <= k < pipes@.len() ==> (#[trigger] pipes@[k]).0 < 2 && pipes@[k].1 < 2,
                forall|k: int|
                    0 <= k < i ==> (#[trigger] pipe_operand(pipes@, k, *src)).val >= pipe_held(
                        pipes@,
                        k,
                        *dst,
                    ).val,
            decreases pipes@.len() - i,
        {
            assert(pipes@[i as int].0 < 2 && pipes@[i as int].1 < 2);
            let a = *src.get_field(pipes[i].0).get_val();
            let b = *dst.get_field(pipes[i].1).get_val();
            if a.val < b.val {
                assert(pipe_operand(pipes@, i as int, *src).val < pipe_held(
                    pipes@,
                    i as int,
                    *dst,
                ).val);
                return true;
            }
            i += 1;
        }
        false
    }
}

} // verus!
