use corewar::arena::CoreConfig;
use corewar::engine::CoreRuntime;
use corewar::instruction::decrement::Decrement;
use corewar::instruction::field::Field;
use corewar::instruction::instruction::Instruction;
use corewar::instruction::op_code::OpCode;
use corewar::instruction::op_modifier::OpModifier;
use corewar::utils::ModUsize;
use corewar::warrior::Warrior;

const SIZE: usize = 8000;

fn at(v: isize) -> ModUsize {
    ModUsize::new(v, SIZE)
}

fn battle_of(listings: &[(&str, isize)]) -> CoreRuntime {
    let mut conf = CoreConfig::new(SIZE);
    for (n, (listing, place)) in listings.iter().enumerate() {
        let warrior = Warrior::parse(listing.to_string(), format!("w{n}"), SIZE).unwrap();
        conf.deploy(warrior, Some(at(*place))).unwrap();
    }
    conf.brawl()
}

fn one(listing: &str) -> CoreRuntime {
    battle_of(&[(listing, 0)])
}

fn b_of(runtime: &CoreRuntime, cell: usize) -> usize {
    runtime.core[cell].fields[1].get_val().val
}

fn a_of(runtime: &CoreRuntime, cell: usize) -> usize {
    runtime.core[cell].fields[0].get_val().val
}

fn threads(runtime: &CoreRuntime, warrior: usize) -> Vec<usize> {
    runtime.warriors[warrior].get_counters().iter().map(|t| t.val).collect()
}

#[test]
fn imp_walks_through_the_core() {
    let mut runtime = one("mov 0, 1");
    let imp = runtime.core[0];
    for _ in 0..9 {
        runtime.tick();
    }
    for i in 0..=9 {
        assert_eq!(runtime.core[i], imp);
    }
    assert_eq!(runtime.core[10].code, OpCode::DAT);
    assert_eq!(threads(&runtime, 0), vec![9]);
    assert!(!runtime.done());
}

#[test]
fn dividing_by_zero_ends_the_warrior() {
    let mut runtime = one("div #0, #0");
    runtime.tick();
    assert!(runtime.done());
    assert_eq!(runtime.warriors.len(), 0);
    // a battle that is over stays as it is
    let core = runtime.core.clone();
    runtime.tick();
    assert_eq!(runtime.core, core);
    assert!(runtime.done());
}

#[test]
fn postincrement_happens_once_when_the_field_is_resolved() {
    let mut runtime = one("nop }1, 0\ndat 5, 7");
    let field = runtime.core[0].fields[0];
    assert_eq!(field, Field::AIndirect(at(1), Decrement::Postincrement));
    let before = runtime.core.clone();
    let address = field.solve(&mut runtime, at(0));
    // the address is read before the increment
    assert_eq!(address, at(6));
    assert_eq!(a_of(&runtime, 1), 6);
    assert_eq!(b_of(&runtime, 1), 7);
    for i in 0..SIZE {
        if i != 1 {
            assert_eq!(runtime.core[i], before[i]);
        }
    }
    // reading the resolved cell any number of times changes nothing
    let after = runtime.core.clone();
    for _ in 0..3 {
        let _ = *runtime.get_instruction_at(&address);
    }
    assert_eq!(runtime.core, after);
    // a second resolution is a second increment
    assert_eq!(field.solve(&mut runtime, at(0)), at(7));
    assert_eq!(a_of(&runtime, 1), 7);
}

#[test]
fn every_addressing_mode_resolves_as_written() {
    let mut runtime = one("nop 0, 0\ndat 10, 20\ndat -1, -2");
    let ic = at(0);
    assert_eq!(Field::Direct(at(2)).solve(&mut runtime, ic), at(2));
    assert_eq!(Field::Direct(at(-1)).solve(&mut runtime, at(0)), at(7999));
    assert_eq!(Field::Inmediate(at(5)).solve(&mut runtime, ic), at(0));
    assert_eq!(Field::AIndirect(at(1), Decrement::Plain).solve(&mut runtime, ic), at(11));
    assert_eq!(Field::BIndirect(at(1), Decrement::Plain).solve(&mut runtime, ic), at(21));
    assert_eq!(Field::AIndirect(at(1), Decrement::Predecrement).solve(&mut runtime, ic), at(10));
    assert_eq!(a_of(&runtime, 1), 9);
    assert_eq!(Field::BIndirect(at(1), Decrement::Predecrement).solve(&mut runtime, ic), at(20));
    assert_eq!(b_of(&runtime, 1), 19);
    assert_eq!(Field::BIndirect(at(1), Decrement::Postincrement).solve(&mut runtime, ic), at(20));
    assert_eq!(b_of(&runtime, 1), 20);
    // through a negative pointer, from another instruction
    assert_eq!(Field::BIndirect(at(1), Decrement::Plain).solve(&mut runtime, at(1)), at(0));
    assert_eq!(Field::AIndirect(at(-1), Decrement::Postincrement).solve(&mut runtime, at(3)), at(1));
    assert_eq!(a_of(&runtime, 2), 0);
}

#[test]
fn moving_a_cell_onto_itself_changes_nothing() {
    for listing in ["mov 0, 0", "mov.i 0, 0", "mov.f 0, 0", "mov.a 0, 0", "mov.b 0, 0"] {
        let mut runtime = one(listing);
        let before = runtime.core.clone();
        runtime.tick();
        assert_eq!(runtime.core, before);
        assert_eq!(threads(&runtime, 0), vec![1]);
    }
    // the source is read before the write: a crossed move swaps the fields
    let mut runtime = one("mov.x 1, 1\ndat 3, 4");
    runtime.tick();
    assert_eq!((a_of(&runtime, 1), b_of(&runtime, 1)), (4, 3));
}

#[test]
fn warriors_take_turns_in_order() {
    let mut runtime = battle_of(&[("mov 0, 1", 0), ("jmp 0", 100), ("nop\njmp -1", 200)]);
    let names: Vec<String> = runtime.warriors.iter().map(|w| w.name.clone()).collect();
    runtime.tick();
    assert_eq!(threads(&runtime, 2), vec![1]);
    runtime.tick();
    runtime.tick();
    let after: Vec<String> = runtime.warriors.iter().map(|w| w.name.clone()).collect();
    assert_eq!(after, names);
    assert_eq!(threads(&runtime, 0), vec![1]);
    assert_eq!(threads(&runtime, 1), vec![100]);
    assert_eq!(threads(&runtime, 2), vec![201]);
    for _ in 0..3 {
        runtime.tick();
    }
    assert_eq!(threads(&runtime, 0), vec![2]);
    assert_eq!(threads(&runtime, 1), vec![100]);
    assert_eq!(threads(&runtime, 2), vec![200]);
}

#[test]
fn a_warrior_without_processes_leaves_and_the_others_go_on() {
    let mut runtime = battle_of(&[("dat 0", 0), ("jmp 0", 100)]);
    runtime.tick();
    assert_eq!(runtime.warriors.len(), 1);
    assert_eq!(runtime.warriors[0].name, "w1");
    assert!(!runtime.done());
    runtime.tick();
    assert_eq!(threads(&runtime, 0), vec![100]);
}

#[test]
fn split_runs_the_next_instruction_before_the_target() {
    let mut runtime = one("spl 5\nnop\nnop\nnop\nnop\nnop");
    runtime.tick();
    assert_eq!(threads(&runtime, 0), vec![1, 5]);
    runtime.tick();
    assert_eq!(threads(&runtime, 0), vec![5, 2]);
    runtime.tick();
    assert_eq!(threads(&runtime, 0), vec![2, 6]);
    // with more processes waiting, both go behind them, the next instruction first
    let mut runtime = one("spl 2\nspl 2\nnop\nnop");
    runtime.tick();
    runtime.tick();
    assert_eq!(threads(&runtime, 0), vec![2, 2, 3]);
}

#[test]
fn split_target_runs_even_if_the_next_instruction_dies() {
    let mut runtime = one("spl 2\ndat 0\njmp 0");
    runtime.tick();
    assert_eq!(threads(&runtime, 0), vec![1, 2]);
    runtime.tick();
    assert_eq!(threads(&runtime, 0), vec![2]);
    runtime.tick();
    assert_eq!(threads(&runtime, 0), vec![2]);
}

#[test]
fn arithmetic_writes_to_the_destination() {
    let mut runtime = one("add #3, 2\nsub 1, 2\ndat 1, 10\ndat 2, 4");
    runtime.tick();
    assert_eq!((a_of(&runtime, 2), b_of(&runtime, 2)), (1, 13));
    runtime.tick();
    // without a modifier and without an immediate both fields are combined
    assert_eq!((a_of(&runtime, 3), b_of(&runtime, 3)), (1, 7991));
    let mut runtime = one("mul.x 1, 2\ndat 3, 5\ndat 7, 11");
    runtime.tick();
    assert_eq!((a_of(&runtime, 2), b_of(&runtime, 2)), (35, 33));
    let mut runtime = one("mod.ab #10, #-1");
    runtime.tick();
    assert_eq!(b_of(&runtime, 0), 9);
    assert_eq!(threads(&runtime, 0), vec![1]);
}

#[test]
fn one_zero_divisor_ends_the_process_and_the_other_division_is_done() {
    let mut runtime = one("div.f 1, 2\ndat 0, 4\ndat 30, 20\njmp 0");
    runtime.tick();
    assert!(runtime.done());
    assert_eq!((a_of(&runtime, 2), b_of(&runtime, 2)), (30, 5));
    let mut runtime = one("mod.f 1, 2\ndat 7, 0\ndat 30, 20");
    runtime.tick();
    assert!(runtime.done());
    assert_eq!((a_of(&runtime, 2), b_of(&runtime, 2)), (2, 20));
}

#[test]
fn jumps_test_the_destination() {
    let mut runtime = one("jmz 5, 1\ndat 0, 0");
    runtime.tick();
    assert_eq!(threads(&runtime, 0), vec![5]);
    let mut runtime = one("jmz 5, 1\ndat 0, 1");
    runtime.tick();
    assert_eq!(threads(&runtime, 0), vec![1]);
    let mut runtime = one("jmz.f 5, 1\ndat 1, 0");
    runtime.tick();
    assert_eq!(threads(&runtime, 0), vec![1]);
    let mut runtime = one("jmn.f 5, 1\ndat 1, 0");
    runtime.tick();
    assert_eq!(threads(&runtime, 0), vec![5]);
    let mut runtime = one("jmn 5, 1\ndat 1, 0");
    runtime.tick();
    assert_eq!(threads(&runtime, 0), vec![1]);
    let mut runtime = one("jmp -3, <1\ndat 0, 4");
    runtime.tick();
    assert_eq!(threads(&runtime, 0), vec![7997]);
    assert_eq!(b_of(&runtime, 1), 3);
}

#[test]
fn djn_decrements_then_tests() {
    let mut runtime = one("djn 0, 1\ndat 0, 2");
    runtime.tick();
    assert_eq!(b_of(&runtime, 1), 1);
    assert_eq!(threads(&runtime, 0), vec![0]);
    runtime.tick();
    assert_eq!(b_of(&runtime, 1), 0);
    assert_eq!(threads(&runtime, 0), vec![1]);
    let mut runtime = one("djn.f 0, 1\ndat 1, 1");
    runtime.tick();
    assert_eq!((a_of(&runtime, 1), b_of(&runtime, 1)), (0, 0));
    assert_eq!(threads(&runtime, 0), vec![1]);
    let mut runtime = one("djn 5, 1\ndat 0, 0");
    runtime.tick();
    assert_eq!(b_of(&runtime, 1), 7999);
    assert_eq!(threads(&runtime, 0), vec![5]);
}

#[test]
fn comparisons_skip_the_next_instruction() {
    for (listing, next) in [
        ("seq 1, 2\ndat 1, 2\ndat 1, 2", 2),
        ("cmp 1, 2\ndat 1, 2\ndat 1, 2", 2),
        ("seq 1, 2\ndat 1, 2\ndat 1, 3", 1),
        ("sne 1, 2\ndat 1, 2\ndat 1, 3", 2),
        ("sne 1, 2\ndat 1, 2\ndat 1, 2", 1),
        ("seq.a 1, 2\ndat 1, 2\ndat 1, 3", 2),
        ("seq #3, 1\ndat 0, 3", 2),
        ("slt #3, 1\ndat 0, 4", 2),
        ("slt #3, 1\ndat 0, 3", 1),
        ("slt #3, 1\ndat 0, -1", 2),
        ("slt #-1, 1\ndat 0, 3", 1),
        ("slt 1, 2\ndat 9, 1\ndat 0, 2", 2),
        ("nop 1, 2", 1),
    ] {
        let mut runtime = one(listing);
        let before = runtime.core.clone();
        runtime.tick();
        assert_eq!(threads(&runtime, 0), vec![next], "{listing}");
        assert_eq!(runtime.core, before);
    }
}

#[test]
fn moves_follow_the_modifier() {
    for (modifier, a, b) in [
        (".a", 1, 20),
        (".b", 10, 2),
        (".ab", 10, 1),
        (".ba", 2, 20),
        (".f", 1, 2),
        (".x", 2, 1),
    ] {
        let mut runtime = one(&format!("mov{modifier} 1, 2\nadd 1, 2\nsub 10, 20"));
        runtime.tick();
        assert_eq!((a_of(&runtime, 2), b_of(&runtime, 2)), (a, b), "{modifier}");
        assert_eq!(runtime.core[2].code, OpCode::SUB);
    }
    let mut runtime = one("mov.i 1, 2\nadd.x #1, *2\nsub 10, 20");
    runtime.tick();
    assert_eq!(runtime.core[2], runtime.core[1]);
    let mut runtime = one("mov #5, 1\ndat 1, 2");
    runtime.tick();
    assert_eq!((a_of(&runtime, 1), b_of(&runtime, 1)), (1, 5));
}

#[test]
fn transmissions_follow_the_table() {
    let ins = |code, modifier, a_immediate: bool, b_immediate: bool| Instruction {
        ptr_range: SIZE,
        core_size: SIZE,
        code,
        modifier,
        fields: [
            if a_immediate { Field::Inmediate(at(0)) } else { Field::Direct(at(0)) },
            if b_immediate { Field::Inmediate(at(0)) } else { Field::BIndirect(at(0), Decrement::Plain) },
        ],
    };
    for code in [OpCode::DAT, OpCode::MOV, OpCode::ADD, OpCode::JMP, OpCode::SLT] {
        for (modifier, pipes, whole) in [
            (OpModifier::A, vec![(0, 0)], false),
            (OpModifier::B, vec![(1, 1)], false),
            (OpModifier::AB, vec![(0, 1)], false),
            (OpModifier::BA, vec![(1, 0)], false),
            (OpModifier::F, vec![(0, 0), (1, 1)], false),
            (OpModifier::X, vec![(0, 1), (1, 0)], false),
            (OpModifier::I, vec![(0, 0), (1, 1)], true),
        ] {
            assert_eq!(ins(code, modifier, true, true).get_field_transmisions(), (pipes, whole));
        }
    }
    let d = OpModifier::Default;
    for code in [OpCode::DAT, OpCode::NOP] {
        assert_eq!(ins(code, d, true, false).get_field_transmisions(), (vec![], false));
    }
    for code in [OpCode::MOV, OpCode::SEQ, OpCode::SNE, OpCode::CMP] {
        assert_eq!(ins(code, d, true, true).get_field_transmisions(), (vec![(0, 1)], false));
        assert_eq!(ins(code, d, false, true).get_field_transmisions(), (vec![(1, 1)], false));
        assert_eq!(ins(code, d, false, false).get_field_transmisions(), (vec![(0, 0), (1, 1)], true));
    }
    for code in [OpCode::ADD, OpCode::SUB, OpCode::MUL, OpCode::DIV, OpCode::MOD] {
        assert_eq!(ins(code, d, true, false).get_field_transmisions(), (vec![(0, 1)], false));
        assert_eq!(ins(code, d, false, true).get_field_transmisions(), (vec![(1, 1)], false));
        assert_eq!(ins(code, d, false, false).get_field_transmisions(), (vec![(0, 0), (1, 1)], false));
    }
    assert_eq!(ins(OpCode::SLT, d, true, true).get_field_transmisions(), (vec![(0, 1)], false));
    assert_eq!(ins(OpCode::SLT, d, false, true).get_field_transmisions(), (vec![(1, 1)], false));
    assert_eq!(ins(OpCode::SLT, d, false, false).get_field_transmisions(), (vec![(1, 1)], false));
    for code in [OpCode::JMP, OpCode::JMZ, OpCode::JMN, OpCode::DJN, OpCode::SPL] {
        assert_eq!(ins(code, d, true, true).get_field_transmisions(), (vec![(1, 1)], false));
    }
}

#[test]
fn cells_can_be_read_and_written_from_outside() {
    let mut runtime = one("nop");
    let bomb = runtime.core[5];
    *runtime.get_mut_instruction_at(&at(0)) = bomb;
    assert_eq!(*runtime.get_instruction_at(&at(0)), bomb);
    runtime.tick();
    assert!(runtime.done());
}

#[test]
fn processes_queue_behind_each_other() {
    let mut warrior = Warrior::new(0, "w".to_string(), vec![]);
    assert_eq!(warrior.get_counters(), vec![]);
    warrior.new_thread(at(1));
    warrior.new_thread(at(2));
    warrior.new_thread(at(3));
    assert_eq!(warrior.get_next_instruction_counter(), at(1));
    assert_eq!(warrior.get_counters(), vec![at(2), at(3), at(1)]);
    warrior.set_last_instruction_counter(at(9));
    assert_eq!(warrior.get_counters(), vec![at(2), at(3), at(9)]);
    assert_eq!(warrior.duplicate(), warrior);
    assert_eq!(warrior.instruction_counters, warrior.get_counters());
}

#[test]
fn the_source_is_read_after_both_fields_are_resolved() {
    // field B decrements the cell that field A names: the copy holds the new number
    let mut runtime = one("mov 1, <1\ndat 0, 7");
    runtime.tick();
    assert_eq!(b_of(&runtime, 1), 6);
    assert_eq!((a_of(&runtime, 7), b_of(&runtime, 7)), (0, 6));
    assert_eq!(runtime.core[7], runtime.core[1]);
    assert_eq!(threads(&runtime, 0), vec![1]);
    // so does the operand of an addition
    let mut runtime = one("add 1, >1\ndat 0, 2\ndat 0, 0\ndat 0, 10");
    runtime.tick();
    assert_eq!(b_of(&runtime, 1), 3);
    assert_eq!(b_of(&runtime, 3), 13);
    // field A's own side effect is seen by field B
    let mut runtime = one("mov.b }1, @1\ndat 1, 1\ndat 5, 7\ndat 0, 0");
    runtime.tick();
    assert_eq!((a_of(&runtime, 1), b_of(&runtime, 1)), (2, 1));
    assert_eq!(b_of(&runtime, 2), 7);
}
