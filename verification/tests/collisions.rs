use corewar::arena::{check_segment_colision, CoreConfig};
use corewar::instruction::field::Field;
use corewar::instruction::instruction::Instruction;
use corewar::instruction::op_code::OpCode;
use corewar::instruction::op_modifier::OpModifier;
use corewar::utils::ModUsize;
use corewar::warrior::Warrior;

fn at(v: isize, size: usize) -> ModUsize {
    ModUsize::new(v, size)
}

/// Whether some cell lies in both segments, cell by cell.
fn share_a_cell(sa: usize, la: usize, sb: usize, lb: usize, size: usize) -> bool {
    (0..size).any(|x| (x + size - sa) % size < la && (x + size - sb) % size < lb)
}

#[test]
fn segments_that_touch_do_not_collide() {
    assert!(!check_segment_colision(&at(0, 8), 4, &at(4, 8), 4));
    assert!(!check_segment_colision(&at(4, 8), 4, &at(0, 8), 4));
    assert!(check_segment_colision(&at(0, 8), 4, &at(3, 8), 4));
    assert!(check_segment_colision(&at(3, 8), 4, &at(0, 8), 4));
}

#[test]
fn collision_is_sharing_a_cell() {
    let size = 9;
    for sa in 0..size {
        for sb in 0..size {
            for la in 0..12 {
                for lb in 0..12 {
                    assert_eq!(
                        check_segment_colision(&at(sa as isize, size), la, &at(sb as isize, size), lb),
                        share_a_cell(sa, la, sb, lb, size),
                        "({sa},{la}) ({sb},{lb})"
                    );
                }
            }
        }
    }
}

#[test]
fn a_short_segment_inside_a_long_one_collides() {
    assert!(check_segment_colision(&at(0, 8000), 10, &at(5, 8000), 2));
    assert!(check_segment_colision(&at(5, 8000), 2, &at(0, 8000), 10));
    assert!(!check_segment_colision(&at(0, 8000), 10, &at(10, 8000), 2));
    assert!(check_segment_colision(&at(7999, 8000), 3, &at(0, 8000), 1));
    assert!(!check_segment_colision(&at(0, 8000), 0, &at(0, 8000), 5));
}

fn cell(code: OpCode, a: isize, b: isize, size: usize) -> Instruction {
    Instruction {
        ptr_range: size,
        core_size: size,
        code,
        modifier: OpModifier::Default,
        fields: [Field::Direct(at(a, size)), Field::Direct(at(b, size))],
    }
}

fn warrior(len: usize, org: usize, size: usize) -> Warrior {
    let body = (0..len).map(|i| cell(OpCode::NOP, i as isize, 0, size)).collect();
    Warrior::new(org, "w".to_string(), body)
}

#[test]
fn a_place_that_is_taken_is_refused_by_name() {
    let mut conf = CoreConfig::new(8000);
    assert_eq!(conf.deploy(warrior(4, 0, 8000), Some(at(0, 8000))), Ok(()));
    assert_eq!(
        conf.deploy(warrior(4, 0, 8000), Some(at(1, 8000))),
        Err("Forced deploy position was already ocupied".to_string())
    );
    assert_eq!(conf.deploy(warrior(4, 0, 8000), Some(at(4, 8000))), Ok(()));
    assert_eq!(conf.deploy(warrior(4, 0, 8000), Some(at(7996, 8000))), Ok(()));
    assert!(conf.deploy(warrior(4, 0, 8000), Some(at(7997, 8000))).is_err());
    let runtime = conf.brawl();
    assert_eq!(runtime.warriors.len(), 3);
}

#[test]
fn position_is_free_agrees_with_deploy() {
    let mut conf = CoreConfig::new(100);
    conf.deploy(warrior(10, 0, 100), Some(at(95, 100))).unwrap();
    assert!(!conf.position_is_free(&at(0, 100), 1));
    assert!(!conf.position_is_free(&at(4, 100), 1));
    assert!(conf.position_is_free(&at(5, 100), 90));
    assert!(!conf.position_is_free(&at(5, 100), 91));
    assert!(conf.position_is_free(&at(0, 100), 0));
}

#[test]
fn a_full_core_is_reported_by_name() {
    let mut conf = CoreConfig::new(8);
    conf.deploy(warrior(8, 0, 8), Some(at(3, 8))).unwrap();
    assert_eq!(
        conf.deploy(warrior(1, 0, 8), None),
        Err("Core is likely full of warriors allready, cant deploy any more".to_string())
    );
    let mut empty = CoreConfig::new(0);
    assert!(empty.deploy(Warrior::new(0, "none".to_string(), vec![]), None).is_err());
}

#[test]
fn a_place_drawn_at_random_is_free_and_starts_the_warrior() {
    for _ in 0..50 {
        let mut conf = CoreConfig::new(16);
        conf.deploy(warrior(6, 0, 16), Some(at(2, 16))).unwrap();
        conf.deploy(warrior(4, 3, 16), None).unwrap();
        let runtime = conf.brawl();
        assert_eq!(runtime.warriors.len(), 2);
        let thread = runtime.warriors[1].get_counters()[0];
        assert_eq!(thread.congruence, 16);
        // the body starts three cells before the thread and shares no cell with the first
        let start = (thread.val + 16 - 3) % 16;
        assert!(!share_a_cell(start, 4, 2, 6, 16));
        for k in 0..4 {
            assert_eq!(runtime.core[(start + k) % 16], cell(OpCode::NOP, k as isize, 0, 16));
        }
    }
}

#[test]
fn brawl_writes_each_body_at_its_place() {
    let mut conf = CoreConfig::new(10);
    conf.deploy(warrior(3, 1, 10), Some(at(8, 10))).unwrap();
    conf.deploy(warrior(2, 0, 10), Some(at(4, 10))).unwrap();
    let runtime = conf.brawl();
    assert_eq!(runtime.core_size, 10);
    assert_eq!(runtime.core.len(), 10);
    let blank = Instruction {
        ptr_range: 0,
        core_size: 0,
        code: OpCode::DAT,
        modifier: OpModifier::Default,
        fields: [Field::Direct(at(0, 10)), Field::Direct(at(0, 10))],
    };
    let nop = |i: isize| cell(OpCode::NOP, i, 0, 10);
    let expected =
        vec![nop(2), blank, blank, blank, nop(0), nop(1), blank, blank, nop(0), nop(1)];
    assert_eq!(runtime.core, expected);
    assert_eq!(runtime.warriors[0].get_counters(), vec![at(9, 10)]);
    assert_eq!(runtime.warriors[1].get_counters(), vec![at(4, 10)]);
    assert!(!runtime.done());
    assert!(CoreConfig::new(10).brawl().done());
}

#[test]
fn a_place_is_found_for_certain_where_every_place_is_free() {
    for _ in 0..200 {
        let mut conf = CoreConfig::new(1);
        assert_eq!(conf.deploy(warrior(1, 0, 1), None), Ok(()));
        // the one cell is taken now, but a warrior without body needs none
        assert!(conf.deploy(warrior(1, 0, 1), None).is_err());
        assert_eq!(conf.deploy(Warrior::new(0, "empty".to_string(), vec![]), None), Ok(()));
        let mut conf = CoreConfig::new(3);
        assert_eq!(conf.deploy(warrior(5, 0, 3), None), Ok(()));
    }
}

#[test]
fn the_first_free_place_of_the_draws_is_taken() {
    let mut conf = CoreConfig::new(100);
    conf.deploy(warrior(10, 0, 100), Some(at(0, 100))).unwrap();
    let draws = vec![at(5, 100), at(95, 100), at(40, 100), at(9, 100), at(50, 100)];
    assert_eq!(conf.deploy_at_first_free(warrior(10, 2, 100), &draws), Ok(()));
    let runtime = conf.brawl();
    assert_eq!(runtime.warriors.len(), 2);
    assert_eq!(runtime.warriors[1].get_counters(), vec![at(42, 100)]);
    assert_eq!(runtime.core[40], cell(OpCode::NOP, 0, 0, 100));
    assert_eq!(runtime.core[50].code, OpCode::DAT);
}

#[test]
fn without_a_free_place_among_the_draws_nothing_is_deployed() {
    let mut conf = CoreConfig::new(100);
    conf.deploy(warrior(10, 0, 100), Some(at(0, 100))).unwrap();
    let full = Err("Core is likely full of warriors allready, cant deploy any more".to_string());
    assert_eq!(conf.deploy_at_first_free(warrior(10, 0, 100), &vec![at(5, 100), at(95, 100)]), full);
    assert_eq!(conf.deploy_at_first_free(warrior(10, 0, 100), &vec![]), full);
    assert_eq!(conf.brawl().warriors.len(), 1);
    // a place that touches the first warrior is free
    assert_eq!(conf.deploy_at_first_free(warrior(10, 0, 100), &vec![at(9, 100), at(10, 100)]), Ok(()));
    assert_eq!(conf.brawl().warriors[1].get_counters(), vec![at(10, 100)]);
}
