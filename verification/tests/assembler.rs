use corewar::instruction::decrement::Decrement;
use corewar::instruction::field::Field;
use corewar::instruction::instruction::Instruction;
use corewar::instruction::op_code::OpCode;
use corewar::instruction::op_modifier::OpModifier;
use corewar::instruction::runnable_instruction::RunnableInstruction;
use corewar::text::{blank, chars_of, number_of, string_of, trimmed, trimmed_start};
use corewar::utils::ModUsize;
use corewar::warrior::Warrior;

const SIZE: usize = 8000;

fn at(v: isize) -> ModUsize {
    ModUsize::new(v, SIZE)
}

fn chars(s: &str) -> Vec<char> {
    s.chars().collect()
}

#[test]
fn blank_characters_are_those_of_the_standard_library() {
    for code in 0..=0x10FFFFu32 {
        if let Some(c) = char::from_u32(code) {
            assert_eq!(blank(c), c.is_whitespace(), "{code:#x}");
        }
    }
}

#[test]
fn trimming_agrees_with_the_standard_library() {
    for s in ["", " ", "a", "  a b \t\n", "\u{a0}x\u{3000}", "\r\n", "x  ", "  x"] {
        assert_eq!(string_of(&trimmed(&chars(s))), s.trim());
        assert_eq!(string_of(&trimmed_start(&chars(s))), s.trim_start());
        assert_eq!(chars_of(s), chars(s));
    }
}

#[test]
fn numbers_read_as_the_standard_library_reads_them() {
    for s in [
        "0", "7", "-7", "+7", "007", "-0", "", "-", "+", "--1", "+-1", "1 ", " 1", "1a", "a",
        "12345678901234567890", "9223372036854775807", "9223372036854775808",
        "-9223372036854775808", "-9223372036854775809", "99999999999999999999999999999999999999999",
        "1_000", "٣", "1.5",
    ] {
        assert_eq!(number_of(&chars(s)), s.parse::<isize>().ok(), "{s:?}");
    }
}

#[test]
fn listings_are_read_in_any_case() {
    let lower = Warrior::parse("mov.ab #1, <-2 ; straße".to_string(), "w".to_string(), SIZE).unwrap();
    let upper = Warrior::parse("MOV.AB #1, <-2".to_string(), "w".to_string(), SIZE).unwrap();
    assert_eq!(lower, upper);
    assert_eq!(lower.body.len(), 1);
    // letters whose upper case is a plain letter are mapped too
    let long_s = Warrior::parse("\u{17f}ub 1, 2".to_string(), "w".to_string(), SIZE).unwrap();
    assert_eq!(long_s.body[0].code, OpCode::SUB);
}

#[test]
fn every_operation_is_read_by_its_name() {
    for (name, code) in [
        ("DAT", OpCode::DAT),
        ("MOV", OpCode::MOV),
        ("ADD", OpCode::ADD),
        ("SUB", OpCode::SUB),
        ("MUL", OpCode::MUL),
        ("DIV", OpCode::DIV),
        ("MOD", OpCode::MOD),
        ("JMP", OpCode::JMP),
        ("JMZ", OpCode::JMZ),
        ("JMN", OpCode::JMN),
        ("DJN", OpCode::DJN),
        ("SPL", OpCode::SPL),
        ("CMP", OpCode::CMP),
        ("SEQ", OpCode::SEQ),
        ("SNE", OpCode::SNE),
        ("SLT", OpCode::SLT),
        ("NOP", OpCode::NOP),
    ] {
        assert_eq!(OpCode::parse(format!("{name}.X 1")), Ok((code, ".X 1".to_string())));
        assert_eq!(OpCode::parse(name.to_string()), Ok((code, "".to_string())));
        assert_eq!(code.text(), name);
    }
    for bad in ["", "MO", "LDP 1", "STP 1", "mov 0, 1", " MOV", "XYZ"] {
        assert_eq!(
            OpCode::parse(bad.to_string()),
            Err(format!("parsing opcode from {bad} failed"))
        );
    }
}

#[test]
fn every_modifier_is_read_by_its_letters() {
    for (text, modifier) in [
        (".A", OpModifier::A),
        (".B", OpModifier::B),
        (".AB", OpModifier::AB),
        (".BA", OpModifier::BA),
        (".F", OpModifier::F),
        (".X", OpModifier::X),
        (".I", OpModifier::I),
    ] {
        assert_eq!(OpModifier::parse(format!("{text} 1, 2")), Ok((modifier, " 1, 2".to_string())));
        assert_eq!(OpModifier::parse(text.to_string()), Ok((modifier, "".to_string())));
        assert_eq!(modifier.text(), text);
    }
    assert_eq!(OpModifier::parse(" 1, 2".to_string()), Ok((OpModifier::Default, " 1, 2".to_string())));
    assert_eq!(OpModifier::parse("".to_string()), Ok((OpModifier::Default, "".to_string())));
    assert_eq!(OpModifier::parse(".ABX".to_string()), Ok((OpModifier::AB, "X".to_string())));
    assert_eq!(OpModifier::parse(".AX".to_string()), Ok((OpModifier::A, "X".to_string())));
    assert_eq!(OpModifier::Default.text(), "");
    for bad in [".", ".Q", ". A", ".a"] {
        assert_eq!(
            OpModifier::parse(bad.to_string()),
            Err("stray dot, specting op modifier after it".to_string())
        );
    }
}

#[test]
fn every_addressing_mode_is_read_by_its_mark() {
    for (text, field) in [
        ("5", Field::Direct(at(5))),
        ("$5", Field::Direct(at(5))),
        ("#5", Field::Inmediate(at(5))),
        ("*5", Field::AIndirect(at(5), Decrement::Plain)),
        ("@5", Field::BIndirect(at(5), Decrement::Plain)),
        ("{5", Field::AIndirect(at(5), Decrement::Predecrement)),
        ("<5", Field::BIndirect(at(5), Decrement::Predecrement)),
        ("}5", Field::AIndirect(at(5), Decrement::Postincrement)),
        (">5", Field::BIndirect(at(5), Decrement::Postincrement)),
        ("-1", Field::Direct(at(7999))),
        ("#-8001", Field::Inmediate(at(7999))),
        ("<+3", Field::BIndirect(at(3), Decrement::Predecrement)),
    ] {
        assert_eq!(Field::parse(text.to_string(), SIZE), Ok((Some(field), "".to_string())));
        assert_eq!(
            Field::parse(format!("  {text} , @2,3 "), SIZE),
            Ok((Some(field), " @2 3".to_string()))
        );
    }
    assert_eq!(Field::parse("".to_string(), SIZE), Ok((None, "".to_string())));
    assert_eq!(Field::parse("  \t".to_string(), SIZE), Ok((None, "".to_string())));
    for bad in ["#", "# 5", "x", ", 5", "5 5", "%5", "#$5", "99999999999999999999"] {
        assert_eq!(Field::parse(bad.to_string(), SIZE), Err("parsing number failed".to_string()));
    }
}

#[test]
fn fields_are_written_with_their_mark_and_the_centered_number() {
    for (field, text) in [
        (Field::Direct(at(5)), "5"),
        (Field::Direct(at(-5)), "-5"),
        (Field::Inmediate(at(4000)), "#4000"),
        (Field::Inmediate(at(4001)), "#-3999"),
        (Field::AIndirect(at(1), Decrement::Plain), "*1"),
        (Field::AIndirect(at(1), Decrement::Predecrement), "{1"),
        (Field::AIndirect(at(1), Decrement::Postincrement), "}1"),
        (Field::BIndirect(at(-1), Decrement::Plain), "@-1"),
        (Field::BIndirect(at(-1), Decrement::Predecrement), "<-1"),
        (Field::BIndirect(at(-1), Decrement::Postincrement), ">-1"),
    ] {
        assert_eq!(field.text(), text);
        assert_eq!(Field::parse(text.to_string(), SIZE), Ok((Some(field), "".to_string())));
    }
}

fn ins(code: OpCode, modifier: OpModifier, a: Field, b: Field) -> Instruction {
    Instruction { ptr_range: SIZE, core_size: SIZE, code, modifier, fields: [a, b] }
}

#[test]
fn instructions_are_read_from_lines() {
    let d = OpModifier::Default;
    for (line, wanted) in [
        ("MOV 0, 1", ins(OpCode::MOV, d, Field::Direct(at(0)), Field::Direct(at(1)))),
        ("  MOV.AB   #4 ,<-1  ; bomb", ins(
            OpCode::MOV,
            OpModifier::AB,
            Field::Inmediate(at(4)),
            Field::BIndirect(at(-1), Decrement::Predecrement),
        )),
        ("DAT 9", ins(OpCode::DAT, d, Field::Direct(at(0)), Field::Direct(at(9)))),
        ("DAT #1, #2", ins(OpCode::DAT, d, Field::Inmediate(at(1)), Field::Inmediate(at(2)))),
        ("DAT", ins(OpCode::DAT, d, Field::Direct(at(0)), Field::Direct(at(0)))),
        ("JMP 2", ins(OpCode::JMP, d, Field::Direct(at(2)), Field::Direct(at(0)))),
        ("NOP", ins(OpCode::NOP, d, Field::Direct(at(0)), Field::Direct(at(0)))),
        ("SPL@3", ins(OpCode::SPL, d, Field::BIndirect(at(3), Decrement::Plain), Field::Direct(at(0)))),
        ("ADD.F $1,}2;x;y", ins(
            OpCode::ADD,
            OpModifier::F,
            Field::Direct(at(1)),
            Field::AIndirect(at(2), Decrement::Postincrement),
        )),
    ] {
        assert_eq!(Instruction::parse(line.to_string(), SIZE), Ok(Some(wanted)), "{line}");
    }
    for nothing in ["", "   ", "; only a comment", "  ;MOV 0, 1"] {
        assert_eq!(Instruction::parse(nothing.to_string(), SIZE), Ok(None));
    }
    assert_eq!(
        Instruction::parse(" FOO 1 ; x".to_string(), SIZE),
        Err("parsing opcode from FOO 1  failed".to_string())
    );
    assert_eq!(
        Instruction::parse("MOV. 1".to_string(), SIZE),
        Err("stray dot, specting op modifier after it".to_string())
    );
    assert_eq!(Instruction::parse("MOV x, 1".to_string(), SIZE), Err("parsing number failed".to_string()));
    assert_eq!(Instruction::parse("MOV 1, y".to_string(), SIZE), Err("parsing number failed".to_string()));
    assert_eq!(Instruction::parse("MOV 1, 2, 3".to_string(), SIZE), Err("parsing number failed".to_string()));
}

#[test]
fn instructions_are_written_as_they_are_read() {
    for line in ["MOV 0, 1", "MOV.AB #4, <-1", "DAT.F #0, #-3999", "SPL.X }1, {2", "JMZ.I *1, @-2", "SLT >5, $3"] {
        let read = Instruction::parse(line.to_string(), SIZE).unwrap().unwrap();
        let written = read.text();
        assert_eq!(Instruction::parse(written.clone(), SIZE), Ok(Some(read)));
        if !line.contains('$') {
            assert_eq!(written, line);
        }
    }
}

#[test]
fn warriors_are_read_from_listings() {
    let warrior = Warrior::parse(
        "; a dwarf\n  add #4, 3  ; step\n\nmov 2, @2\r\njmp -2, 0\nDAT #0, #0\n".to_string(),
        "Dwarf".to_string(),
        SIZE,
    )
    .unwrap();
    assert_eq!(warrior.name, "Dwarf");
    assert_eq!(warrior.org, 0);
    assert_eq!(warrior.get_counters(), vec![]);
    assert_eq!(warrior.body.len(), 4);
    assert_eq!(warrior.body[0].code, OpCode::ADD);
    assert_eq!(warrior.body[0].fields, [Field::Inmediate(at(4)), Field::Direct(at(3))]);
    assert_eq!(warrior.body[1].fields[1], Field::BIndirect(at(2), Decrement::Plain));
    assert_eq!(warrior.body[2].fields[0], Field::Direct(at(7998)));
    assert_eq!(warrior.body[3].code, OpCode::DAT);
    for cell in &warrior.body {
        assert_eq!((cell.core_size, cell.ptr_range), (SIZE, SIZE));
    }
    let empty = Warrior::parse("".to_string(), "e".to_string(), SIZE).unwrap();
    assert_eq!(empty.body.len(), 0);
}

#[test]
fn org_marks_the_line_where_the_warrior_starts() {
    let warrior = Warrior::parse("nop\nnop\n org start\nnop".to_string(), "w".to_string(), SIZE).unwrap();
    assert_eq!(warrior.org, 2);
    assert_eq!(warrior.body.len(), 3);
    let warrior = Warrior::parse("org\nnop".to_string(), "w".to_string(), SIZE).unwrap();
    assert_eq!(warrior.org, 0);
    assert_eq!(
        Warrior::parse("nop\norg\nnop\nORG 1".to_string(), "w".to_string(), SIZE),
        Err("linea 3: multiple ORG pseudoinstructions found".to_string())
    );
}

#[test]
fn errors_name_their_line() {
    assert_eq!(
        Warrior::parse("nop\n\nfoo 1\nbar".to_string(), "w".to_string(), SIZE),
        Err("linea 2: parsing opcode from FOO 1 failed".to_string())
    );
    assert_eq!(
        Warrior::parse("mov.q 1".to_string(), "w".to_string(), SIZE),
        Err("linea 0: stray dot, specting op modifier after it".to_string())
    );
    let mut listing = String::new();
    for _ in 0..12 {
        listing.push_str("nop\n");
    }
    listing.push_str("mov 1, two");
    assert_eq!(
        Warrior::parse(listing, "w".to_string(), SIZE),
        Err("linea 12: parsing number failed".to_string())
    );
}

#[test]
fn a_listing_in_upper_case_is_read_as_it_is() {
    let text = chars("MOV 0, 1\nmov 0, 1");
    assert_eq!(
        Warrior::parse_upper(&text, "w".to_string(), SIZE),
        Err("linea 1: parsing opcode from mov 0, 1 failed".to_string())
    );
    let warrior = Warrior::parse_upper(&chars("MOV 0, 1"), "w".to_string(), SIZE).unwrap();
    assert_eq!(warrior.body[0].code, OpCode::MOV);
}

#[test]
fn runnable_instructions_need_both_operands() {
    let read = RunnableInstruction::parse("MOV.AB #4, <-1 ; bomb".to_string(), SIZE).unwrap().unwrap();
    assert_eq!(read.code, OpCode::MOV);
    assert_eq!(read.modifier, OpModifier::AB);
    assert_eq!(
        read.fields,
        [Field::Inmediate(at(4)), Field::BIndirect(at(-1), Decrement::Predecrement)]
    );
    assert_eq!(read.get_field_transmisions(), (vec![(0, 1)], false));
    assert_eq!(read.text(), "MOV.AB #4, <-1");
    let cell = read.to_cell(20, SIZE);
    assert_eq!((cell.ptr_range, cell.core_size, cell.fields), (20, SIZE, read.fields));
    assert_eq!(RunnableInstruction::of_cell(&cell), read);
    assert_eq!(RunnableInstruction::parse(" ; nothing".to_string(), SIZE), Ok(None));
    assert_eq!(RunnableInstruction::parse("NOP".to_string(), SIZE), Err("missing field a".to_string()));
    assert_eq!(RunnableInstruction::parse("DAT 1".to_string(), SIZE), Err("missing field b".to_string()));
    assert_eq!(
        RunnableInstruction::parse("MOV 1, x".to_string(), SIZE),
        Err("parsing number failed".to_string())
    );
    let random = RunnableInstruction::get_random(5, 100);
    assert_ne!(random.modifier, OpModifier::Default);
    assert!(random.fields.iter().all(|f| f.get_val().val < 100));
}
