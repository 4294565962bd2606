use corewar::arena::CoreConfig;
use corewar::engine::CoreRuntime;
use corewar::instruction::field::Field;
use corewar::instruction::instruction::Instruction;
use corewar::instruction::op_code::OpCode;
use corewar::instruction::op_modifier::OpModifier;
use corewar::utils::ModUsize;
use corewar::warrior::Warrior;

/// An instruction of a reference dump: an operand that the dump leaves out
/// is equal to any operand.
#[derive(Clone, Copy, Debug, Eq)]
pub struct ReadOnlyInstruction {
    pub code: OpCode,
    pub modifier: OpModifier,
    pub fields: [Option<Field>; 2],
}

impl PartialEq for ReadOnlyInstruction {
    fn eq(&self, other: &Self) -> bool {
        self.code == other.code
            && self.modifier == other.modifier
            && {
                self.fields[0].is_none()
                    || other.fields[0].is_none()
                    || self.fields[0] == other.fields[0]
            }
            && {
                self.fields[1].is_none()
                    || other.fields[1].is_none()
                    || self.fields[1] == other.fields[1]
            }
    }
}

impl ReadOnlyInstruction {
    pub fn parse(line: String, core_size: usize) -> Result<Option<Self>, String> {
        let line = match line.find(";") {
            Some(x) => line[0..x].to_string(),
            None => line,
        };

        let line = line.trim_start().to_string();

        if line == "" {
            return Ok(None);
        }

        let (code, line) = OpCode::parse(line.into())?;

        let line = line.trim_start().to_string();

        let (modifier, line) = OpModifier::parse(line.into())?;

        let line = line.trim_start().to_string();

        let (mut a, line) = Field::parse(line.into(), core_size)?;

        let line = line.trim_start().to_string();

        let (mut b, _) = Field::parse(line.into(), core_size)?;

        if let OpCode::DAT = code {
            if let None = b {
                (b, a) = (a, b);
            }
        }

        Ok(Some(Self { code, modifier, fields: [a, b] }))
    }
}

impl From<Instruction> for ReadOnlyInstruction {
    fn from(value: Instruction) -> Self {
        return Self {
            code: value.code,
            modifier: value.modifier,
            fields: [Some(value.fields[0]), Some(value.fields[1])],
        };
    }
}

/// The dump of a core whose first cells hold `head` and whose other cells
/// are blank.
fn dump_of(head: &[String], core_size: usize) -> String {
    let mut text = String::new();
    for line in head {
        text.push_str(line);
        text.push('\n');
    }
    for _ in head.len()..core_size {
        text.push_str("DAT 0, 0\n");
    }
    text
}

pub fn parse_ares_dump(contents: &str, core_size: usize) -> Vec<ReadOnlyInstruction> {
    let mut ret = vec![];

    let str = contents.to_uppercase();

    for (i, line) in str.split('\n').enumerate() {
        match ReadOnlyInstruction::parse(line.into(), core_size) {
            Ok(None) => (),
            Ok(Some(op)) => ret.push(op),
            Err(err) => panic!("while parsing ares dump {} (line: {})", err, i),
        }
    }

    ret
}

pub fn compare_runtime_with_dump(contents: &str, runtime: &CoreRuntime, note: &str) {
    let res = parse_ares_dump(contents, runtime.core_size);
    assert_eq!(res.len(), runtime.core_size);

    for cell_i in 0..runtime.core_size {
        let a = <Instruction as Into<ReadOnlyInstruction>>::into(runtime.core[cell_i].clone());
        let b = res[cell_i];
        if a != b {
            panic!("[{}]: checking pos {cell_i}: \n{a:?} \n!= \n{b:?}\n", note);
        }
    }
}

fn lines(text: &str) -> Vec<String> {
    text.lines().map(|l| l.to_string()).collect()
}

#[test]
fn test_arithmetic() {
    const WARRIOR: &str = "jmp 2
dat 0,7
add #1, -1
jmp 2
dat 0,-20
add #100, -1
jmp 2
dat 0,-72
add #-100, -1
jmp 2
dat 0,493
add #-562, -1
jmp 2
dat 0,7
mul #1, -1
jmp 2
dat 0,-20
mul #100, -1
jmp 2
dat 0,-72
mul #-100, -1
jmp 2
dat 0,493
mul #-562, -1
jmp 2
dat 0,700
div #14, -1
jmp 2
dat 0,-20
div #3, -1
jmp 2
dat 0,-72
div #8, -1
jmp 2
dat 0,493
div #-2, -1
jmp 2
dat 0,7
sub #7, -1
jmp 2
dat 0,-20
sub #3, -1
jmp 2
dat 0,-72
sub #-7, -1
jmp 2
dat 0,493
sub #-5, -1
jmp 2
dat 0,7
mod #3, -1
jmp 2
dat 0,-20
mod #9, -1
jmp 2
dat 0,-72
mod #-6, -1
jmp 2
dat 0,493
mod #-5, -1
";

    // the same listing with each number as its instruction leaves it
    const CHECK: &str = "jmp 2
dat 0,8
add #1, -1
jmp 2
dat 0,80
add #100, -1
jmp 2
dat 0,-172
add #-100, -1
jmp 2
dat 0,-69
add #-562, -1
jmp 2
dat 0,7
mul #1, -1
jmp 2
dat 0,-2000
mul #100, -1
jmp 2
dat 0,7200
mul #-100, -1
jmp 2
dat 0,2934
mul #-562, -1
jmp 2
dat 0,50
div #14, -1
jmp 2
dat 0,2660
div #3, -1
jmp 2
dat 0,991
div #8, -1
jmp 2
dat 0,0
div #-2, -1
jmp 2
dat 0,0
sub #7, -1
jmp 2
dat 0,-23
sub #3, -1
jmp 2
dat 0,-65
sub #-7, -1
jmp 2
dat 0,498
sub #-5, -1
jmp 2
dat 0,1
mod #3, -1
jmp 2
dat 0,6
mod #9, -1
jmp 2
dat 0,7928
mod #-6, -1
jmp 2
dat 0,493
mod #-5, -1
";

    const CORE_SIZE: usize = 8000;
    let mut core_conf = CoreConfig::new(CORE_SIZE);

    let code = match Warrior::parse(WARRIOR.into(), "code".into(), CORE_SIZE) {
        Ok(res) => res,
        Err(err) => panic!("el parsing del warrior a fallado: {}", err),
    };

    core_conf.deploy(code, Some(ModUsize::new(0, CORE_SIZE))).unwrap();

    let mut runtime = core_conf.brawl();

    while !runtime.done() {
        runtime.tick();
    }

    compare_runtime_with_dump(&dump_of(&lines(CHECK), CORE_SIZE), &runtime, "");
}

#[test]
fn test_death() {
    const CORE_SIZE: usize = 8000;
    let mut core_conf = CoreConfig::new(CORE_SIZE);

    let code = match Warrior::parse(
        "spl 3, <5
JMN -1, 4
add.a #1, 1
jmp 0
dat 0
dat 10"
            .into(),
        "code".into(),
        CORE_SIZE,
    ) {
        Ok(res) => res,
        Err(err) => panic!("el parsing del warrior a fallado: {}", err),
    };

    core_conf.deploy(code, Some(ModUsize::new(0, CORE_SIZE))).unwrap();

    let mut runtime = core_conf.brawl();

    for _ in 0..10000 {
        runtime.tick();
    }

    if !runtime.done() {
        panic!()
    }
}

#[test]
fn test_div_cero() {
    const WARRIOR: &str = "div #0, #0
        nop
        nop
        jmp -1";

    const CORE_SIZE: usize = 8000;
    let mut core_conf = CoreConfig::new(CORE_SIZE);

    let code = match Warrior::parse(WARRIOR.into(), "code".into(), CORE_SIZE) {
        Ok(res) => res,
        Err(err) => panic!("el parsing del warrior a fallado: {}", err),
    };

    core_conf.deploy(code, Some(ModUsize::new(0, CORE_SIZE))).unwrap();

    let mut runtime = core_conf.brawl();

    runtime.tick();

    if !runtime.done() {
        panic!("didn't die at division");
    }
}

#[test]
fn test_mod_cero() {
    const WARRIOR: &str = "mod #0, #0
        nop
        nop
        jmp -1";

    const CORE_SIZE: usize = 8000;
    let mut core_conf = CoreConfig::new(CORE_SIZE);

    let code = match Warrior::parse(WARRIOR.into(), "code".into(), CORE_SIZE) {
        Ok(res) => res,
        Err(err) => panic!("el parsing del warrior a fallado: {}", err),
    };

    core_conf.deploy(code, Some(ModUsize::new(0, CORE_SIZE))).unwrap();

    let mut runtime = core_conf.brawl();

    runtime.tick();

    if !runtime.done() {
        panic!("didn't die at division");
    }
}

#[test]
fn test_imp_test_imp() {
    let core_size = 8000;
    let mut core_conf = CoreConfig::new(core_size);

    let imp = match Warrior::parse("mov 0, 1".into(), "Imp".into(), core_size) {
        Ok(res) => res,
        Err(err) => panic!("el parsing del warrior a fallado: {}", err),
    };

    core_conf.deploy(imp, Some(ModUsize::new(0, core_size))).unwrap();

    let mut runtime = core_conf.brawl();

    for _ in 0..9 {
        runtime.tick();
    }

    let sim_result = runtime.core;
    // the imp has copied itself into the nine cells after its own
    let trail: Vec<String> = (0..10).map(|_| "MOV 0, 1".to_string()).collect();
    let res = parse_ares_dump(&dump_of(&trail, core_size), core_size);

    println!("checking len");
    assert_eq!(sim_result.len(), res.len());

    for i in 0..core_size {
        println!("checking pos {i}");
        assert_eq!(<Instruction as Into<ReadOnlyInstruction>>::into(sim_result[i]), res[i]);
    }
}

#[test]
fn test_imp_wall() {
    const CORE_SIZE: usize = 8000;

    let mut core_conf = CoreConfig::new(CORE_SIZE);

    let imp_wall = match Warrior::parse("jmp 0, <-1".into(), "Imp Wall".into(), CORE_SIZE) {
        Ok(res) => res,
        Err(err) => panic!("el parsing del warrior a fallado: {}", err),
    };

    core_conf.deploy(imp_wall, Some(ModUsize::new(0, CORE_SIZE))).unwrap();

    let mut runtime = core_conf.brawl();

    for _ in 0..9 {
        runtime.tick();
    }

    // nine jumps have decremented the cell before the wall nine times
    let mut check = dump_of(&["JMP 0, <-1".to_string()], CORE_SIZE - 1);
    check.push_str("DAT 0, -9\n");
    compare_runtime_with_dump(&check, &runtime, "");
}

#[test]
fn test_predecrement_test_imp() {
    let mut core_conf = CoreConfig::new(8000);

    let imp = match Warrior::parse(
        "mov 1, <1
dat 0, 7"
            .into(),
        "Imp".into(),
        8000,
    ) {
        Ok(res) => res,
        Err(err) => panic!("el parsing del warrior a fallado: {}", err),
    };

    core_conf.deploy(imp, Some(ModUsize::new(0, 8000))).unwrap();

    let mut runtime = core_conf.brawl();

    runtime.tick();

    let sim_result = runtime.core;
    // the source is read after the decrement: pointer and copy both hold 6
    let head = lines("MOV 1, <1\nDAT 0, 6\nDAT 0, 0\nDAT 0, 0\nDAT 0, 0\nDAT 0, 0\nDAT 0, 0\nDAT 0, 6");
    let res = parse_ares_dump(&dump_of(&head, 8000), 8000);

    println!("checking len");
    assert_eq!(sim_result.len(), res.len());

    for i in 0..8000 {
        println!("checking pos {i}");
        assert_eq!(<Instruction as Into<ReadOnlyInstruction>>::into(sim_result[i]), res[i]);
    }
}

#[test]
fn test_dwarf() {
    const CORE_SIZE: usize = 8000;
    let mut core_conf = CoreConfig::new(CORE_SIZE);

    let dwarf = match Warrior::parse(
        "  ADD #4, 3        
        MOV 2, @2
        JMP -2, 0
        DAT #0, #0"
            .into(),
        "Dwarf".into(),
        CORE_SIZE,
    ) {
        Ok(res) => res,
        Err(err) => panic!("el parsing del warrior a fallado: {}", err),
    };

    core_conf.deploy(dwarf, Some(ModUsize::new(0, CORE_SIZE))).unwrap();

    let mut runtime = core_conf.brawl();

    for _ in 0..((8000 + 3480) / 4 * 3) {
        runtime.tick();
    }

    // every fourth cell holds the bomb with the count that stood when it fell
    let mut head: Vec<String> = lines("ADD #4, 3\nMOV 2, @2\nJMP -2, 0\nDAT #0, #3480");
    for cell in 4..CORE_SIZE {
        if cell % 4 == 3 {
            head.push(format!("DAT #0, #{}", cell - 3));
        } else {
            head.push("DAT 0, 0".to_string());
        }
    }
    compare_runtime_with_dump(&dump_of(&head, CORE_SIZE), &runtime, "");
}

#[test]
fn test_warrior_colision() {
    const CORE_SIZE: usize = 8000;
    let dwarf = match Warrior::parse(
        "  ADD #4, 3        
        MOV 2, @2
        JMP -2, 0
        DAT #0, #0"
            .into(),
        "Dwarf".into(),
        CORE_SIZE,
    ) {
        Ok(res) => res,
        Err(err) => panic!("el parsing del warrior a fallado: {}", err),
    };

    let mut core_conf = CoreConfig::new(CORE_SIZE);
    core_conf.deploy(dwarf.clone(), Some(ModUsize::new(0, CORE_SIZE))).unwrap();
    match core_conf.deploy(dwarf.clone(), Some(ModUsize::new(1, CORE_SIZE))) {
        Ok(_) => panic!("la colision no ha sido detectada 1"),
        Err(_) => (),
    }

    let mut core_conf = CoreConfig::new(CORE_SIZE);
    core_conf.deploy(dwarf.clone(), Some(ModUsize::new(7998, CORE_SIZE))).unwrap();
    match core_conf.deploy(dwarf.clone(), Some(ModUsize::new(0, CORE_SIZE))) {
        Ok(_) => panic!("la colision no ha sido detectada 2"),
        Err(_) => (),
    }

    let mut core_conf = CoreConfig::new(CORE_SIZE);
    core_conf.deploy(dwarf.clone(), Some(ModUsize::new(3001, CORE_SIZE))).unwrap();
    match core_conf.deploy(dwarf.clone(), Some(ModUsize::new(3000, CORE_SIZE))) {
        Ok(_) => panic!("la colision no ha sido detectada 3"),
        Err(_) => (),
    }

    let mut core_conf = CoreConfig::new(CORE_SIZE);

    let mut filled_core = false;

    for _ in 0..CORE_SIZE {
        match core_conf.deploy(dwarf.clone(), None) {
            Ok(_) => (),
            Err(_) => {
                filled_core = true;
                break;
            }
        }
    }

    if !filled_core {
        panic!("filled core was undetected");
    }
}
