use sim16::assembler::{
    parse_instructions, parse_register, AsmFile, AsmFileParser, LabelDefinition, LabelTable,
    LineShape, ParsingError, RawInstruction, RecognizedLine,
};
use sim16::isa::{BinaryOp, Instruction, JumpCondition, UnaryOp};
use sim16::processor::Processor;

fn line(text: &str) -> RecognizedLine {
    let tokens: Vec<String> = text
        .split(|c: char| c == ' ' || c == ',')
        .filter(|t| !t.is_empty())
        .map(str::to_string)
        .collect();
    let shape = if tokens[0].starts_with("jmp") {
        LineShape::LabelJump
    } else if tokens.len() == 4 {
        LineShape::ThreeRegister
    } else {
        LineShape::TwoRegister
    };
    RecognizedLine { shape, tokens }
}

fn label(name: &str, line: usize) -> LabelDefinition {
    LabelDefinition { name: name.to_string(), line }
}

fn file(lines: &[&str], labels: Vec<LabelDefinition>, data: Vec<u16>) -> AsmFile {
    AsmFile { data, lines: lines.iter().map(|l| line(l)).collect(), labels }
}

#[test]
fn forward_and_backward_labels_resolve() {
    // start: inc 0,0 / jmp skip / inc 1,1 / skip: jmpnz start
    let forward = file(
        &["inc 0,0", "jmp skip", "inc 1,1", "jmpnz start"],
        vec![label("start", 0), label("skip", 3)],
        vec![],
    );
    let image = AsmFileParser::assemble(&forward).unwrap();
    assert_eq!(
        image.instructions,
        vec![
            Instruction::RegOp2 { op: UnaryOp::Increment, dest: 0, src: 0 },
            Instruction::Jump { condition: JumpCondition::Always, target: 3 },
            Instruction::RegOp2 { op: UnaryOp::Increment, dest: 1, src: 1 },
            Instruction::Jump { condition: JumpCondition::IfNotZero, target: 0 },
        ]
    );
    // Same definitions in the other order give the same program.
    let reordered = file(
        &["inc 0,0", "jmp skip", "inc 1,1", "jmpnz start"],
        vec![label("skip", 3), label("start", 0)],
        vec![],
    );
    assert_eq!(AsmFileParser::assemble(&reordered).unwrap().instructions, image.instructions);
}

#[test]
fn undefined_label_fails() {
    let f = file(&["jmp nowhere"], vec![], vec![]);
    assert_eq!(AsmFileParser::assemble(&f).err(), Some(ParsingError::UndefinedLabel));
}

#[test]
fn register_out_of_range_fails() {
    let f = file(&["mov 99,1"], vec![], vec![]);
    assert_eq!(AsmFileParser::assemble(&f).err(), Some(ParsingError::InvalidInstruction));
    let g = file(&["add 1,2,16"], vec![], vec![]);
    assert_eq!(AsmFileParser::assemble(&g).err(), Some(ParsingError::InvalidInstruction));
}

#[test]
fn unknown_mnemonic_fails() {
    let f = file(&["mul 1,2,3"], vec![], vec![]);
    assert_eq!(AsmFileParser::assemble(&f).err(), Some(ParsingError::InvalidInstruction));
    let g = file(&["jmpx here"], vec![label("here", 0)], vec![]);
    assert_eq!(AsmFileParser::assemble(&g).err(), Some(ParsingError::InvalidInstruction));
}

#[test]
fn missing_operand_is_unexpected_token() {
    let f = AsmFile {
        data: vec![],
        lines: vec![RecognizedLine {
            shape: LineShape::TwoRegister,
            tokens: vec!["mov".to_string(), "1".to_string()],
        }],
        labels: vec![],
    };
    assert_eq!(AsmFileParser::assemble(&f).err(), Some(ParsingError::UnexpectedToken));
}

#[test]
fn duplicate_label_fails() {
    let f = file(&["jmp a", "inc 0,0"], vec![label("a", 0), label("a", 1)], vec![]);
    assert_eq!(AsmFileParser::assemble(&f).err(), Some(ParsingError::DuplicateLabel));
}

#[test]
fn label_past_program_is_malformed() {
    let f = file(&["jmp a"], vec![label("a", 1)], vec![]);
    assert_eq!(AsmFileParser::assemble(&f).err(), Some(ParsingError::MalformedFile));
}

#[test]
fn oversized_data_is_malformed() {
    let f = file(&["inc 0,0"], vec![], vec![0u16; 5000]);
    assert_eq!(AsmFileParser::assemble(&f).err(), Some(ParsingError::MalformedFile));
}

#[test]
fn first_error_wins() {
    let f = file(&["mov 1,x", "jmp nowhere"], vec![], vec![]);
    assert_eq!(AsmFileParser::assemble(&f).err(), Some(ParsingError::InvalidInstruction));
}

#[test]
fn all_mnemonics_encode() {
    let f = file(
        &[
            "mov 1,2", "inc 1,2", "dec 1,2", "shl 1,2", "shr 1,2", "ashl 1,2", "ashr 1,2",
            "ld 1,2", "st 1,2", "add 3,4,5", "sub 3,4,5", "and 3,4,5", "or 3,4,5", "jmp e",
            "jmpz e", "jmps e", "jmpc e", "jmpnz e", "jmpns e", "jmpnc e",
        ],
        vec![label("e", 19)],
        vec![9, 8],
    );
    let image = AsmFileParser::assemble(&f).unwrap();
    let ops2 = [
        UnaryOp::Move,
        UnaryOp::Increment,
        UnaryOp::Decrement,
        UnaryOp::ShiftLeftLogical,
        UnaryOp::ShiftRightLogical,
        UnaryOp::ShiftLeftArithmetic,
        UnaryOp::ShiftRightArithmetic,
        UnaryOp::Load,
        UnaryOp::Store,
    ];
    for (i, op) in ops2.iter().enumerate() {
        assert_eq!(image.instructions[i], Instruction::RegOp2 { op: *op, dest: 1, src: 2 });
    }
    let ops3 = [BinaryOp::Add, BinaryOp::Subtract, BinaryOp::And, BinaryOp::Or];
    for (i, op) in ops3.iter().enumerate() {
        assert_eq!(
            image.instructions[9 + i],
            Instruction::RegOp3 { op: *op, dest: 3, src_a: 4, src_b: 5 }
        );
    }
    let conds = [
        JumpCondition::Always,
        JumpCondition::IfZero,
        JumpCondition::IfSign,
        JumpCondition::IfCarry,
        JumpCondition::IfNotZero,
        JumpCondition::IfNotSign,
        JumpCondition::IfNotCarry,
    ];
    for (i, c) in conds.iter().enumerate() {
        assert_eq!(
            image.instructions[13 + i],
            Instruction::Jump { condition: *c, target: 19 }
        );
    }
    assert_eq!(image.data, vec![9, 8]);
}

#[test]
fn parse_register_values() {
    assert_eq!(parse_register("0"), Some(0));
    assert_eq!(parse_register("15"), Some(15));
    assert_eq!(parse_register("007"), Some(7));
    assert_eq!(parse_register("16"), None);
    assert_eq!(parse_register("99"), None);
    assert_eq!(parse_register("123456789012"), None);
    assert_eq!(parse_register(""), None);
    assert_eq!(parse_register("1a"), None);
    assert_eq!(parse_register("-1"), None);
}

#[test]
fn label_table_lookup() {
    let table = LabelTable::build(&vec![label("x", 2), label("y", 0)], 3).unwrap();
    assert_eq!(table.lookup("x"), Some(2));
    assert_eq!(table.lookup("y"), Some(0));
    assert_eq!(table.lookup("z"), None);
    assert!(LabelTable::build(&vec![label("x", 3)], 3).is_err());
}

#[test]
fn raw_instruction_from_line() {
    let raw = RawInstruction::try_from_line(&line("add 1,2,3")).unwrap();
    match raw {
        RawInstruction::Reg3 { op, z, x, y } => {
            assert_eq!((op.as_str(), z.as_str(), x.as_str(), y.as_str()), ("add", "1", "2", "3"));
        }
        _ => panic!("wrong shape"),
    }
    let bad = RecognizedLine {
        shape: LineShape::ThreeRegister,
        tokens: vec!["add".to_string(), "1".to_string(), "2".to_string()],
    };
    assert_eq!(RawInstruction::try_from_line(&bad).err(), Some(ParsingError::UnexpectedToken));
}

#[test]
fn parse_instructions_encodes_in_order() {
    let table = LabelTable::build(&vec![label("top", 0)], 2).unwrap();
    let raws = vec![
        RawInstruction::try_from_line(&line("sub 0,0,1")).unwrap(),
        RawInstruction::try_from_line(&line("jmpc top")).unwrap(),
    ];
    assert_eq!(
        parse_instructions(raws, table).unwrap(),
        vec![
            Instruction::RegOp3 { op: BinaryOp::Subtract, dest: 0, src_a: 0, src_b: 1 },
            Instruction::Jump { condition: JumpCondition::IfCarry, target: 0 },
        ]
    );
}

#[test]
fn assembled_program_runs() {
    // r1 = data[0]; r2 = 0; loop: r2 = r2 + r1; r1 = r1 - 1; jmpnz loop
    let f = file(
        &["ld 1,0", "add 2,2,1", "dec 1,1", "jmpnz loop"],
        vec![label("loop", 1)],
        vec![4],
    );
    let image = AsmFileParser::assemble(&f).unwrap();
    let mut p = Processor::new();
    p.load_ram(&image.data);
    p.load_rom(&image.instructions);
    assert_eq!(p.run(false), Ok(13));
    assert_eq!(p.register(2), 10);
}
