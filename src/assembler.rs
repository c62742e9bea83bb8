use vstd::prelude::*;

use crate::isa::{BinaryOp, Instruction, JumpCondition, UnaryOp, RAM_SIZE, REGISTER_COUNT, ROM_SIZE};

verus! {

/// Why an assembly run failed. Every error ends the run.
#[derive(Clone, Copy, Debug, PartialEq, Eq, Structural)]
pub enum ParsingError {
    /// The grammar layer rejected a line.
    SyntaxError,
    /// Unknown mnemonic, or an operand that is not a register index.
    InvalidInstruction,
    /// A jump names a label that is never defined.
    UndefinedLabel,
    /// The program does not fit the processor, or a label points past its end.
    MalformedFile,
    /// A recognized line lacks or has extra parts for its shape.
    UnexpectedToken,
    /// A label is defined twice.
    DuplicateLabel,
}

/// The assembler: turns recognized source lines into a program image.
pub struct AsmFileParser;

/// The three shapes of an instruction line.
#[derive(Clone, Copy, Debug, PartialEq, Eq, Structural)]
pub enum LineShape {
    /// A mnemonic and a label name.
    LabelJump,
    /// A mnemonic and two register operands.
    TwoRegister,
    /// A mnemonic and three register operands.
    ThreeRegister,
}

/// One source line as classified by the grammar layer: its shape and its tokens,
/// mnemonic first.
pub struct RecognizedLine {
    pub shape: LineShape,
    pub tokens: Vec<String>,
}

/// An instruction whose mnemonic and operands are still unchecked text.
#[derive(Debug)]
pub enum RawInstruction {
    Label { op: String, label: String },
    Reg2 { op: String, z: String, x: String },
    Reg3 { op: String, z: String, x: String, y: String },
}

/// A label definition: the name and the index of the line it marks.
#[derive(Debug)]
pub struct LabelDefinition {
    pub name: String,
    pub line: usize,
}

/// A whole source file after recognition.
pub struct AsmFile {
    pub data: Vec<u16>,
    pub lines: Vec<RecognizedLine>,
    pub labels: Vec<LabelDefinition>,
}

/// What the assembler produces: the program and the initial data block.
pub struct ProgramImage {
    pub instructions: Vec<Instruction>,
    pub data: Vec<u16>,
}

/// Label definitions, checked to be unique and within the program.
pub struct LabelTable {
    entries: Vec<LabelDefinition>,
}

pub open spec fn raw_of(shape: LineShape, t: Seq<String>) -> Option<RawInstruction> {
    match shape {
        LineShape::LabelJump => if t.len() == 2 {
            Some(RawInstruction::Label { op: t[0], label: t[1] })
        } else {
            None
        },
        LineShape::TwoRegister => if t.len() == 3 {
            Some(RawInstruction::Reg2 { op: t[0], z: t[1], x: t[2] })
        } else {
            None
        },
        LineShape::ThreeRegister => if t.len() == 4 {
            Some(RawInstruction::Reg3 { op: t[0], z: t[1], x: t[2], y: t[3] })
        } else {
            None
        },
    }
}

/// The raw instructions of all lines, or `None` if one of them is malformed.
pub open spec fn raw_all(lines: Seq<RecognizedLine>) -> Option<Seq<RawInstruction>>
    decreases lines.len(),
{
    if lines.len() == 0 {
        Some(Seq::empty())
    } else {
        match raw_all(lines.drop_last()) {
            None => None,
            Some(p) => match raw_of(lines.last().shape, lines.last().tokens@) {
                None => None,
                Some(r) => Some(p.push(r)),
            },
        }
    }
}

pub open spec fn is_digit(c: char) -> bool {
    '0' <= c <= '9'
}

pub open spec fn all_digits(s: Seq<char>) -> bool {
    forall|i: int| 0 <= i < s.len() ==> is_digit(#[trigger] s[i])
}

pub open spec fn decimal_value(s: Seq<char>) -> nat
    decreases s.len(),
{
    if s.len() == 0 {
        0
    } else {
        decimal_value(s.drop_last()) * 10 + (s.last() as nat - '0' as nat) as nat
    }
}

/// A register operand: a non-empty run of decimal digits naming an existing register.
pub open spec fn register_operand(s: Seq<char>) -> Option<u8> {
    if s.len() > 0 && all_digits(s) && decimal_value(s) < REGISTER_COUNT {
        Some(decimal_value(s) as u8)
    } else {
        None
    }
}

pub open spec fn jump_condition_of(m: Seq<char>) -> Option<JumpCondition> {
    if m == "jmp"@ {
        Some(JumpCondition::Always)
    } else if m == "jmpz"@ {
        Some(JumpCondition::IfZero)
    } else if m == "jmps"@ {
        Some(JumpCondition::IfSign)
    } else if m == "jmpc"@ {
        Some(JumpCondition::IfCarry)
    } else if m == "jmpnz"@ {
        Some(JumpCondition::IfNotZero)
    } else if m == "jmpns"@ {
        Some(JumpCondition::IfNotSign)
    } else if m == "jmpnc"@ {
        Some(JumpCondition::IfNotCarry)
    } else {
        None
    }
}

pub open spec fn unary_op_of(m: Seq<char>) -> Option<UnaryOp> {
    if m == "mov"@ {
        Some(UnaryOp::Move)
    } else if m == "inc"@ {
        Some(UnaryOp::Increment)
    } else if m == "dec"@ {
        Some(UnaryOp::Decrement)
    } else if m == "shl"@ {
        Some(UnaryOp::ShiftLeftLogical)
    } else if m == "shr"@ {
        Some(UnaryOp::ShiftRightLogical)
    } else if m == "ashl"@ {
        Some(UnaryOp::ShiftLeftArithmetic)
    } else if m == "ashr"@ {
        Some(UnaryOp::ShiftRightArithmetic)
    } else if m == "ld"@ {
        Some(UnaryOp::Load)
    } else if m == "st"@ {
        Some(UnaryOp::Store)
    } else {
        None
    }
}

pub open spec fn binary_op_of(m: Seq<char>) -> Option<BinaryOp> {
    if m == "add"@ {
        Some(BinaryOp::Add)
    } else if m == "sub"@ {
        Some(BinaryOp::Subtract)
    } else if m == "and"@ {
        Some(BinaryOp::And)
    } else if m == "or"@ {
        Some(BinaryOp::Or)
    } else {
        None
    }
}

/// The line that the first definition of `name` marks.
pub open spec fn label_lookup(defs: Seq<LabelDefinition>, name: Seq<char>) -> Option<usize>
    decreases defs.len(),
{
    if defs.len() == 0 {
        None
    } else if defs[0].name@ == name {
        Some(defs[0].line)
    } else {
        label_lookup(defs.drop_first(), name)
    }
}

/// Whether some definition binds `name` to `line`.
pub open spec fn defines(defs: Seq<LabelDefinition>, name: Seq<char>, line: usize) -> bool {
    exists|i: int| 0 <= i < defs.len() && #[trigger] defs[i].name@ == name && defs[i].line == line
}

/// The first fault among label definitions for a program of `n` lines: a line past
/// the program, or a name defined a second time.
pub open spec fn check_labels(defs: Seq<LabelDefinition>, n: nat) -> Option<ParsingError>
    decreases defs.len(),
{
    if defs.len() == 0 {
        None
    } else {
        match check_labels(defs.drop_last(), n) {
            Some(e) => Some(e),
            None => if defs.last().line >= n {
                Some(ParsingError::MalformedFile)
            } else if label_lookup(defs.drop_last(), defs.last().name@) is Some {
                Some(ParsingError::DuplicateLabel)
            } else {
                None
            },
        }
    }
}

/// The encoding of one raw instruction against the label definitions.
pub open spec fn encode(raw: RawInstruction, defs: Seq<LabelDefinition>) -> Result<
    Instruction,
    ParsingError,
> {
    match raw {
        RawInstruction::Label { op, label } => match label_lookup(defs, label@) {
            None => Err(ParsingError::UndefinedLabel),
            Some(line) => match jump_condition_of(op@) {
                Some(c) => Ok(Instruction::Jump { condition: c, target: line }),
                None => Err(ParsingError::InvalidInstruction),
            },
        },
        RawInstruction::Reg2 { op, z, x } => match (
            unary_op_of(op@),
            register_operand(z@),
            register_operand(x@),
        ) {
            (Some(o), Some(d), Some(s)) => Ok(Instruction::RegOp2 { op: o, dest: d, src: s }),
            _ => Err(ParsingError::InvalidInstruction),
        },
        RawInstruction::Reg3 { op, z, x, y } => match (
            binary_op_of(op@),
            register_operand(z@),
            register_operand(x@),
            register_operand(y@),
        ) {
            (Some(o), Some(d), Some(a), Some(b)) => Ok(
                Instruction::RegOp3 { op: o, dest: d, src_a: a, src_b: b },
            ),
            _ => Err(ParsingError::InvalidInstruction),
        },
    }
}

/// The encodings of all raw instructions, or the error of the first that fails.
pub open spec fn encode_all(raws: Seq<RawInstruction>, defs: Seq<LabelDefinition>) -> Result<
    Seq<Instruction>,
    ParsingError,
>
    decreases raws.len(),
{
    if raws.len() == 0 {
        Ok(Seq::empty())
    } else {
        match encode_all(raws.drop_last(), defs) {
            Err(e) => Err(e),
            Ok(p) => match encode(raws.last(), defs) {
                Err(e) => Err(e),
                Ok(i) => Ok(p.push(i)),
            },
        }
    }
}

/// The result of assembling `lines` with `labels` and `data`.
pub open spec fn assembled(
    lines: Seq<RecognizedLine>,
    labels: Seq<LabelDefinition>,
    data: Seq<u16>,
) -> Result<Seq<Instruction>, ParsingError> {
    match raw_all(lines) {
        None => Err(ParsingError::UnexpectedToken),
        Some(raws) => if raws.len() > ROM_SIZE || data.len() > RAM_SIZE {
            Err(ParsingError::MalformedFile)
        } else {
            match check_labels(labels, raws.len()) {
                Some(e) => Err(e),
                None => encode_all(raws, labels),
            }
        },
    }
}

/// Whether two strings hold the same characters.
pub fn text_equals(a: &str, b: &str) -> (r: bool)
    ensures
        r == (a@ == b@),
{
    let n = a.unicode_len();
    if n != b.unicode_len() {
        return false;
    }
    let mut i: usize = 0;
    while i < n
        invariant
            n == a@.len(),
            n == b@.len(),
            i <= n,
            a@.subrange(0, i as int) == b@.subrange(0, i as int),
        decreases n - i,
    {
        if a.get_char(i) != b.get_char(i) {
            assert(a@[i as int] != b@[i as int]);
            return false;
        }
        assert(a@.subrange(0, i + 1) =~= a@.subrange(0, i as int).push(a@[i as int]));
        assert(b@.subrange(0, i + 1) =~= b@.subrange(0, i as int).push(b@[i as int]));
        i = i + 1;
    }
    assert(a@ =~= a@.subrange(0, n as int));
    assert(b@ =~= b@.subrange(0, n as int));
    true
}

/// Reads a register operand: decimal digits whose value is below the register count.
pub fn parse_register(s: &str) -> (r: Option<u8>)
    ensures
        r == register_operand(s@),
{
    let n = s.unicode_len();
    let mut v: u32 = 0;
    let mut i: usize = 0;
    while i < n
        invariant
            n == s@.len(),
            i <= n,
            all_digits(s@.subrange(0, i as int)),
            v == if decimal_value(s@.subrange(0, i as int)) >= REGISTER_COUNT {
                REGISTER_COUNT as nat
            } else {
                decimal_value(s@.subrange(0, i as int))
            },
        decreases n - i,
    {
        let c = s.get_char(i);
        if !('0' <= c && c <= '9') {
            assert(!all_digits(s@));
            return None;
        }
        let ghost prefix = s@.subrange(0, i as int);
        assert(s@.subrange(0, i + 1).drop_last() =~= prefix);
        assert(s@.subrange(0, i + 1) =~= prefix.push(c));
        let d = (c as u32) - ('0' as u32);
        v = v * 10 + d;
        if v >= REGISTER_COUNT as u32 {
            v = REGISTER_COUNT as u32;
        }
        i = i + 1;
    }
    assert(s@.subrange(0, n as int) =~= s@);
    if n > 0 && v < REGISTER_COUNT as u32 {
        Some(v as u8)
    } else {
        None
    }
}

/// The jump condition that a mnemonic names.
pub fn jump_condition(m: &str) -> (r: Option<JumpCondition>)
    ensures
        r == jump_condition_of(m@),
{
    if text_equals(m, "jmp") {
        Some(JumpCondition::Always)
    } else if text_equals(m, "jmpz") {
        Some(JumpCondition::IfZero)
    } else if text_equals(m, "jmps") {
        Some(JumpCondition::IfSign)
    } else if text_equals(m, "jmpc") {
        Some(JumpCondition::IfCarry)
    } else if text_equals(m, "jmpnz") {
        Some(JumpCondition::IfNotZero)
    } else if text_equals(m, "jmpns") {
        Some(JumpCondition::IfNotSign)
    } else if text_equals(m, "jmpnc") {
        Some(JumpCondition::IfNotCarry)
    } else {
        None
    }
}

/// The two-register operation that a mnemonic names.
pub fn unary_op(m: &str) -> (r: Option<UnaryOp>)
    ensures
        r == unary_op_of(m@),
{
    if text_equals(m, "mov") {
        Some(UnaryOp::Move)
    } else if text_equals(m, "inc") {
        Some(UnaryOp::Increment)
    } else if text_equals(m, "dec") {
        Some(UnaryOp::Decrement)
    } else if text_equals(m, "shl") {
        Some(UnaryOp::ShiftLeftLogical)
    } else if text_equals(m, "shr") {
        Some(UnaryOp::ShiftRightLogical)
    } else if text_equals(m, "ashl") {
        Some(UnaryOp::ShiftLeftArithmetic)
    } else if text_equals(m, "ashr") {
        Some(UnaryOp::ShiftRightArithmetic)
    } else if text_equals(m, "ld") {
        Some(UnaryOp::Load)
    } else if text_equals(m, "st") {
        Some(UnaryOp::Store)
    } else {
        None
    }
}

/// The three-register operation that a mnemonic names.
pub fn binary_op(m: &str) -> (r: Option<BinaryOp>)
    ensures
        r == binary_op_of(m@),
{
    if text_equals(m, "add") {
        Some(BinaryOp::Add)
    } else if text_equals(m, "sub") {
        Some(BinaryOp::Subtract)
    } else if text_equals(m, "and") {
        Some(BinaryOp::And)
    } else if text_equals(m, "or") {
        Some(BinaryOp::Or)
    } else {
        None
    }
}

/// Builds a jump instruction from a label-shaped line.
fn parse_instruction_l(tokens: &Vec<String>) -> (r: Result<RawInstruction, ParsingError>)
    ensures
        match raw_of(LineShape::LabelJump, tokens@) {
            Some(ri) => r == Ok::<RawInstruction, ParsingError>(ri),
            None => r == Err::<RawInstruction, ParsingError>(ParsingError::UnexpectedToken),
        },
{
    if tokens.len() != 2 {
        return Err(ParsingError::UnexpectedToken);
    }
    Ok(RawInstruction::Label { op: tokens[0].clone(), label: tokens[1].clone() })
}

/// Builds a two-register instruction from a line of that shape.
fn parse_instruction_2r(tokens: &Vec<String>) -> (r: Result<RawInstruction, ParsingError>)
    ensures
        match raw_of(LineShape::TwoRegister, tokens@) {
            Some(ri) => r == Ok::<RawInstruction, ParsingError>(ri),
            None => r == Err::<RawInstruction, ParsingError>(ParsingError::UnexpectedToken),
        },
{
    if tokens.len() != 3 {
        return Err(ParsingError::UnexpectedToken);
    }
    Ok(RawInstruction::Reg2 { op: tokens[0].clone(), z: tokens[1].clone(), x: tokens[2].clone() })
}

/// Builds a three-register instruction from a line of that shape.
fn parse_instruction_3r(tokens: &Vec<String>) -> (r: Result<RawInstruction, ParsingError>)
    ensures
        match raw_of(LineShape::ThreeRegister, tokens@) {
            Some(ri) => r == Ok::<RawInstruction, ParsingError>(ri),
            None => r == Err::<RawInstruction, ParsingError>(ParsingError::UnexpectedToken),
        },
{
    if tokens.len() != 4 {
        return Err(ParsingError::UnexpectedToken);
    }
    Ok(
        RawInstruction::Reg3 {
            op: tokens[0].clone(),
            z: tokens[1].clone(),
            x: tokens[2].clone(),
            y: tokens[3].clone(),
        },
    )
}

impl RawInstruction {
    /// Builds the raw instruction of a recognized line; fails with `UnexpectedToken`
    /// when the line does not have exactly the parts its shape calls for.
    pub fn try_from_line(line: &RecognizedLine) -> (r: Result<RawInstruction, ParsingError>)
        ensures
            match raw_of(line.shape, line.tokens@) {
                Some(ri) => r == Ok::<RawInstruction, ParsingError>(ri),
                None => r == Err::<RawInstruction, ParsingError>(ParsingError::UnexpectedToken),
            },
    {
        match line.shape {
            LineShape::LabelJump => parse_instruction_l(&line.tokens),
            LineShape::TwoRegister => parse_instruction_2r(&line.tokens),
            LineShape::ThreeRegister => parse_instruction_3r(&line.tokens),
        }
    }
}

proof fn lemma_check_labels_prefix(defs: Seq<LabelDefinition>, i: int, n: nat)
    requires
        0 <= i <= defs.len(),
        check_labels(defs.subrange(0, i), n) is Some,
    ensures
        check_labels(defs, n) == check_labels(defs.subrange(0, i), n),
    decreases defs.len(),
{
    if i == defs.len() {
        assert(defs.subrange(0, i) =~= defs);
    } else {
        assert(defs.drop_last().subrange(0, i) =~= defs.subrange(0, i));
        lemma_check_labels_prefix(defs.drop_last(), i, n);
    }
}

proof fn lemma_encode_all_prefix(raws: Seq<RawInstruction>, i: int, defs: Seq<LabelDefinition>)
    requires
        0 <= i <= raws.len(),
        encode_all(raws.subrange(0, i), defs) is Err,
    ensures
        encode_all(raws, defs) == encode_all(raws.subrange(0, i), defs),
    decreases raws.len(),
{
    if i == raws.len() {
        assert(raws.subrange(0, i) =~= raws);
    } else {
        assert(raws.drop_last().subrange(0, i) =~= raws.subrange(0, i));
        lemma_encode_all_prefix(raws.drop_last(), i, defs);
    }
}

proof fn lemma_raw_all_prefix(lines: Seq<RecognizedLine>, i: int)
    requires
        0 <= i <= lines.len(),
        raw_all(lines.subrange(0, i)) is None,
    ensures
        raw_all(lines) is None,
    decreases lines.len(),
{
    if i == lines.len() {
        assert(lines.subrange(0, i) =~= lines);
    } else {
        assert(lines.drop_last().subrange(0, i) =~= lines.subrange(0, i));
        lemma_raw_all_prefix(lines.drop_last(), i);
    }
}

impl LabelTable {
    /// The definitions the table holds, in the order they were given.
    pub closed spec fn definitions(&self) -> Seq<LabelDefinition> {
        self.entries@
    }

    /// Collects the label definitions of a program of `program_len` lines. Fails with
    /// the first fault that `check_labels` finds: a line past the program
    /// (`MalformedFile`) or a repeated name (`DuplicateLabel`).
    pub fn build(defs: &Vec<LabelDefinition>, program_len: usize) -> (r: Result<
        LabelTable,
        ParsingError,
    >)
        ensures
            match check_labels(defs@, program_len as nat) {
                None => r is Ok && r->Ok_0.definitions() == defs@,
                Some(e) => r == Err::<LabelTable, ParsingError>(e),
            },
    {
        let mut table = LabelTable { entries: Vec::new() };
        let mut i: usize = 0;
        while i < defs.len()
            invariant
                i <= defs@.len(),
                table.entries@ == defs@.subrange(0, i as int),
                check_labels(defs@.subrange(0, i as int), program_len as nat) is None,
            decreases defs@.len() - i,
        {
            let d = &defs[i];
            let ghost next = defs@.subrange(0, i + 1);
            assert(next.drop_last() =~= defs@.subrange(0, i as int));
            if d.line >= program_len {
                proof {
                    lemma_check_labels_prefix(defs@, i + 1, program_len as nat);
                }
                return Err(ParsingError::MalformedFile);
            }
            if table.lookup(d.name.as_str()).is_some() {
                proof {
                    lemma_check_labels_prefix(defs@, i + 1, program_len as nat);
                }
                return Err(ParsingError::DuplicateLabel);
            }
            table.entries.push(LabelDefinition { name: d.name.clone(), line: d.line });
            i = i + 1;
            assert(table.entries@ =~= defs@.subrange(0, i as int));
        }
        assert(defs@.subrange(0, defs@.len() as int) =~= defs@);
        Ok(table)
    }

    /// The line that `name` marks, if it is defined.
    pub fn lookup(&self, name: &str) -> (r: Option<usize>)
        ensures
            r == label_lookup(self.definitions(), name@),
    {
        let mut i: usize = 0;
        assert(self.entries@.subrange(0, self.entries@.len() as int) =~= self.entries@);
        while i < self.entries.len()
            invariant
                i <= self.entries@.len(),
                label_lookup(self.entries@, name@) == label_lookup(
                    self.entries@.subrange(i as int, self.entries@.len() as int),
                    name@,
                ),
            decreases self.entries@.len() - i,
        {
            let ghost rest = self.entries@.subrange(i as int, self.entries@.len() as int);
            assert(rest.drop_first() =~= self.entries@.subrange(
                i + 1,
                self.entries@.len() as int,
            ));
            if text_equals(self.entries[i].name.as_str(), name) {
                return Some(self.entries[i].line);
            }
            i = i + 1;
        }
        None
    }
}

/// No two definitions share a name.
pub open spec fn names_unique(defs: Seq<LabelDefinition>) -> bool {
    forall|i: int, j: int|
        0 <= i < j < defs.len() ==> #[trigger] defs[i].name@ != #[trigger] defs[j].name@
}

proof fn lemma_lookup_some(defs: Seq<LabelDefinition>, name: Seq<char>)
    requires
        label_lookup(defs, name) is Some,
    ensures
        defines(defs, name, label_lookup(defs, name)->Some_0),
    decreases defs.len(),
{
    if defs[0].name@ != name {
        let rest = defs.drop_first();
        lemma_lookup_some(rest, name);
        let i = choose|i: int|
            0 <= i < rest.len() && #[trigger] rest[i].name@ == name && rest[i].line
                == label_lookup(defs, name)->Some_0;
        assert(defs[i + 1] == rest[i]);
    }
}

proof fn lemma_lookup_none(defs: Seq<LabelDefinition>, name: Seq<char>)
    requires
        label_lookup(defs, name) is None,
    ensures
        forall|i: int| 0 <= i < defs.len() ==> #[trigger] defs[i].name@ != name,
    decreases defs.len(),
{
    if defs.len() > 0 {
        let rest = defs.drop_first();
        lemma_lookup_none(rest, name);
        assert forall|i: int| 0 <= i < defs.len() implies #[trigger] defs[i].name@ != name by {
            if i > 0 {
                assert(defs[i] == rest[i - 1]);
            }
        }
    }
}

proof fn lemma_checked_labels_unique(defs: Seq<LabelDefinition>, n: nat)
    requires
        check_labels(defs, n) is None,
    ensures
        names_unique(defs),
    decreases defs.len(),
{
    if defs.len() > 0 {
        let p = defs.drop_last();
        lemma_checked_labels_unique(p, n);
        lemma_lookup_none(p, defs.last().name@);
        assert forall|i: int, j: int| 0 <= i < j < defs.len() implies #[trigger] defs[i].name@
            != #[trigger] defs[j].name@ by {
            assert(defs[i] == p[i]);
            if j < defs.len() - 1 {
                assert(defs[j] == p[j]);
            }
        }
    }
}

proof fn lemma_lookup_of_unique(defs: Seq<LabelDefinition>, name: Seq<char>)
    requires
        names_unique(defs),
    ensures
        forall|line: usize|
            #[trigger] defines(defs, name, line) <==> label_lookup(defs, name) == Some(line),
{
    assert forall|line: usize| #[trigger] defines(defs, name, line) implies label_lookup(
        defs,
        name,
    ) == Some(line) by {
        let i = choose|i: int|
            0 <= i < defs.len() && #[trigger] defs[i].name@ == name && defs[i].line == line;
        if label_lookup(defs, name) is None {
            lemma_lookup_none(defs, name);
            assert(defs[i].name@ != name);
        } else {
            lemma_lookup_some(defs, name);
            let j = choose|j: int|
                0 <= j < defs.len() && #[trigger] defs[j].name@ == name && defs[j].line
                    == label_lookup(defs, name)->Some_0;
            if i < j {
                assert(defs[i].name@ != defs[j].name@);
            } else if j < i {
                assert(defs[j].name@ != defs[i].name@);
            }
        }
    }
    if label_lookup(defs, name) is Some {
        lemma_lookup_some(defs, name);
    }
}

proof fn lemma_encode_all_same_lookup(
    raws: Seq<RawInstruction>,
    d1: Seq<LabelDefinition>,
    d2: Seq<LabelDefinition>,
)
    requires
        forall|name: Seq<char>| #[trigger] label_lookup(d1, name) == label_lookup(d2, name),
    ensures
        encode_all(raws, d1) == encode_all(raws, d2),
    decreases raws.len(),
{
    if raws.len() > 0 {
        lemma_encode_all_same_lookup(raws.drop_last(), d1, d2);
        if let RawInstruction::Label { label, .. } = raws.last() {
            assert(label_lookup(d1, label@) == label_lookup(d2, label@));
        }
    }
}

/// Label resolution does not depend on where or in which order labels are defined:
/// two valid sets of definitions that bind the same names to the same lines give
/// every program the same encoding, whether its jumps point forward or backward.
pub proof fn lemma_label_resolution_order_independent(
    raws: Seq<RawInstruction>,
    d1: Seq<LabelDefinition>,
    d2: Seq<LabelDefinition>,
    n: nat,
)
    requires
        check_labels(d1, n) is None,
        check_labels(d2, n) is None,
        forall|name: Seq<char>, line: usize|
            #[trigger] defines(d1, name, line) == #[trigger] defines(d2, name, line),
    ensures
        encode_all(raws, d1) == encode_all(raws, d2),
{
    lemma_checked_labels_unique(d1, n);
    lemma_checked_labels_unique(d2, n);
    assert forall|name: Seq<char>| #[trigger] label_lookup(d1, name) == label_lookup(
        d2,
        name,
    ) by {
        lemma_lookup_of_unique(d1, name);
        lemma_lookup_of_unique(d2, name);
        if label_lookup(d1, name) is Some {
            assert(defines(d1, name, label_lookup(d1, name)->Some_0));
            assert(defines(d2, name, label_lookup(d1, name)->Some_0));
        } else if label_lookup(d2, name) is Some {
            assert(defines(d2, name, label_lookup(d2, name)->Some_0));
            assert(defines(d1, name, label_lookup(d2, name)->Some_0));
        }
    }
    lemma_encode_all_same_lookup(raws, d1, d2);
}

/// Encodes one raw instruction, resolving its label against `labels`.
pub fn encode_instruction(ins: &RawInstruction, labels: &LabelTable) -> (r: Result<
    Instruction,
    ParsingError,
>)
    ensures
        r == encode(*ins, labels.definitions()),
{
    match ins {
        RawInstruction::Label { op, label } => {
            let line = match labels.lookup(label.as_str()) {
                Some(l) => l,
                None => return Err(ParsingError::UndefinedLabel),
            };
            match jump_condition(op.as_str()) {
                Some(c) => Ok(Instruction::Jump { condition: c, target: line }),
                None => Err(ParsingError::InvalidInstruction),
            }
        },
        RawInstruction::Reg2 { op, z, x } => {
            match (unary_op(op.as_str()), parse_register(z.as_str()), parse_register(x.as_str())) {
                (Some(o), Some(d), Some(s)) => Ok(Instruction::RegOp2 { op: o, dest: d, src: s }),
                _ => Err(ParsingError::InvalidInstruction),
            }
        },
        RawInstruction::Reg3 { op, z, x, y } => {
            match (
                binary_op(op.as_str()),
                parse_register(z.as_str()),
                parse_register(x.as_str()),
                parse_register(y.as_str()),
            ) {
                (Some(o), Some(d), Some(a), Some(b)) => Ok(
                    Instruction::RegOp3 { op: o, dest: d, src_a: a, src_b: b },
                ),
                _ => Err(ParsingError::InvalidInstruction),
            }
        },
    }
}

/// Encodes every raw instruction in order, stopping at the first that fails.
pub fn parse_instructions(instructions: Vec<RawInstruction>, labels: LabelTable) -> (r: Result<
    Vec<Instruction>,
    ParsingError,
>)
    ensures
        match encode_all(instructions@, labels.definitions()) {
            Ok(s) => r is Ok && r->Ok_0@ == s,
            Err(e) => r == Err::<Vec<Instruction>, ParsingError>(e),
        },
{
    let ghost defs = labels.definitions();
    let mut processed: Vec<Instruction> = Vec::new();
    let mut i: usize = 0;
    while i < instructions.len()
        invariant
            i <= instructions@.len(),
            defs == labels.definitions(),
            encode_all(instructions@.subrange(0, i as int), defs) == Ok::<
                Seq<Instruction>,
                ParsingError,
            >(processed@),
        decreases instructions@.len() - i,
    {
        let ghost next = instructions@.subrange(0, i + 1);
        assert(next.drop_last() =~= instructions@.subrange(0, i as int));
        match encode_instruction(&instructions[i], &labels) {
            Ok(ins) => {
                processed.push(ins);
            },
            Err(e) => {
                proof {
                    lemma_encode_all_prefix(instructions@, i + 1, defs);
                }
                return Err(e);
            },
        }
        i = i + 1;
    }
    assert(instructions@.subrange(0, instructions@.len() as int) =~= instructions@);
    Ok(processed)
}

impl AsmFileParser {
    /// Assembles a recognized source file: builds the raw instructions, checks the
    /// sizes against the processor, collects the labels and encodes the program.
    pub fn assemble(file: &AsmFile) -> (r: Result<ProgramImage, ParsingError>)
        ensures
            match assembled(file.lines@, file.labels@, file.data@) {
                Ok(s) => r is Ok && r->Ok_0.instructions@ == s && r->Ok_0.data@ == file.data@,
                Err(e) => r is Err && r->Err_0 == e,
            },
    {
        let mut raws: Vec<RawInstruction> = Vec::new();
        let mut i: usize = 0;
        while i < file.lines.len()
            invariant
                i <= file.lines@.len(),
                raw_all(file.lines@.subrange(0, i as int)) == Some(raws@),
            decreases file.lines@.len() - i,
        {
            let ghost next = file.lines@.subrange(0, i + 1);
            assert(next.drop_last() =~= file.lines@.subrange(0, i as int));
            match RawInstruction::try_from_line(&file.lines[i]) {
                Ok(ri) => {
                    raws.push(ri);
                },
                Err(e) => {
                    proof {
                        lemma_raw_all_prefix(file.lines@, i + 1);
                    }
                    return Err(e);
                },
            }
            i = i + 1;
        }
        assert(file.lines@.subrange(0, file.lines@.len() as int) =~= file.lines@);
        if raws.len() > ROM_SIZE || file.data.len() > RAM_SIZE {
            return Err(ParsingError::MalformedFile);
        }
        let table = LabelTable::build(&file.labels, raws.len())?;
        let instructions = parse_instructions(raws, table)?;
        let mut data: Vec<u16> = Vec::new();
        let mut j: usize = 0;
        while j < file.data.len()
            invariant
                j <= file.data@.len(),
                data@ == file.data@.subrange(0, j as int),
            decreases file.data@.len() - j,
        {
            data.push(file.data[j]);
            j = j + 1;
            assert(data@ =~= file.data@.subrange(0, j as int));
        }
        assert(data@ =~= file.data@);
        Ok(ProgramImage { instructions, data })
    }
}

} // verus!
