use norma::interpreter::program::{
    Instruction, InstructionKind, Operation, OperationKind, Program, Test, TestKind,
};
use norma::interpreter::Interpreter;
use norma::natural::Natural;

fn n(value: u64) -> Natural {
    Natural::from_u64(value)
}

fn s(text: &str) -> String {
    text.to_string()
}

fn op(label: &str, kind: OperationKind, next: &str) -> Instruction {
    Instruction::new(s(label), InstructionKind::Operation(Operation { kind, next: s(next) }))
}

fn test(label: &str, kind: TestKind, then: &str, otherwise: &str) -> Instruction {
    Instruction::new(
        s(label),
        InstructionKind::Test(Test { kind, next_then: s(then), next_else: s(otherwise) }),
    )
}

fn run_one(instruction: Instruction, input: u64) -> Interpreter {
    let mut program = Program::empty();
    program.insert(instruction);
    let mut interpreter = Interpreter::new(program);
    interpreter.input(n(input));
    interpreter
}

fn id_program() -> Program {
    let mut program = Program::empty();
    program.insert(test("1", TestKind::Zero(s("X")), "0", "2"));
    program.insert(op("2", OperationKind::Dec(s("X")), "3"));
    program.insert(op("3", OperationKind::Inc(s("Y")), "1"));
    program
}

#[test]
fn steps_of_clear() {
    let mut interpreter = run_one(op("1", OperationKind::Clear(s("X")), "0"), 5);
    assert!(interpreter.run_step());
    assert_eq!(interpreter.steps(), n(11));
    assert_eq!(interpreter.machine().get_value("X"), n(0));
    assert_eq!(interpreter.current_label(), "0");
}

#[test]
fn steps_of_load() {
    let mut interpreter = run_one(op("1", OperationKind::Load(s("X"), n(3)), "0"), 5);
    assert!(interpreter.run_step());
    assert_eq!(interpreter.steps(), n(14));
    assert_eq!(interpreter.machine().get_value("X"), n(3));
}

#[test]
fn steps_of_constants() {
    let mut interpreter = run_one(op("1", OperationKind::AddConst(s("X"), n(4)), "2"), 5);
    assert!(interpreter.run_step());
    assert_eq!(interpreter.steps(), n(4));
    assert_eq!(interpreter.machine().get_value("X"), n(9));
    let mut interpreter = run_one(op("1", OperationKind::SubConst(s("X"), n(7)), "2"), 5);
    assert!(interpreter.run_step());
    assert_eq!(interpreter.steps(), n(7));
    assert_eq!(interpreter.machine().get_value("X"), n(0));
}

#[test]
fn steps_of_register_arithmetic() {
    let mut interpreter =
        run_one(op("1", OperationKind::Add(s("Y"), s("X"), s("T")), "0"), 5);
    assert!(interpreter.run_step());
    assert_eq!(interpreter.steps(), n(38));
    assert_eq!(interpreter.output(), n(5));
    assert_eq!(interpreter.machine().get_value("T"), n(0));
    let mut interpreter =
        run_one(op("1", OperationKind::Sub(s("X"), s("X"), s("T")), "0"), 4);
    assert!(interpreter.run_step());
    assert_eq!(interpreter.steps(), n(31));
    assert_eq!(interpreter.machine().get_value("X"), n(0));
}

#[test]
fn steps_of_tests_with_constants() {
    let mut interpreter =
        run_one(test("1", TestKind::EqualsConst(s("X"), n(3)), "yes", "no"), 5);
    assert!(interpreter.run_step());
    assert_eq!(interpreter.steps(), n(10));
    assert_eq!(interpreter.current_label(), "no");
    let mut interpreter =
        run_one(test("1", TestKind::EqualsConst(s("X"), n(5)), "yes", "no"), 5);
    assert!(interpreter.run_step());
    assert_eq!(interpreter.steps(), n(16));
    assert_eq!(interpreter.current_label(), "yes");
    let mut interpreter =
        run_one(test("1", TestKind::LessThanConst(s("X"), n(3)), "yes", "no"), 5);
    assert!(interpreter.run_step());
    assert_eq!(interpreter.steps(), n(7));
    assert_eq!(interpreter.current_label(), "no");
    let mut interpreter =
        run_one(test("1", TestKind::LessThanConst(s("X"), n(3)), "yes", "no"), 1);
    assert!(interpreter.run_step());
    assert_eq!(interpreter.steps(), n(4));
    assert_eq!(interpreter.current_label(), "yes");
    let mut interpreter =
        run_one(test("1", TestKind::LessThanConst(s("X"), n(0)), "yes", "no"), 0);
    assert!(interpreter.run_step());
    assert_eq!(interpreter.steps(), n(1));
    assert_eq!(interpreter.current_label(), "no");
}

#[test]
fn steps_of_tests_between_registers() {
    let mut interpreter =
        run_one(test("1", TestKind::Equals(s("X"), s("Y"), s("T")), "yes", "no"), 5);
    assert!(interpreter.run_step());
    assert_eq!(interpreter.steps(), n(4));
    assert_eq!(interpreter.current_label(), "no");
    let mut interpreter =
        run_one(test("1", TestKind::LessThan(s("Y"), s("X"), s("T")), "yes", "no"), 5);
    assert!(interpreter.run_step());
    assert_eq!(interpreter.steps(), n(4));
    assert_eq!(interpreter.current_label(), "yes");
    let mut interpreter =
        run_one(test("1", TestKind::Equals(s("X"), s("X"), s("T")), "yes", "no"), 3);
    assert!(interpreter.run_step());
    assert_eq!(interpreter.steps(), n(31));
    assert_eq!(interpreter.current_label(), "yes");
}

#[test]
fn steps_of_builtins() {
    let mut interpreter = Interpreter::new(id_program());
    interpreter.input(n(1));
    assert!(interpreter.run_step());
    assert!(interpreter.run_step());
    assert!(interpreter.run_step());
    assert_eq!(interpreter.steps(), n(3));
    assert_eq!(interpreter.current_label(), "1");
}

#[test]
fn run_steps_reports_halting() {
    let mut interpreter = Interpreter::new(id_program());
    interpreter.input(n(1));
    assert!(!interpreter.run_steps(4));
    assert_eq!(interpreter.current_label(), "0");
    assert!(!interpreter.run_step());
    let mut interpreter = Interpreter::new(id_program());
    interpreter.input(n(1));
    assert!(!interpreter.run_steps(10));
    assert_eq!(interpreter.output(), n(1));
    assert!(!interpreter.run_steps(0));
    let mut interpreter = Interpreter::new(id_program());
    interpreter.input(n(1));
    assert!(interpreter.run_steps(3));
    assert_eq!(interpreter.current_label(), "1");
    assert!(interpreter.run_steps(0));
}

#[test]
fn halted_program_stays_halted() {
    let mut interpreter = Interpreter::new(id_program());
    interpreter.input(n(2));
    interpreter.run_all();
    let steps = interpreter.steps();
    assert!(!interpreter.run_step());
    assert!(!interpreter.run_steps(5));
    assert_eq!(interpreter.current_label(), "0");
    assert_eq!(interpreter.steps(), steps);
    assert_eq!(interpreter.output(), n(2));
}

#[test]
fn run_steps_compose() {
    let mut split = Interpreter::new(id_program());
    split.input(n(3));
    split.run_steps(2);
    split.run_steps(3);
    let mut whole = Interpreter::new(id_program());
    whole.input(n(3));
    whole.run_steps(5);
    assert_eq!(split.current_label(), whole.current_label());
    assert_eq!(split.steps(), whole.steps());
    assert_eq!(split.output(), whole.output());
    assert_eq!(split.machine().get_value("X"), whole.machine().get_value("X"));
}

#[test]
fn steps_never_decrease_and_registers_stay() {
    let mut interpreter = Interpreter::new(id_program());
    interpreter.input(n(4));
    let mut names = interpreter.machine().register_names();
    names.sort();
    let mut last = interpreter.steps();
    while interpreter.run_step() {
        let now = interpreter.steps();
        assert!(last.le(&now));
        last = now;
    }
    let mut after = interpreter.machine().register_names();
    after.sort();
    assert_eq!(names, after);
}

#[test]
fn reset_keeps_steps_and_clears_registers() {
    let mut interpreter = Interpreter::new(id_program());
    interpreter.input(n(2));
    interpreter.run_all();
    let steps = interpreter.steps();
    interpreter.reset();
    assert_eq!(interpreter.current_label(), "1");
    assert_eq!(interpreter.output(), n(0));
    assert_eq!(interpreter.machine().get_value("X"), n(0));
    assert_eq!(interpreter.steps(), steps);
}

#[test]
fn empty_program_starts_halted() {
    let mut interpreter = Interpreter::new(Program::empty());
    assert_eq!(interpreter.current_label(), "0");
    assert!(!interpreter.run_step());
    assert_eq!(norma::interpreter::run_once(n(5), Program::empty()), n(0));
}

#[test]
fn program_reads_as_text() {
    let mut program = Program::empty();
    program.insert(op("1", OperationKind::Inc(s("X")), "2"));
    program.insert(op("2", OperationKind::Load(s("A"), n(12)), "3"));
    program.insert(op("3", OperationKind::Sub(s("A"), s("B"), s("C")), "4"));
    program.insert(test("4", TestKind::Zero(s("X")), "0", "1"));
    program.insert(test("5", TestKind::LessThan(s("A"), s("B"), s("C")), "0", "1"));
    program.insert(test("6", TestKind::EqualsConst(s("A"), n(3)), "0", "1"));
    assert_eq!(
        program.to_text(),
        "1: do inc X goto 2\n2: do load (A, 12) goto 3\n3: do sub (A, B, C) goto 4\n\
         4: if zero X then goto 0 else goto 1\n5: if lessThan (A, B, C) then goto 0 else goto 1\n\
         6: if equals (A, 3) then goto 0 else goto 1\n"
    );
    let exported = program.export();
    assert_eq!(exported[0], (s("1"), s("do inc X goto 2")));
    assert_eq!(exported[3], (s("4"), s("if zero X then goto 0 else goto 1")));
    assert_eq!(program.len(), 6);
    assert!(!program.is_empty());
    assert_eq!(program.first_label(), "1");
    assert!(program.is_label_valid("5"));
    assert!(!program.is_label_valid("7"));
    assert_eq!(program.instruction("2").map(|i| i.label().to_string()), Some(s("2")));
    assert!(program.instruction("9").is_none());
    assert_eq!(
        program.collect_labels(),
        vec![s("2"), s("3"), s("4"), s("0"), s("1"), s("0"), s("1"), s("0"), s("1")]
    );
    assert_eq!(
        program.collect_registers(),
        vec![s("X"), s("A"), s("A"), s("B"), s("C"), s("X"), s("A"), s("B"), s("C"), s("A")]
    );
}

#[test]
fn run_steps_is_false_once_the_last_instruction_ran() {
    let mut interpreter = run_one(op("1", OperationKind::Inc(s("Y")), "0"), 0);
    assert!(!interpreter.run_steps(1));
    assert_eq!(interpreter.output(), n(1));
}

#[test]
fn scratch_register_counts_in_register_shortcuts() {
    let mut program = Program::empty();
    program.insert(op("1", OperationKind::Load(s("T"), n(2)), "2"));
    program.insert(op("2", OperationKind::Add(s("Y"), s("X"), s("T")), "0"));
    let mut interpreter = Interpreter::new(program);
    interpreter.input(n(5));
    interpreter.run_all();
    assert_eq!(interpreter.steps(), n(3 + 2 * 2 + 7 * 5 + 3));
    assert_eq!(interpreter.output(), n(5));
    let mut program = Program::empty();
    program.insert(op("1", OperationKind::Load(s("T"), n(3)), "2"));
    program.insert(test("2", TestKind::Equals(s("X"), s("Y"), s("T")), "0", "0"));
    let mut interpreter = Interpreter::new(program);
    interpreter.input(n(4));
    interpreter.run_all();
    assert_eq!(interpreter.steps(), n(4 + 2 * 3 + 9 * 0 + 4));
}
