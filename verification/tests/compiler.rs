use norma::compiler::compile;
use norma::interpreter::program::{
    Instruction, InstructionKind, Operation, OperationKind, Program, Test, TestKind,
};

#[test]
fn compile_one_pls_isz() {
    let source = source_code();
    let expected_program = runtime_program();
    let program = compile(source).unwrap();

    assert_eq!(expected_program, program);
}

fn source_code() -> &'static str {
    "operation clear (A) {
        check: if zero A then goto done else goto step
        step: do dec A goto check
    }

    test notZero (A, Temp) {
        1: do clear (Temp) goto 2
        2: if zero A then goto false else goto true
    }

    operation prepare (A, B, C) {
        check: if notZero (A, C) then goto set else goto done
        set: do clear (B) goto done
    }

    main {
        1: do inc Y goto 2
        2: do prepare (X, Y, A) goto 3
        3: do inc Y goto 0
    }"
}

fn runtime_program() -> Program {
    let mut program = Program::empty();

    program.insert(Instruction::new(
        String::from("1"),
        InstructionKind::Operation(Operation {
            kind: OperationKind::Inc(String::from("Y")),
            next: String::from("2.prepare.check.notZero.1.clear.check"),
        }),
    ));
    program.insert(Instruction::new(
        String::from("2.prepare.check.notZero.1.clear.check"),
        InstructionKind::Test(Test {
            kind: TestKind::Zero(String::from("A")),
            next_then: String::from("2.prepare.check.notZero.2"),
            next_else: String::from("2.prepare.check.notZero.1.clear.step"),
        }),
    ));
    program.insert(Instruction::new(
        String::from("2.prepare.check.notZero.1.clear.step"),
        InstructionKind::Operation(Operation {
            kind: OperationKind::Dec(String::from("A")),
            next: String::from("2.prepare.check.notZero.1.clear.check"),
        }),
    ));
    program.insert(Instruction::new(
        String::from("2.prepare.check.notZero.2"),
        InstructionKind::Test(Test {
            kind: TestKind::Zero(String::from("X")),
            next_then: String::from("3"),
            next_else: String::from("2.prepare.set.clear.check"),
        }),
    ));
    program.insert(Instruction::new(
        String::from("2.prepare.set.clear.check"),
        InstructionKind::Test(Test {
            kind: TestKind::Zero(String::from("Y")),
            next_then: String::from("3"),
            next_else: String::from("2.prepare.set.clear.step"),
        }),
    ));
    program.insert(Instruction::new(
        String::from("2.prepare.set.clear.step"),
        InstructionKind::Operation(Operation {
            kind: OperationKind::Dec(String::from("Y")),
            next: String::from("2.prepare.set.clear.check"),
        }),
    ));
    program.insert(Instruction::new(
        String::from("3"),
        InstructionKind::Operation(Operation {
            kind: OperationKind::Inc(String::from("Y")),
            next: String::from("0"),
        }),
    ));

    program
}

fn exported(source: &str) -> Vec<(String, String)> {
    compile(source).unwrap().export()
}

fn pairs(items: &[(&str, &str)]) -> Vec<(String, String)> {
    items.iter().map(|(a, b)| (a.to_string(), b.to_string())).collect()
}

#[test]
fn builtin_main_compiles_to_itself() {
    let source = "main {
        a: do inc X goto b
        b: if zero X then goto 0 else goto c
        c: do dec X goto b
    }";
    assert_eq!(
        exported(source),
        pairs(&[
            ("a", "do inc X goto b"),
            ("b", "if zero X then goto 0 else goto c"),
            ("c", "do dec X goto b"),
        ])
    );
}

#[test]
fn operation_call_is_relabelled_and_renamed() {
    let source = "operation clear (A) {
        1: if zero A then goto 0 else goto 2
        2: do dec A goto 1
    }
    main {
        x: do clear (R) goto y
        y: do inc R goto x
    }";
    assert_eq!(
        exported(source),
        pairs(&[
            ("x.clear.1", "if zero R then goto y else goto x.clear.2"),
            ("x.clear.2", "do dec R goto x.clear.1"),
            ("y", "do inc R goto x.clear.1"),
        ])
    );
}

#[test]
fn test_call_exits_to_then_and_else() {
    let source = "test isZero (A) {
        1: if zero A then goto true else goto false
    }
    main {
        1: if isZero (N) then goto 2 else goto 3
        2: do inc N goto 3
        3: do dec N goto 4
    }";
    assert_eq!(
        exported(source),
        pairs(&[
            ("1.isZero.1", "if zero N then goto 2 else goto 3"),
            ("2", "do inc N goto 3"),
            ("3", "do dec N goto 4"),
        ])
    );
}

#[test]
fn registers_not_among_parameters_are_kept() {
    let source = "operation move (A) {
        1: if zero A then goto 0 else goto 2
        2: do dec A goto 3
        3: do inc Acc goto 1
    }
    main {
        1: do move (X) goto 0
    }";
    assert_eq!(
        exported(source),
        pairs(&[
            ("1.move.1", "if zero X then goto 0 else goto 1.move.2"),
            ("1.move.2", "do dec X goto 1.move.3"),
            ("1.move.3", "do inc Acc goto 1.move.1"),
        ])
    );
}
