use norma::interpreter::program::{
    Instruction, InstructionKind, Operation, OperationKind, Program, Test, TestKind,
};
use norma::interpreter::Interpreter;
use norma::machine::Machine;
use norma::natural::Natural;

#[test]
fn collect_registers() {
    let mut program = Program::empty();

    program.insert(Instruction::new(
        String::from("1"),
        InstructionKind::Test(Test {
            kind: TestKind::Zero(String::from("X")),
            next_then: String::from("0"),
            next_else: String::from("2"),
        }),
    ));
    program.insert(Instruction::new(
        String::from("2"),
        InstructionKind::Operation(Operation {
            kind: OperationKind::Dec(String::from("A")),
            next: String::from("3"),
        }),
    ));
    program.insert(Instruction::new(
        String::from("3"),
        InstructionKind::Operation(Operation {
            kind: OperationKind::Dec(String::from("B")),
            next: String::from("4"),
        }),
    ));
    program.insert(Instruction::new(
        String::from("4"),
        InstructionKind::Operation(Operation {
            kind: OperationKind::Dec(String::from("C")),
            next: String::from("5"),
        }),
    ));
    program.insert(Instruction::new(
        String::from("5"),
        InstructionKind::Operation(Operation {
            kind: OperationKind::Inc(String::from("assim")),
            next: String::from("0"),
        }),
    ));

    let mut machine = Machine::new(Natural::one());
    for reg_name in program.collect_registers() {
        machine.create(&reg_name);
    }

    assert_eq!(machine.get_value("X"), Natural::one());
    assert_eq!(machine.get_value("Y"), Natural::zero());
    assert_eq!(machine.get_value("A"), Natural::zero());
    assert_eq!(machine.get_value("B"), Natural::zero());
    assert_eq!(machine.get_value("C"), Natural::zero());
    assert_eq!(machine.get_value("assim"), Natural::zero());

    let mut names = machine.register_names();
    names.sort();
    assert_eq!(names, &["A", "B", "C", "X", "Y", "assim"]);
}

#[test]
fn test_id_program() {
    // Y = X
    let mut program = Program::empty();

    program.insert(Instruction::new(
        String::from("1"),
        InstructionKind::Test(Test {
            kind: TestKind::Zero(String::from("X")),
            next_then: String::from("0"),
            next_else: String::from("2"),
        }),
    ));
    program.insert(Instruction::new(
        String::from("2"),
        InstructionKind::Operation(Operation {
            kind: OperationKind::Dec(String::from("X")),
            next: String::from("3"),
        }),
    ));
    program.insert(Instruction::new(
        String::from("3"),
        InstructionKind::Operation(Operation {
            kind: OperationKind::Inc(String::from("Y")),
            next: String::from("1"),
        }),
    ));

    let mut interpreter = Interpreter::new(program);

    interpreter.input(Natural::zero());
    interpreter.run_all();
    assert_eq!(interpreter.output(), Natural::zero());

    interpreter.reset();
    interpreter.input(Natural::one());
    interpreter.run_all();
    assert_eq!(interpreter.output(), Natural::one());

    interpreter.reset();
    interpreter.input(Natural::from_u64(7));
    interpreter.run_all();
    assert_eq!(interpreter.output(), Natural::from_u64(7));
}

#[test]
fn program_2x_plus_3() {
    // Y = 2*X + 3
    let mut program = Program::empty();

    program.insert(Instruction::new(
        String::from("1"),
        InstructionKind::Test(Test {
            kind: TestKind::Zero(String::from("X")),
            next_then: String::from("5"),
            next_else: String::from("2"),
        }),
    ));
    program.insert(Instruction::new(
        String::from("2"),
        InstructionKind::Operation(Operation {
            kind: OperationKind::Dec(String::from("X")),
            next: String::from("3"),
        }),
    ));
    program.insert(Instruction::new(
        String::from("3"),
        InstructionKind::Operation(Operation {
            kind: OperationKind::Inc(String::from("Y")),
            next: String::from("4"),
        }),
    ));
    program.insert(Instruction::new(
        String::from("4"),
        InstructionKind::Operation(Operation {
            kind: OperationKind::Inc(String::from("Y")),
            next: String::from("1"),
        }),
    ));
    program.insert(Instruction::new(
        String::from("5"),
        InstructionKind::Operation(Operation {
            kind: OperationKind::Inc(String::from("Y")),
            next: String::from("6"),
        }),
    ));
    program.insert(Instruction::new(
        String::from("6"),
        InstructionKind::Operation(Operation {
            kind: OperationKind::Inc(String::from("Y")),
            next: String::from("7"),
        }),
    ));
    program.insert(Instruction::new(
        String::from("7"),
        InstructionKind::Operation(Operation {
            kind: OperationKind::Inc(String::from("Y")),
            next: String::from("0"),
        }),
    ));

    let mut interpreter = Interpreter::new(program);

    interpreter.input(Natural::zero());
    interpreter.run_all();
    assert_eq!(interpreter.output(), Natural::from_u64(3));

    interpreter.reset();
    interpreter.input(Natural::one());
    interpreter.run_all();
    assert_eq!(interpreter.output(), Natural::from_u64(5));

    interpreter.reset();
    interpreter.input(Natural::from_u64(7));
    interpreter.run_all();
    assert_eq!(interpreter.output(), Natural::from_u64(17));
}

#[test]
fn x_is_odd() {
    // Y = X % 2
    let mut program = Program::empty();

    program.insert(Instruction::new(
        String::from("1"),
        InstructionKind::Test(Test {
            kind: TestKind::Zero(String::from("X")),
            next_then: String::from("0"),
            next_else: String::from("2"),
        }),
    ));
    program.insert(Instruction::new(
        String::from("2"),
        InstructionKind::Operation(Operation {
            kind: OperationKind::Dec(String::from("X")),
            next: String::from("3"),
        }),
    ));
    program.insert(Instruction::new(
        String::from("3"),
        InstructionKind::Test(Test {
            kind: TestKind::Zero(String::from("X")),
            next_then: String::from("5"),
            next_else: String::from("4"),
        }),
    ));
    program.insert(Instruction::new(
        String::from("4"),
        InstructionKind::Operation(Operation {
            kind: OperationKind::Dec(String::from("X")),
            next: String::from("1"),
        }),
    ));
    program.insert(Instruction::new(
        String::from("5"),
        InstructionKind::Operation(Operation {
            kind: OperationKind::Inc(String::from("Y")),
            next: String::from("0"),
        }),
    ));

    let mut interpreter = Interpreter::new(program);

    interpreter.input(Natural::zero());
    interpreter.run_all();
    assert_eq!(interpreter.output(), Natural::zero());

    interpreter.reset();
    interpreter.input(Natural::one());
    interpreter.run_all();
    assert_eq!(interpreter.output(), Natural::one());

    interpreter.reset();
    interpreter.input(Natural::from_u64(7));
    interpreter.run_all();
    assert_eq!(interpreter.output(), Natural::one());

    interpreter.reset();
    interpreter.input(Natural::from_u64(20));
    interpreter.run_all();
    assert_eq!(interpreter.output(), Natural::zero());
}

#[test]
fn x_square() {
    // Y = X ** 2
    //
    // add (A, X, B)
    // enquanto X > 0 {
    //      add (Y, A, B)
    //      dec X
    // }
    let mut program = Program::empty();

    program.insert(Instruction::new(
        String::from("1"),
        InstructionKind::Operation(Operation {
            kind: OperationKind::Add(
                String::from("A"),
                String::from("X"),
                String::from("B"),
            ),
            next: String::from("2"),
        }),
    ));

    program.insert(Instruction::new(
        String::from("2"),
        InstructionKind::Test(Test {
            kind: TestKind::Zero(String::from("X")),
            next_then: String::from("0"),
            next_else: String::from("3"),
        }),
    ));

    program.insert(Instruction::new(
        String::from("3"),
        InstructionKind::Operation(Operation {
            kind: OperationKind::Add(
                String::from("Y"),
                String::from("A"),
                String::from("B"),
            ),
            next: String::from("4"),
        }),
    ));

    program.insert(Instruction::new(
        String::from("4"),
        InstructionKind::Operation(Operation {
            kind: OperationKind::Dec(String::from("X")),
            next: String::from("2"),
        }),
    ));

    let mut interpreter = Interpreter::new(program);

    interpreter.input(Natural::zero());
    interpreter.run_all();
    assert_eq!(interpreter.output(), Natural::zero());

    interpreter.reset();
    interpreter.input(Natural::one());
    interpreter.run_all();
    assert_eq!(interpreter.output(), Natural::one());

    interpreter.reset();
    interpreter.input(Natural::from_u64(7));
    interpreter.run_all();
    assert_eq!(interpreter.output(), Natural::from_u64(49));

    interpreter.reset();
    interpreter.input(Natural::from_u64(20));
    interpreter.run_all();
    assert_eq!(interpreter.output(), Natural::from_u64(400));
}

#[test]
fn map_registers_renames_every_register() {
    let rename = |name: &str| format!("{}.{}", name, name.len());
    let add = OperationKind::Add(String::from("A"), String::from("BB"), String::from("C"));
    assert_eq!(
        add.map_registers(rename),
        OperationKind::Add(String::from("A.1"), String::from("BB.2"), String::from("C.1"))
    );
    let load = OperationKind::Load(String::from("X"), Natural::from_u64(7));
    assert_eq!(
        load.map_registers(rename),
        OperationKind::Load(String::from("X.1"), Natural::from_u64(7))
    );
    let less = TestKind::LessThan(String::from("A"), String::from("B"), String::from("T"));
    assert_eq!(
        less.map_registers(|name: &str| name.to_lowercase()),
        TestKind::LessThan(String::from("a"), String::from("b"), String::from("t"))
    );
    let zero = TestKind::Zero(String::from("Y"));
    assert_eq!(zero.map_registers(|_: &str| String::from("Z")), TestKind::Zero(String::from("Z")));
}

#[test]
fn rename_labels_renames_every_jump() {
    let renamer = |label: &str| format!("m.{}", label);
    let mut operation = Operation {
        kind: OperationKind::Inc(String::from("X")),
        next: String::from("2"),
    };
    operation.rename_labels(renamer);
    assert_eq!(operation.next, "m.2");
    assert_eq!(operation.kind, OperationKind::Inc(String::from("X")));
    let mut kind = InstructionKind::Test(Test {
        kind: TestKind::Zero(String::from("Y")),
        next_then: String::from("1"),
        next_else: String::from("0"),
    });
    kind.rename_labels(renamer);
    assert_eq!(
        kind,
        InstructionKind::Test(Test {
            kind: TestKind::Zero(String::from("Y")),
            next_then: String::from("m.1"),
            next_else: String::from("m.0"),
        })
    );
}

#[test]
fn replace_puts_an_instruction_in_place() {
    let mut program = Program::empty();
    let first = Instruction::new(
        String::from("1"),
        InstructionKind::Operation(Operation { kind: OperationKind::Inc(String::from("Y")), next: String::from("2") }),
    );
    let second = Instruction::new(
        String::from("2"),
        InstructionKind::Operation(Operation { kind: OperationKind::Dec(String::from("Y")), next: String::from("0") }),
    );
    program.insert(first.clone());
    program.insert(second.clone());
    let other = Instruction::new(
        String::from("1"),
        InstructionKind::Operation(Operation { kind: OperationKind::Inc(String::from("X")), next: String::from("0") }),
    );
    assert_eq!(program.replace(other.clone()), Some(first));
    assert_eq!(program.instruction("1"), Some(&other));
    assert_eq!(program.first_label(), "1");
    assert_eq!(program.len(), 2);
    let missing = Instruction::new(
        String::from("9"),
        InstructionKind::Operation(Operation { kind: OperationKind::Inc(String::from("X")), next: String::from("0") }),
    );
    assert_eq!(program.replace(missing), None);
    assert_eq!(program.len(), 2);
    assert_eq!(program.instruction("2"), Some(&second));
}
