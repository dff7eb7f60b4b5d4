//! Running Norma programs on a machine, one instruction at a time.
//!
//! Besides running the program, the interpreter counts the steps that a
//! program made only of the built-in `inc`, `dec` and `zero` would take to do
//! the same: each shortcut instruction costs as many steps as the macro it
//! stands for.

pub mod program;

use crate::machine::{after_add, after_sub, all_cleared, input_register, monus, output_register, Machine};
use crate::natural::Natural;
use program::{
    all_registers,
    kind_registers,
    labels_distinct,
    lemma_instruction_registers,
    lookup,
    operation_registers,
    test_registers,
    Instruction,
    InstructionKind,
    Operation,
    OperationKind,
    Program,
    Test,
    TestKind,
};
use vstd::prelude::*;

verus! {

/// The registers after the operation `kind`.
pub open spec fn operation_effect(kind: OperationKind, regs: Map<Seq<char>, nat>) -> Map<
    Seq<char>,
    nat,
> {
    match kind {
        OperationKind::Inc(r) => regs.insert(r@, regs[r@] + 1),
        OperationKind::Dec(r) => regs.insert(r@, monus(regs[r@], 1)),
        OperationKind::Clear(r) => regs.insert(r@, 0),
        OperationKind::Load(r, n) => regs.insert(r@, n@),
        OperationKind::AddConst(r, n) => regs.insert(r@, regs[r@] + n@),
        OperationKind::Add(dest, src, tmp) => after_add(regs, dest@, src@, tmp@),
        OperationKind::SubConst(r, n) => regs.insert(r@, monus(regs[r@], n@)),
        OperationKind::Sub(dest, src, tmp) => after_sub(regs, dest@, src@, tmp@),
    }
}

/// The steps that the operation `kind` costs.
///
/// `clear` costs `2 * A + 1`, `load` a `clear` and then the constant, adding
/// or subtracting a constant costs the constant, and adding or subtracting a
/// register `Src` with the scratch register `Tmp` costs `2 * Tmp + 7 * Src +
/// 3`, with the values before the operation.
pub open spec fn operation_cost(kind: OperationKind, regs: Map<Seq<char>, nat>) -> nat {
    match kind {
        OperationKind::Inc(_) => 1,
        OperationKind::Dec(_) => 1,
        OperationKind::Clear(r) => 2 * regs[r@] + 1,
        OperationKind::Load(r, n) => 2 * regs[r@] + 1 + n@,
        OperationKind::AddConst(_, n) => n@,
        OperationKind::Add(_, src, tmp) => 2 * regs[tmp@] + 7 * regs[src@] + 3,
        OperationKind::SubConst(_, n) => n@,
        OperationKind::Sub(_, src, tmp) => 2 * regs[tmp@] + 7 * regs[src@] + 3,
    }
}

/// The registers after the test `kind`: the tests between two registers
/// clear their scratch register, the others change nothing.
pub open spec fn test_effect(kind: TestKind, regs: Map<Seq<char>, nat>) -> Map<Seq<char>, nat> {
    match kind {
        TestKind::Equals(_, _, tmp) => regs.insert(tmp@, 0),
        TestKind::LessThan(_, _, tmp) => regs.insert(tmp@, 0),
        _ => regs,
    }
}

/// Whether the test `kind` holds (the tests between two registers read them
/// after clearing the scratch register).
pub open spec fn test_outcome(kind: TestKind, regs: Map<Seq<char>, nat>) -> bool {
    let after = test_effect(kind, regs);
    match kind {
        TestKind::Zero(r) => regs[r@] == 0,
        TestKind::EqualsConst(r, n) => regs[r@] == n@,
        TestKind::Equals(left, right, _) => after[left@] == after[right@],
        TestKind::LessThanConst(r, n) => regs[r@] < n@,
        TestKind::LessThan(left, right, _) => after[left@] < after[right@],
    }
}

/// The smaller of two numbers.
pub open spec fn min_nat(a: nat, b: nat) -> nat {
    if a <= b {
        a
    } else {
        b
    }
}

/// The steps that the test `kind` costs.
///
/// `zero` costs one step, comparing with a constant `N` costs
/// `3 * min(A, N) + 1` (`3 * min(A, N - 1) + 1` for less-than), and comparing
/// two registers `L` and `R` with the scratch register `Tmp` costs
/// `2 * Tmp + 9 * min(L, R) + 4`, with `Tmp`'s value before the test.
pub open spec fn test_cost(kind: TestKind, regs: Map<Seq<char>, nat>) -> nat {
    let after = test_effect(kind, regs);
    match kind {
        TestKind::Zero(_) => 1,
        TestKind::EqualsConst(r, n) => 3 * min_nat(regs[r@], n@) + 1,
        TestKind::Equals(left, right, tmp) => 2 * regs[tmp@] + 9 * min_nat(
            after[left@],
            after[right@],
        ) + 4,
        TestKind::LessThanConst(r, n) => 3 * (if regs[r@] < n@ {
            regs[r@]
        } else {
            monus(n@, 1)
        }) + 1,
        TestKind::LessThan(left, right, tmp) => 2 * regs[tmp@] + 9 * min_nat(
            after[left@],
            after[right@],
        ) + 4,
    }
}

/// An interpreter's state: the label of the current instruction, the values
/// of the registers, and the steps counted so far.
pub type State = (Seq<char>, Map<Seq<char>, nat>, nat);

/// The state after running the instruction `kind` in `state`.
pub open spec fn execute(kind: InstructionKind, state: State) -> State {
    let (_, regs, steps) = state;
    match kind {
        InstructionKind::Operation(operation) => (
            operation.next@,
            operation_effect(operation.kind, regs),
            steps + operation_cost(operation.kind, regs),
        ),
        InstructionKind::Test(test) => (
            if test_outcome(test.kind, regs) {
                test.next_then@
            } else {
                test.next_else@
            },
            test_effect(test.kind, regs),
            steps + test_cost(test.kind, regs),
        ),
    }
}

/// The state after one step of `program` from `state`, or `None` where the
/// current label is not in the program (the program has halted).
pub open spec fn step(program: Seq<(String, Instruction)>, state: State) -> Option<State> {
    match lookup(program, state.0) {
        Some(instruction) => Some(execute(instruction.kind, state)),
        None => None,
    }
}

/// Runs at most `n` steps of `program` from `state`: the state reached, and
/// whether `n` steps were run without the program halting.
pub open spec fn run_up_to(program: Seq<(String, Instruction)>, state: State, n: nat) -> (
    State,
    bool,
)
    decreases n,
{
    if n == 0 {
        (state, true)
    } else {
        match step(program, state) {
            Some(next) => run_up_to(program, next, (n - 1) as nat),
            None => (state, false),
        }
    }
}

/// The registers that an interpreter for `program` starts with: the input,
/// the output and each register that the program uses, all holding zero.
pub open spec fn initial_registers(program: Seq<(String, Instruction)>) -> Map<Seq<char>, nat> {
    Map::new(
        |name: Seq<char>|
            name == input_register() || name == output_register() || all_registers(
                program,
            ).contains(name),
        |name: Seq<char>| 0nat,
    )
}

/// A halted program stays halted: from a state where no instruction has the
/// current label, running any number of steps changes nothing, and reports
/// that the program halted unless no step was asked for.
pub proof fn lemma_halted_stays_halted(program: Seq<(String, Instruction)>, state: State, n: nat)
    requires
        step(program, state).is_none(),
    ensures
        run_up_to(program, state, n) == (state, n == 0),
{
}

/// Running `a` steps and then `b` steps reaches the same state as running
/// `a + b` steps, whether or not the program halts on the way.
pub proof fn lemma_run_steps_compose(
    program: Seq<(String, Instruction)>,
    state: State,
    a: nat,
    b: nat,
)
    ensures
        run_up_to(program, run_up_to(program, state, a).0, b).0 == run_up_to(
            program,
            state,
            a + b,
        ).0,
    decreases a,
{
    if a == 0 {
    } else {
        match step(program, state) {
            Some(next) => {
                lemma_run_steps_compose(program, next, (a - 1) as nat, b);
                assert((a + b - 1) as nat == (a - 1) as nat + b);
            },
            None => {
                lemma_halted_stays_halted(program, state, b);
                lemma_halted_stays_halted(program, state, a + b);
            },
        }
    }
}

/// The steps counted never decrease while a program runs.
pub proof fn lemma_steps_never_decrease(program: Seq<(String, Instruction)>, state: State, n: nat)
    ensures
        run_up_to(program, state, n).0.2 >= state.2,
    decreases n,
{
    if n > 0 {
        match step(program, state) {
            Some(next) => {
                lemma_steps_never_decrease(program, next, (n - 1) as nat);
            },
            None => {},
        }
    }
}

/// Running a program never adds or removes a register: where every register
/// that the program uses exists, each step keeps the set of registers.
pub proof fn lemma_step_keeps_registers(program: Seq<(String, Instruction)>, state: State)
    requires
        labels_distinct(program),
        forall|name: Seq<char>|
            all_registers(program).contains(name) ==> state.1.dom().contains(name),
    ensures
        match step(program, state) {
            Some(next) => next.1.dom() == state.1.dom(),
            None => true,
        },
{
    if let Some(instruction) = lookup(program, state.0) {
        let i = choose|i: int| 0 <= i < program.len() && (#[trigger] program[i]).0@ == state.0;
        let regs = kind_registers(instruction.kind);
        assert forall|k: int| 0 <= k < regs.len() implies state.1.dom().contains(
            #[trigger] regs[k],
        ) by {
            lemma_instruction_registers(program, i, k);
        }
        match instruction.kind {
            InstructionKind::Operation(operation) => {
                assert(regs == operation_registers(operation.kind));
                match operation.kind {
                    OperationKind::Add(_, _, _) => {
                        assert(regs[0] == regs[0] && regs[2] == regs[2]);
                    },
                    OperationKind::Sub(_, _, _) => {
                        assert(regs[0] == regs[0] && regs[2] == regs[2]);
                    },
                    _ => {
                        assert(regs[0] == regs[0]);
                    },
                }
                assert(operation_effect(operation.kind, state.1).dom() =~= state.1.dom());
            },
            InstructionKind::Test(test) => {
                assert(regs == test_registers(test.kind));
                match test.kind {
                    TestKind::Equals(_, _, _) => {
                        assert(regs[2] == regs[2]);
                    },
                    TestKind::LessThan(_, _, _) => {
                        assert(regs[2] == regs[2]);
                    },
                    _ => {},
                }
                assert(test_effect(test.kind, state.1).dom() =~= state.1.dom());
            },
        }
    }
}

/// Whether the current instruction of `state` in `program` is the test `test`.
pub open spec fn current_test(program: Seq<(String, Instruction)>, state: State, test: Test) -> bool {
    &&& lookup(program, state.0) is Some
    &&& lookup(program, state.0)->0.kind == InstructionKind::Test(test)
}

/// Whether the current instruction of `state` in `program` is the operation
/// `operation`.
pub open spec fn current_operation(
    program: Seq<(String, Instruction)>,
    state: State,
    operation: Operation,
) -> bool {
    &&& lookup(program, state.0) is Some
    &&& lookup(program, state.0)->0.kind == InstructionKind::Operation(operation)
}

/// A `lessThan (L, R, T)` test clears `T`, then compares `L` and `R` (read
/// with `T` cleared): it goes on to its `then` label where `L` is strictly
/// less than `R`, and to its `else` label otherwise, equal values included.
/// It counts `2 * T + 9 * m + 4` steps, with `T` before the test and `m` the
/// smaller of `L` and `R`: no more than with either, and as many as with one
/// of them, whichever of the two is the smaller.
pub proof fn lemma_less_than_step(
    program: Seq<(String, Instruction)>,
    state: State,
    test: Test,
    left: String,
    right: String,
    tmp: String,
)
    requires
        current_test(program, state, test),
        test.kind == TestKind::LessThan(left, right, tmp),
    ensures
        step(program, state) is Some,
        ({
            let next = step(program, state)->0;
            let regs = state.1;
            let l = if left@ == tmp@ { 0nat } else { regs[left@] };
            let r = if right@ == tmp@ { 0nat } else { regs[right@] };
            let base = state.2 + 2 * regs[tmp@] + 4;
            &&& l < r ==> next.0 == test.next_then@
            &&& r <= l ==> next.0 == test.next_else@
            &&& next.1 == regs.insert(tmp@, 0)
            &&& next.2 <= base + 9 * l
            &&& next.2 <= base + 9 * r
            &&& (next.2 == base + 9 * l || next.2 == base + 9 * r)
        }),
{
}

/// An `equals (L, R, T)` test clears `T`, then compares `L` and `R` (read
/// with `T` cleared): it goes on to its `then` label exactly where they are
/// equal, and to its `else` label where either is the smaller. It counts
/// `2 * T + 9 * m + 4` steps, with `T` before the test and `m` the smaller
/// of `L` and `R`.
pub proof fn lemma_equals_step(
    program: Seq<(String, Instruction)>,
    state: State,
    test: Test,
    left: String,
    right: String,
    tmp: String,
)
    requires
        current_test(program, state, test),
        test.kind == TestKind::Equals(left, right, tmp),
    ensures
        step(program, state) is Some,
        ({
            let next = step(program, state)->0;
            let regs = state.1;
            let l = if left@ == tmp@ { 0nat } else { regs[left@] };
            let r = if right@ == tmp@ { 0nat } else { regs[right@] };
            let base = state.2 + 2 * regs[tmp@] + 4;
            &&& l == r ==> next.0 == test.next_then@
            &&& l < r ==> next.0 == test.next_else@
            &&& r < l ==> next.0 == test.next_else@
            &&& next.1 == regs.insert(tmp@, 0)
            &&& next.2 <= base + 9 * l
            &&& next.2 <= base + 9 * r
            &&& (next.2 == base + 9 * l || next.2 == base + 9 * r)
        }),
{
}

/// The cost of comparing two registers does not depend on their order: a
/// `lessThan` or `equals` test of `L` and `R` counts as many steps as one of
/// `R` and `L` with the same scratch register, and both kinds of test count
/// the same.
pub proof fn lemma_compare_cost_symmetric(
    regs: Map<Seq<char>, nat>,
    left: String,
    right: String,
    tmp: String,
)
    ensures
        test_cost(TestKind::LessThan(left, right, tmp), regs) == test_cost(
            TestKind::LessThan(right, left, tmp),
            regs,
        ),
        test_cost(TestKind::Equals(left, right, tmp), regs) == test_cost(
            TestKind::Equals(right, left, tmp),
            regs,
        ),
        test_cost(TestKind::Equals(left, right, tmp), regs) == test_cost(
            TestKind::LessThan(left, right, tmp),
            regs,
        ),
{
}

/// A `zero A` test changes no register, counts one step, and goes on to its
/// `then` label exactly where `A` holds zero.
pub proof fn lemma_zero_step(
    program: Seq<(String, Instruction)>,
    state: State,
    test: Test,
    register: String,
)
    requires
        current_test(program, state, test),
        test.kind == TestKind::Zero(register),
    ensures
        step(program, state) is Some,
        ({
            let next = step(program, state)->0;
            &&& state.1[register@] == 0 ==> next.0 == test.next_then@
            &&& state.1[register@] != 0 ==> next.0 == test.next_else@
            &&& next.1 == state.1
            &&& next.2 == state.2 + 1
        }),
{
}

/// An `equals (A, n)` test changes no register, goes on to its `then` label
/// exactly where `A` holds `n`, and counts `3 * m + 1` steps, `m` the
/// smaller of `A` and `n`.
pub proof fn lemma_equals_const_step(
    program: Seq<(String, Instruction)>,
    state: State,
    test: Test,
    register: String,
    constant: Natural,
)
    requires
        current_test(program, state, test),
        test.kind == TestKind::EqualsConst(register, constant),
    ensures
        step(program, state) is Some,
        ({
            let next = step(program, state)->0;
            let a = state.1[register@];
            &&& a == constant@ ==> next.0 == test.next_then@
            &&& a != constant@ ==> next.0 == test.next_else@
            &&& next.1 == state.1
            &&& next.2 <= state.2 + 3 * a + 1
            &&& next.2 <= state.2 + 3 * constant@ + 1
            &&& (next.2 == state.2 + 3 * a + 1 || next.2 == state.2 + 3 * constant@ + 1)
        }),
{
}

/// A `lessThan (A, n)` test changes no register, goes on to its `then` label
/// exactly where `A` is strictly less than `n`, and counts `3 * A + 1` steps
/// where it is, `3 * (n - 1) + 1` where it is not.
pub proof fn lemma_less_than_const_step(
    program: Seq<(String, Instruction)>,
    state: State,
    test: Test,
    register: String,
    constant: Natural,
)
    requires
        current_test(program, state, test),
        test.kind == TestKind::LessThanConst(register, constant),
        constant@ > 0,
    ensures
        step(program, state) is Some,
        ({
            let next = step(program, state)->0;
            let a = state.1[register@];
            &&& a < constant@ ==> next.0 == test.next_then@ && next.2 == state.2 + 3 * a + 1
            &&& constant@ <= a ==> next.0 == test.next_else@ && next.2 + 2 == state.2 + 3
                * constant@
            &&& next.1 == state.1
        }),
{
}

/// The operations on one register: `inc A` adds one, `dec A` takes one away
/// unless `A` is zero, `clear (A)` sets it to zero in `2 * A + 1` steps,
/// `load (A, n)` sets it to `n` in `2 * A + 1 + n` steps, and `add (A, n)`
/// and `sub (A, n)` add or take away (down to zero) `n` in `n` steps. Each
/// leaves every other register as it was and goes on to its next label.
pub proof fn lemma_single_register_step(
    program: Seq<(String, Instruction)>,
    state: State,
    operation: Operation,
)
    requires
        current_operation(program, state, operation),
    ensures
        step(program, state) is Some,
        ({
            let next = step(program, state)->0;
            let regs = state.1;
            next.0 == operation.next@ && match operation.kind {
                OperationKind::Inc(r) => next.1 == regs.insert(r@, regs[r@] + 1) && next.2
                    == state.2 + 1,
                OperationKind::Dec(r) => (regs[r@] == 0 ==> next.1 == regs.insert(r@, 0)) && (regs[r@] > 0
                    ==> next.1 == regs.insert(r@, (regs[r@] - 1) as nat)) && next.2 == state.2
                    + 1,
                OperationKind::Clear(r) => next.1 == regs.insert(r@, 0) && next.2 == state.2 + 2
                    * regs[r@] + 1,
                OperationKind::Load(r, n) => next.1 == regs.insert(r@, n@) && next.2 == state.2
                    + 2 * regs[r@] + 1 + n@,
                OperationKind::AddConst(r, n) => next.1 == regs.insert(r@, regs[r@] + n@)
                    && next.2 == state.2 + n@,
                OperationKind::SubConst(r, n) => (n@ <= regs[r@] ==> next.1 == regs.insert(
                    r@,
                    (regs[r@] - n@) as nat,
                )) && (regs[r@] < n@ ==> next.1 == regs.insert(r@, 0)) && next.2 == state.2
                    + n@,
                _ => true,
            }
        }),
{
}

/// `add (D, S, T)` adds `S` to `D`, and `sub (D, S, T)` takes `S` away from
/// `D` down to zero, both with `T` as scratch space: where the three
/// registers differ, `D` changes so, `S` keeps its value, `T` ends at zero
/// and every other register is left as it was, in `2 * T + 7 * S + 3`
/// steps.
pub proof fn lemma_two_register_step(
    program: Seq<(String, Instruction)>,
    state: State,
    operation: Operation,
    dest: String,
    src: String,
    tmp: String,
)
    requires
        current_operation(program, state, operation),
        operation.kind == OperationKind::Add(dest, src, tmp) || operation.kind
            == OperationKind::Sub(dest, src, tmp),
        dest@ != src@,
        dest@ != tmp@,
        src@ != tmp@,
    ensures
        step(program, state) is Some,
        ({
            let next = step(program, state)->0;
            let regs = state.1;
            &&& next.0 == operation.next@
            &&& next.1.dom() == regs.dom().insert(dest@).insert(tmp@)
            &&& operation.kind is Add ==> next.1[dest@] == regs[dest@] + regs[src@]
            &&& operation.kind is Sub && regs[src@] <= regs[dest@] ==> next.1[dest@] + regs[src@]
                == regs[dest@]
            &&& operation.kind is Sub && regs[dest@] < regs[src@] ==> next.1[dest@] == 0
            &&& next.1[src@] == regs[src@]
            &&& next.1[tmp@] == 0
            &&& forall|x: Seq<char>|
                x != dest@ && x != tmp@ && #[trigger] regs.dom().contains(x) ==> next.1[x]
                    == regs[x]
            &&& next.2 == state.2 + 2 * regs[tmp@] + 7 * regs[src@] + 3
        }),
{
    let next = step(program, state)->0;
    assert(next.1.dom() =~= state.1.dom().insert(dest@).insert(tmp@));
}

/// The label where a program with instructions `program` starts: that of
/// its first instruction, or `0` where it has none.
pub open spec fn first_label_of(program: Seq<(String, Instruction)>) -> Seq<char> {
    if program.len() > 0 {
        program[0].0@
    } else {
        seq!['0']
    }
}

/// What the program with instructions `program` outputs on `input`: the
/// value of `Y` once it halts (or once it has run 2<sup>64</sup> - 1 steps),
/// started at its first label with `X` holding the input and the other
/// registers zero.
pub open spec fn program_output(program: Seq<(String, Instruction)>, input: nat) -> nat {
    run_up_to(
        program,
        (first_label_of(program), initial_registers(program).insert(input_register(), input), 0),
        0xffff_ffff_ffff_ffff,
    ).0.1[output_register()]
}

/// Runs the program `program` on the input `input` until it halts, and
/// returns its output (the value of `Y`).
pub fn run_once(input: Natural, program: Program) -> (output: Natural)
    requires
        program.wf(),
    ensures
        output@ == program_output(program@, input@),
{
    let mut interpreter = Interpreter::new(program);
    interpreter.input(input);
    interpreter.run_all();
    interpreter.output()
}

/// A program, the machine it runs on, the label of the instruction to run
/// next, and the steps counted so far.
pub struct Interpreter {
    program: Program,
    current: String,
    machine: Machine,
    steps: Natural,
}

impl Interpreter {
    /// The interpreter's consistency: the program has no label twice and
    /// every register that it uses exists.
    pub closed spec fn wf(&self) -> bool {
        &&& self.program.wf()
        &&& self.machine.wf()
        &&& self.machine@.dom() == initial_registers(self.program@).dom()
    }

    /// The program being run.
    pub closed spec fn spec_program(&self) -> Program {
        self.program
    }

    /// The label of the instruction to run next, the registers, and the
    /// steps counted.
    pub closed spec fn state(&self) -> State {
        (self.current@, self.machine@, self.steps@)
    }

    /// An interpreter for `program`, about to run its first instruction, on
    /// a machine whose registers are the input, the output and those that
    /// the program uses, all holding zero.
    pub fn new(program: Program) -> (interpreter: Interpreter)
        requires
            program.wf(),
        ensures
            interpreter.wf(),
            interpreter.spec_program() == program,
            interpreter.state() == (program.spec_first_label(), initial_registers(program@), 0nat),
    {
        let mut machine = Machine::default();
        let names = program.collect_registers();
        let mut i: usize = 0;
        while i < names.len()
            invariant
                machine.wf(),
                i <= names@.len(),
                names@.map_values(|name: String| name@) == all_registers(program@),
                machine@ == all_cleared(machine@),
                machine@.dom().contains(input_register()),
                machine@.dom().contains(output_register()),
                forall|j: int| 0 <= j < i ==> machine@.dom().contains(#[trigger] names@[j]@),
                forall|name: Seq<char>|
                    #![trigger machine@.dom().contains(name)]
                    machine@.dom().contains(name) ==> name == input_register()
                        || name == output_register() || exists|j: int|
                        0 <= j < names@.len() && (#[trigger] names@[j])@ == name,
            decreases names@.len() - i,
        {
            machine.create(names[i].as_str());
            proof {
                assert(machine@ =~= all_cleared(machine@));
            }
            i = i + 1;
        }
        let current = String::from_str(program.first_label());
        let ghost regs = machine@;
        proof {
            let all = all_registers(program@);
            assert(names@.len() == all.len());
            assert forall|name: Seq<char>| all.contains(name) implies regs.dom().contains(name) by {
                let j = choose|j: int| 0 <= j < all.len() && all[j] == name;
                assert(names@.map_values(|name: String| name@)[j] == names@[j]@);
            }
            assert forall|name: Seq<char>|
                #![trigger regs.dom().contains(name)]
                regs.dom().contains(name) implies name == input_register() || name
                    == output_register() || all.contains(name) by {
                if name != input_register() && name != output_register() {
                    let j = choose|j: int| 0 <= j < names@.len() && (#[trigger] names@[j])@ == name;
                    assert(names@.map_values(|name: String| name@)[j] == names@[j]@);
                }
            }
            assert(regs =~= initial_registers(program@));
        }
        Interpreter { program, current, machine, steps: Natural::zero() }
    }

    /// Sets the input register to `data`.
    pub fn input(&mut self, data: Natural)
        requires
            old(self).wf(),
        ensures
            final(self).wf(),
            final(self).spec_program() == old(self).spec_program(),
            final(self).state() == (
                old(self).state().0,
                old(self).state().1.insert(input_register(), data@),
                old(self).state().2,
            ),
    {
        proof {
            self.machine.lemma_io_registers();
        }
        self.machine.input(data);
        proof {
            assert(self.machine@.dom() =~= initial_registers(self.program@).dom());
        }
    }

    /// The value of the output register.
    pub fn output(&self) -> (result: Natural)
        requires
            self.wf(),
        ensures
            result@ == self.state().1[output_register()],
    {
        self.machine.output()
    }

    /// Sets every register to zero and goes back to the first instruction.
    /// The steps counted are kept.
    pub fn reset(&mut self)
        requires
            old(self).wf(),
        ensures
            final(self).wf(),
            final(self).spec_program() == old(self).spec_program(),
            final(self).state() == (
                old(self).spec_program().spec_first_label(),
                all_cleared(old(self).state().1),
                old(self).state().2,
            ),
    {
        self.machine.clear_all();
        self.current = String::from_str(self.program.first_label());
        proof {
            assert(self.machine@.dom() =~= initial_registers(self.program@).dom());
        }
    }

    /// The label of the instruction to run next.
    pub fn current_label(&self) -> (result: &str)
        ensures
            result@ == self.state().0,
    {
        self.current.as_str()
    }

    /// The program being run.
    pub fn program(&self) -> (result: &Program)
        ensures
            *result == self.spec_program(),
    {
        &self.program
    }

    /// The machine the program runs on.
    pub fn machine(&self) -> (result: &Machine)
        requires
            self.wf(),
        ensures
            result.wf(),
            result@ == self.state().1,
    {
        &self.machine
    }

    /// The steps counted so far.
    pub fn steps(&self) -> (result: Natural)
        ensures
            result@ == self.state().2,
    {
        self.steps.clone()
    }

    /// Runs the current instruction, if the current label is in the program,
    /// and moves to the label that the instruction names. Returns whether an
    /// instruction was run; where none was, nothing changes.
    pub fn run_step(&mut self) -> (ran: bool)
        requires
            old(self).wf(),
        ensures
            final(self).wf(),
            final(self).spec_program() == old(self).spec_program(),
            ran == step(old(self).spec_program()@, old(self).state()).is_some(),
            final(self).state() == (match step(old(self).spec_program()@, old(self).state()) {
                Some(next) => next,
                None => old(self).state(),
            }),
    {
        let found = self.program.instruction(self.current.as_str());
        match found {
            None => false,
            Some(instruction) => {
                proof {
                    let e = self.program@;
                    let i = choose|i: int|
                        0 <= i < e.len() && (#[trigger] e[i]).0@ == self.current@;
                    assert forall|k: int|
                        0 <= k < kind_registers(instruction.kind).len() implies self.machine@.dom().contains(
                        #[trigger] kind_registers(instruction.kind)[k],
                    ) by {
                        lemma_instruction_registers(e, i, k);
                    }
                }
                let next = match &instruction.kind {
                    InstructionKind::Operation(operation) => {
                        assert(kind_registers(instruction.kind) == operation_registers(operation.kind));
                        run_operation(&mut self.machine, &mut self.steps, &operation.kind);
                        operation.next.clone()
                    },
                    InstructionKind::Test(test) => {
                        assert(kind_registers(instruction.kind) == test_registers(test.kind));
                        let outcome = run_test(&mut self.machine, &mut self.steps, &test.kind);
                        if outcome {
                            test.next_then.clone()
                        } else {
                            test.next_else.clone()
                        }
                    },
                };
                self.current = next;
                true
            },
        }
    }

    /// Runs at most `max_steps` instructions, stopping early where the
    /// program halts. Returns whether instructions remain to run: `true`
    /// where the current label is then in the program.
    pub fn run_steps(&mut self, max_steps: u64) -> (running: bool)
        requires
            old(self).wf(),
        ensures
            final(self).wf(),
            final(self).spec_program() == old(self).spec_program(),
            final(self).state() == run_up_to(
                old(self).spec_program()@,
                old(self).state(),
                max_steps as nat,
            ).0,
            running == step(old(self).spec_program()@, final(self).state()) is Some,
    {
        let ghost start = self.state();
        let mut done: u64 = 0;
        while done < max_steps
            invariant
                self.wf(),
                self.spec_program() == old(self).spec_program(),
                done <= max_steps,
                start == old(self).state(),
                run_up_to(self.spec_program()@, start, max_steps as nat) == run_up_to(
                    self.spec_program()@,
                    self.state(),
                    (max_steps - done) as nat,
                ),
            decreases max_steps - done,
        {
            let ghost before = self.state();
            if !self.run_step() {
                proof {
                    assert(step(self.spec_program()@, before).is_none());
                    assert(run_up_to(self.spec_program()@, before, (max_steps - done) as nat) == (
                        before,
                        false,
                    ));
                    assert(self.state() == before);
                    assert(run_up_to(self.spec_program()@, start, max_steps as nat) == (
                        self.state(),
                        false,
                    ));
                }
                return false;
            }
            done = done + 1;
        }
        let remains = self.program.instruction(self.current.as_str()).is_some();
        proof {
            assert(run_up_to(self.spec_program()@, self.state(), 0) == (self.state(), true));
        }
        remains
    }

    /// Runs instructions until the program halts (for at most
    /// 2<sup>64</sup> - 1 of them).
    pub fn run_all(&mut self)
        requires
            old(self).wf(),
        ensures
            final(self).wf(),
            final(self).spec_program() == old(self).spec_program(),
            final(self).state() == run_up_to(
                old(self).spec_program()@,
                old(self).state(),
                0xffff_ffff_ffff_ffff,
            ).0,
    {
        self.run_steps(0xffff_ffff_ffff_ffff);
    }
}

/// Applies the operation `kind` to the machine and counts its steps.
fn run_operation(machine: &mut Machine, steps: &mut Natural, kind: &OperationKind)
    requires
        old(machine).wf(),
        forall|k: int|
            0 <= k < operation_registers(*kind).len() ==> old(machine)@.dom().contains(
                #[trigger] operation_registers(*kind)[k],
            ),
    ensures
        final(machine).wf(),
        final(machine)@ == operation_effect(*kind, old(machine)@),
        final(steps)@ == old(steps)@ + operation_cost(*kind, old(machine)@),
        final(machine)@.dom() == old(machine)@.dom(),
{
    let ghost regs = machine@;
    let cost = match kind {
        OperationKind::Inc(r) => {
            assert(operation_registers(*kind)[0] == r@);
            machine.inc(r.as_str());
            Natural::one()
        },
        OperationKind::Dec(r) => {
            assert(operation_registers(*kind)[0] == r@);
            machine.dec(r.as_str());
            Natural::one()
        },
        OperationKind::Clear(r) => {
            assert(operation_registers(*kind)[0] == r@);
            let cost = machine.get_value(r.as_str()).mul_small(2).succ();
            machine.clear(r.as_str());
            cost
        },
        OperationKind::Load(r, n) => {
            assert(operation_registers(*kind)[0] == r@);
            let cost = machine.get_value(r.as_str()).mul_small(2).succ().add(n);
            machine.insert_with_value(r.as_str(), n.clone());
            cost
        },
        OperationKind::AddConst(r, n) => {
            assert(operation_registers(*kind)[0] == r@);
            machine.add_const(r.as_str(), n);
            n.clone()
        },
        OperationKind::Add(dest, src, tmp) => {
            let ghost regs_of = operation_registers(*kind);
            assert(regs_of[0] == dest@ && regs_of[1] == src@ && regs_of[2] == tmp@);
            let cost = machine.get_value(tmp.as_str()).mul_small(2).add(
                &machine.get_value(src.as_str()).mul_small(7),
            ).add(&Natural::from_u64(3));
            machine.add(dest.as_str(), src.as_str(), tmp.as_str());
            cost
        },
        OperationKind::SubConst(r, n) => {
            assert(operation_registers(*kind)[0] == r@);
            machine.sub_const(r.as_str(), n);
            n.clone()
        },
        OperationKind::Sub(dest, src, tmp) => {
            let ghost regs_of = operation_registers(*kind);
            assert(regs_of[0] == dest@ && regs_of[1] == src@ && regs_of[2] == tmp@);
            let cost = machine.get_value(tmp.as_str()).mul_small(2).add(
                &machine.get_value(src.as_str()).mul_small(7),
            ).add(&Natural::from_u64(3));
            machine.sub(dest.as_str(), src.as_str(), tmp.as_str());
            cost
        },
    };
    *steps = steps.add(&cost);
    proof {
        assert(machine@.dom() =~= regs.dom());
    }
}

/// Runs the test `kind` on the machine, counts its steps, and returns
/// whether it holds.
fn run_test(machine: &mut Machine, steps: &mut Natural, kind: &TestKind) -> (outcome: bool)
    requires
        old(machine).wf(),
        forall|k: int|
            0 <= k < test_registers(*kind).len() ==> old(machine)@.dom().contains(
                #[trigger] test_registers(*kind)[k],
            ),
    ensures
        final(machine).wf(),
        final(machine)@ == test_effect(*kind, old(machine)@),
        final(steps)@ == old(steps)@ + test_cost(*kind, old(machine)@),
        final(machine)@.dom() == old(machine)@.dom(),
        outcome == test_outcome(*kind, old(machine)@),
{
    let ghost regs = machine@;
    let ghost regs_of = test_registers(*kind);
    let (outcome, cost) = match kind {
        TestKind::Zero(r) => {
            assert(regs_of[0] == r@);
            (machine.is_zero(r.as_str()), Natural::one())
        },
        TestKind::EqualsConst(r, n) => {
            assert(regs_of[0] == r@);
            let value = machine.get_value(r.as_str());
            let smaller = if value.le(n) {
                value.clone()
            } else {
                n.clone()
            };
            (value.equals(n), smaller.mul_small(3).succ())
        },
        TestKind::Equals(left, right, tmp) => {
            assert(regs_of[0] == left@ && regs_of[1] == right@ && regs_of[2] == tmp@);
            let tmp_cost = machine.get_value(tmp.as_str()).mul_small(2);
            machine.clear(tmp.as_str());
            let left_value = machine.get_value(left.as_str());
            let right_value = machine.get_value(right.as_str());
            let smaller = if left_value.le(&right_value) {
                left_value.clone()
            } else {
                right_value.clone()
            };
            (
                left_value.equals(&right_value),
                smaller.mul_small(9).add(&tmp_cost).add(&Natural::from_u64(4)),
            )
        },
        TestKind::LessThanConst(r, n) => {
            assert(regs_of[0] == r@);
            let value = machine.get_value(r.as_str());
            let below = value.lt(n);
            let counted = if below {
                value.clone()
            } else {
                n.pred()
            };
            (below, counted.mul_small(3).succ())
        },
        TestKind::LessThan(left, right, tmp) => {
            assert(regs_of[0] == left@ && regs_of[1] == right@ && regs_of[2] == tmp@);
            let tmp_cost = machine.get_value(tmp.as_str()).mul_small(2);
            machine.clear(tmp.as_str());
            let left_value = machine.get_value(left.as_str());
            let right_value = machine.get_value(right.as_str());
            let smaller = if left_value.le(&right_value) {
                left_value.clone()
            } else {
                right_value.clone()
            };
            (
                left_value.lt(&right_value),
                smaller.mul_small(9).add(&tmp_cost).add(&Natural::from_u64(4)),
            )
        },
    };
    *steps = steps.add(&cost);
    proof {
        assert(machine@.dom() =~= regs.dom());
    }
    outcome
}


} // verus!
