//! The errors that expanding a syntax tree raises, as plain values: those
//! of each call, of each instruction, of each body, and of the whole tree.

use crate::compiler::error::{Error, ErrorCause};
use crate::compiler::expansor::compiled::{
    argument_count_errors,
    argument_type_errors,
    calls,
    chain_ok,
    names_view,
    compiled_distinct,
    compiled_extends,
    compiled_in_order,
    declared,
    first_compiled,
    is_definition_in,
    jump_errors,
    lemma_definition_named,
    lemma_first_compiled_found,
    param_pairs,
    CompiledView,
};
use crate::compiler::expansor::error::{IncompatibleMacroType, UndefinedMacro};
use crate::compiler::expansor::label::label_errors;
use crate::compiler::parser::ast::{self, macro_entries};
use crate::compiler::parser::extends;
use vstd::prelude::*;

verus! {

/// The definition that `ast` declares under the name `name`.
pub open spec fn definition_named(ast: ast::Program, name: Seq<char>) -> ast::Macro {
    let entries = macro_entries(ast.macros);
    entries[choose|i: int| 0 <= i < entries.len() && (#[trigger] entries[i]).0@ == name].1
}

/// The errors of a call of the macro `name` with `arguments`, made by an
/// instruction that calls macros of kind `kind`: that no such macro is
/// declared; or that it is of the other kind; or that the number of
/// arguments is not that of its parameters, followed by one error for each
/// number among the arguments matched with a parameter.
pub open spec fn call_errors(
    ast: ast::Program,
    name: ast::Symbol,
    arguments: Seq<ast::MacroArgument>,
    kind: ast::MacroType,
) -> Seq<Error> {
    if declared(ast, name.content@) {
        let definition = definition_named(ast, name.content@);
        if definition.macro_type != kind {
            seq![
                Error {
                    cause: ErrorCause::IncompatibleMacroType(
                        IncompatibleMacroType {
                            macro_name: name.content,
                            expected_type: kind,
                            found_type: definition.macro_type,
                        },
                    ),
                    span: Some(name.span),
                },
            ]
        } else {
            argument_count_errors(name, definition.parameters@.len(), arguments.len())
                + argument_type_errors(
                name,
                arguments,
                param_pairs(definition.parameters@, arguments).len(),
            )
        }
    } else {
        seq![
            Error {
                cause: ErrorCause::UndefinedMacro(UndefinedMacro { macro_name: name.content }),
                span: Some(name.span),
            },
        ]
    }
}

/// The errors of the instruction `instruction` of a body of kind `kind`
/// (`None` for `main`) whose instructions are `body`: those of its jumps,
/// then those of its macro call, if it makes one.
pub open spec fn instruction_errors(
    ast: ast::Program,
    kind: Option<ast::MacroType>,
    instruction: ast::Instruction,
    body: Seq<(String, ast::Instruction)>,
) -> Seq<Error> {
    jump_errors(kind, instruction, body) + match instruction.instruction_type {
        ast::InstructionType::Operation(operation) => match operation.oper_type {
            ast::OperationType::Macro(name, arguments) => call_errors(
                ast,
                name,
                arguments@,
                ast::MacroType::Operation,
            ),
            ast::OperationType::BuiltIn(..) => Seq::empty(),
        },
        ast::InstructionType::Test(test) => match test.test_type {
            ast::TestType::Macro(name, arguments) => call_errors(
                ast,
                name,
                arguments@,
                ast::MacroType::Test,
            ),
            ast::TestType::BuiltIn(..) => Seq::empty(),
        },
    }
}

/// The errors of the first `n` instructions of the body `body`, of kind
/// `kind`, in order.
pub open spec fn instructions_errors(
    ast: ast::Program,
    kind: Option<ast::MacroType>,
    body: Seq<(String, ast::Instruction)>,
    n: int,
) -> Seq<Error>
    decreases n,
{
    if n <= 0 {
        Seq::empty()
    } else {
        instructions_errors(ast, kind, body, n - 1) + instruction_errors(
            ast,
            kind,
            body[n - 1].1,
            body,
        )
    }
}

/// The errors of the body `body`, of kind `kind`, in order.
pub open spec fn body_errors(
    ast: ast::Program,
    kind: Option<ast::MacroType>,
    body: Seq<(String, ast::Instruction)>,
) -> Seq<Error> {
    instructions_errors(ast, kind, body, body.len() as int)
}

/// The errors of the bodies of the compiled macros of `after` that are not
/// in `before`, in the order they were compiled.
pub open spec fn new_bodies_errors(
    ast: ast::Program,
    before: Seq<CompiledView>,
    after: Seq<CompiledView>,
) -> Seq<Error>
    decreases after.len(),
{
    if after.len() <= before.len() {
        Seq::empty()
    } else {
        new_bodies_errors(ast, before, after.drop_last()) + body_errors(
            ast,
            Some(after.last().0.macro_type),
            ast::code_entries(after.last().0.instr),
        )
    }
}

/// The errors of the body of the macro `definition`.
pub open spec fn definition_errors(ast: ast::Program, definition: ast::Macro) -> Seq<Error> {
    body_errors(ast, Some(definition.macro_type), ast::code_entries(definition.instr))
}

/// The errors of the bodies of `definitions`, in order.
pub open spec fn definitions_errors(ast: ast::Program, definitions: Seq<ast::Macro>) -> Seq<Error>
    decreases definitions.len(),
{
    if definitions.len() == 0 {
        Seq::empty()
    } else {
        definitions_errors(ast, definitions.drop_last()) + definition_errors(
            ast,
            definitions.last(),
        )
    }
}

/// The macros that `ast` declares, in order of declaration.
pub open spec fn declared_definitions(ast: ast::Program) -> Seq<ast::Macro> {
    macro_entries(ast.macros).map_values(|entry: (String, ast::Macro)| entry.1)
}

/// The errors of every body of `ast`: each macro's, in order of
/// declaration, then `main`'s.
pub open spec fn program_errors(ast: ast::Program) -> Seq<Error> {
    definitions_errors(ast, declared_definitions(ast)) + body_errors(
        ast,
        None,
        ast::code_entries(ast.main.code),
    )
}

/// Whether an error of `after` past the first `before.len()` is about
/// macros that call each other in a cycle.
pub open spec fn recursion_reported(after: Seq<Error>, before: Seq<Error>) -> bool {
    exists|i: int|
        before.len() <= i < after.len() && (#[trigger] after[i]).cause is RecursiveMacro
}

/// Whether `names` are macros of `ast` each of which calls the next, the
/// last calling the first.
pub open spec fn is_call_cycle(ast: ast::Program, names: Seq<Seq<char>>) -> bool {
    &&& names.len() > 0
    &&& forall|i: int| 0 <= i < names.len() - 1 ==> calls(ast, #[trigger] names[i], names[i + 1])
    &&& calls(ast, names.last(), names[0])
}

/// Whether each error of `after` past the first `before.len()` that is about
/// macros calling each other in a cycle names such a cycle of `ast`, from
/// the macro called to the one calling it.
pub open spec fn cycles_named(ast: ast::Program, after: Seq<Error>, before: Seq<Error>) -> bool {
    forall|i: int|
        before.len() <= i < after.len() ==> match (#[trigger] after[i]).cause {
            ErrorCause::RecursiveMacro(cycle) => is_call_cycle(ast, names_view(cycle.macro_names@)),
            _ => true,
        }
}

/// Whether none of `errors` is about macros calling each other in a cycle.
pub open spec fn no_cycle_errors(errors: Seq<Error>) -> bool {
    forall|i: int| 0 <= i < errors.len() ==> !((#[trigger] errors[i]).cause is RecursiveMacro)
}

/// Errors of other causes name no cycle.
pub(crate) proof fn lemma_cycles_named_append(
    ast: ast::Program,
    before: Seq<Error>,
    added: Seq<Error>,
)
    requires
        no_cycle_errors(added),
    ensures
        cycles_named(ast, before + added, before),
{
    assert forall|i: int| before.len() <= i < (before + added).len() implies !((#[trigger] (
    before + added)[i]).cause is RecursiveMacro) by {
        assert((before + added)[i] == added[i - before.len()]);
    }
}

/// Errors of other causes, one after the other, are of other causes.
pub(crate) proof fn lemma_no_cycle_errors_concat(a: Seq<Error>, b: Seq<Error>)
    requires
        no_cycle_errors(a),
        no_cycle_errors(b),
    ensures
        no_cycle_errors(a + b),
{
    assert forall|i: int| 0 <= i < (a + b).len() implies !((#[trigger] (a + b)[i]).cause is RecursiveMacro) by {
        if i < a.len() {
            assert((a + b)[i] == a[i]);
        } else {
            assert((a + b)[i] == b[i - a.len()]);
        }
    }
}

/// Cycles named over two stretches are named over both.
pub(crate) proof fn lemma_cycles_named_trans(
    ast: ast::Program,
    a: Seq<Error>,
    b: Seq<Error>,
    c: Seq<Error>,
)
    requires
        extends(b, a),
        extends(c, b),
        cycles_named(ast, b, a),
        cycles_named(ast, c, b),
    ensures
        cycles_named(ast, c, a),
{
    assert forall|i: int| a.len() <= i < c.len() implies match (#[trigger] c[i]).cause {
        ErrorCause::RecursiveMacro(cycle) => is_call_cycle(ast, names_view(cycle.macro_names@)),
        _ => true,
    } by {
        if i < b.len() {
            assert(c[i] == b[i]);
        }
    }
}

/// The errors of checking a jump are about labels.
pub(crate) proof fn lemma_label_errors_no_cycle(
    kind: Option<ast::MacroType>,
    label: ast::Symbol,
    code: Seq<(String, ast::Instruction)>,
)
    ensures
        no_cycle_errors(label_errors(kind, label, code)),
{
}

/// The errors of checking the jumps of an instruction are about labels.
pub(crate) proof fn lemma_jump_errors_no_cycle(
    kind: Option<ast::MacroType>,
    instruction: ast::Instruction,
    code: Seq<(String, ast::Instruction)>,
)
    ensures
        no_cycle_errors(jump_errors(kind, instruction, code)),
{
    match instruction.instruction_type {
        ast::InstructionType::Operation(operation) => {
            lemma_label_errors_no_cycle(kind, operation.next_label, code);
        },
        ast::InstructionType::Test(test) => {
            lemma_label_errors_no_cycle(kind, test.next_true_label, code);
            lemma_label_errors_no_cycle(kind, test.next_false_label, code);
            lemma_no_cycle_errors_concat(
                label_errors(kind, test.next_true_label, code),
                label_errors(kind, test.next_false_label, code),
            );
        },
    }
}

/// The errors of a call's arguments are about arguments.
pub(crate) proof fn lemma_argument_errors_no_cycle(
    name: ast::Symbol,
    expected: nat,
    arguments: Seq<ast::MacroArgument>,
    n: nat,
)
    ensures
        no_cycle_errors(argument_count_errors(name, expected, arguments.len())),
        no_cycle_errors(argument_type_errors(name, arguments, n)),
    decreases n,
{
    if n > 0 {
        lemma_argument_errors_no_cycle(name, expected, arguments, (n - 1) as nat);
        let shorter = argument_type_errors(name, arguments, (n - 1) as nat);
        let all = argument_type_errors(name, arguments, n);
        assert forall|i: int| 0 <= i < all.len() implies !((#[trigger] all[i]).cause is RecursiveMacro) by {
            if i < shorter.len() {
                assert(all[i] == shorter[i]);
            }
        }
    }
}

/// The callers waiting for a macro to be compiled, from the last that is
/// `callee` on, followed by `caller`, which calls `callee`, are a cycle of
/// calls.
pub(crate) proof fn lemma_waiting_cycle(
    ast: ast::Program,
    waiting: Seq<String>,
    caller: Seq<char>,
    callee: Seq<char>,
    k: int,
)
    requires
        chain_ok(ast, waiting, caller),
        calls(ast, caller, callee),
        0 <= k < waiting.len(),
        waiting[k]@ == callee,
    ensures
        is_call_cycle(ast, names_view(waiting.skip(k)).push(caller)),
{
    let w = waiting.skip(k);
    let names = names_view(w).push(caller);
    let chain = names_view(waiting).push(caller);
    assert(names.len() == w.len() + 1);
    assert forall|i: int| 0 <= i < names.len() - 1 implies calls(
        ast,
        #[trigger] names[i],
        names[i + 1],
    ) by {
        let j = k + i;
        assert(w[i] == waiting[j]);
        assert(names[i] == waiting[j]@);
        if i + 1 < w.len() {
            assert(w[i + 1] == waiting[j + 1]);
            assert(names[i + 1] == chain[j + 1]);
        } else {
            assert(names[i + 1] == caller);
            assert(chain[j + 1] == caller);
        }
        assert(calls(ast, (#[trigger] waiting[j])@, names_view(waiting).push(caller)[j + 1]));
    }
    assert(names[0] == callee);
}

/// An error about a cycle added over two stretches was added over one of
/// them.
pub(crate) proof fn lemma_recursion_reported_split(a: Seq<Error>, b: Seq<Error>, c: Seq<Error>)
    requires
        extends(b, a),
        extends(c, b),
    ensures
        recursion_reported(c, a) == (recursion_reported(b, a) || recursion_reported(c, b)),
{
    if recursion_reported(b, a) {
        let i = choose|i: int| a.len() <= i < b.len() && (#[trigger] b[i]).cause is RecursiveMacro;
        assert(c[i] == b[i]);
    }
}

/// In a syntax tree whose macros are stored under their own names, the
/// definition declared under a name is the one stored under it.
pub(crate) proof fn lemma_definition_named_at(ast: ast::Program, name: Seq<char>, i: int)
    requires
        crate::compiler::parser::program_wf(ast),
        0 <= i < macro_entries(ast.macros).len(),
        macro_entries(ast.macros)[i].0@ == name,
    ensures
        definition_named(ast, name) == macro_entries(ast.macros)[i].1,
{
    let entries = macro_entries(ast.macros);
    let j = choose|j: int| 0 <= j < entries.len() && (#[trigger] entries[j]).0@ == name;
    if j != i {
        if j < i {
            assert(entries[j].0@ != entries[i].0@);
        } else {
            assert(entries[i].0@ != entries[j].0@);
        }
    }
}

/// In a syntax tree whose macros are stored under their own names, the
/// first compiled macro of a name is the definition declared under it.
pub(crate) proof fn lemma_found_definition(
    ast: ast::Program,
    compiled: Seq<CompiledView>,
    name: Seq<char>,
)
    requires
        crate::compiler::parser::program_wf(ast),
        compiled_in_order(ast, compiled),
        first_compiled(compiled, name) is Some,
    ensures
        declared(ast, name),
        compiled[first_compiled(compiled, name)->0].0 == definition_named(ast, name),
{
    lemma_first_compiled_found(compiled, name);
    let k = first_compiled(compiled, name)->0;
    assert(is_definition_in(ast, compiled[k].0));
    lemma_definition_named(ast, compiled[k].0, compiled[k].0);
    let entries = macro_entries(ast.macros);
    let i = choose|i: int| 0 <= i < entries.len() && (#[trigger] entries[i]).0@ == name;
    assert(is_definition_in(ast, entries[i].1));
    lemma_definition_named(ast, compiled[k].0, entries[i].1);
}

/// An instruction that calls no macro adds the errors of its jumps, and
/// compiles no macro.
pub(crate) proof fn lemma_errors_builtin(
    ast: ast::Program,
    kind: Option<ast::MacroType>,
    instruction: ast::Instruction,
    body: Seq<(String, ast::Instruction)>,
    before: Seq<Error>,
    after: Seq<Error>,
    compiled: Seq<CompiledView>,
)
    requires
        instruction_errors(ast, kind, instruction, body) == jump_errors(kind, instruction, body)
            + Seq::<Error>::empty(),
        after == before + jump_errors(kind, instruction, body),
    ensures
        after.to_multiset() == before.to_multiset().add(
            instruction_errors(ast, kind, instruction, body).to_multiset(),
        ).add(new_bodies_errors(ast, compiled, compiled).to_multiset()),
{
    broadcast use vstd::seq_lib::lemma_multiset_commutative;
    broadcast use vstd::multiset::group_multiset_axioms;

    let jumps = jump_errors(kind, instruction, body);
    assert(jumps + Seq::<Error>::empty() =~= jumps);
    assert(new_bodies_errors(ast, compiled, compiled) =~= Seq::<Error>::empty());
    assert(after + Seq::<Error>::empty() =~= after);
    assert(after.to_multiset() =~= (after + Seq::<Error>::empty()).to_multiset());
}

/// An instruction that calls a macro adds the errors of its jumps, then
/// those of the call and of the bodies compiled meanwhile.
pub(crate) proof fn lemma_errors_call(
    ast: ast::Program,
    kind: Option<ast::MacroType>,
    instruction: ast::Instruction,
    body: Seq<(String, ast::Instruction)>,
    call: Seq<Error>,
    before: Seq<Error>,
    middle: Seq<Error>,
    after: Seq<Error>,
    compiled_before: Seq<CompiledView>,
    compiled_after: Seq<CompiledView>,
)
    requires
        instruction_errors(ast, kind, instruction, body) == jump_errors(kind, instruction, body)
            + call,
        middle == before + jump_errors(kind, instruction, body),
        after.to_multiset() == middle.to_multiset().add(call.to_multiset()).add(
            new_bodies_errors(ast, compiled_before, compiled_after).to_multiset(),
        ),
    ensures
        after.to_multiset() == before.to_multiset().add(
            instruction_errors(ast, kind, instruction, body).to_multiset(),
        ).add(new_bodies_errors(ast, compiled_before, compiled_after).to_multiset()),
{
    broadcast use vstd::seq_lib::lemma_multiset_commutative;
    broadcast use vstd::multiset::group_multiset_axioms;

    let jumps = jump_errors(kind, instruction, body);
    assert(middle.to_multiset() == before.to_multiset().add(jumps.to_multiset()));
    assert((jumps + call).to_multiset() == jumps.to_multiset().add(call.to_multiset()));
    assert(after.to_multiset() =~= before.to_multiset().add(
        instruction_errors(ast, kind, instruction, body).to_multiset(),
    ).add(new_bodies_errors(ast, compiled_before, compiled_after).to_multiset()));
}

/// Before any instruction of a body is compiled, it has added no error and
/// no macro was compiled.
pub(crate) proof fn lemma_errors_start(
    ast: ast::Program,
    kind: Option<ast::MacroType>,
    body: Seq<(String, ast::Instruction)>,
    errors: Seq<Error>,
    compiled: Seq<CompiledView>,
)
    ensures
        errors.to_multiset() == errors.to_multiset().add(
            instructions_errors(ast, kind, body, 0).to_multiset(),
        ).add(new_bodies_errors(ast, compiled, compiled).to_multiset()),
{
    broadcast use vstd::seq_lib::lemma_multiset_commutative;
    broadcast use vstd::multiset::group_multiset_axioms;

    assert(new_bodies_errors(ast, compiled, compiled) =~= Seq::<Error>::empty());
    assert(instructions_errors(ast, kind, body, 0) =~= Seq::<Error>::empty());
    assert(errors + Seq::<Error>::empty() =~= errors);
    assert(errors.to_multiset() =~= (errors + Seq::<Error>::empty()).to_multiset());
    assert(errors.to_multiset() =~= errors.to_multiset().add(
        Seq::<Error>::empty().to_multiset(),
    ).add(Seq::<Error>::empty().to_multiset()));
}

/// Compiling one more instruction of a body adds its errors and those of
/// the bodies compiled meanwhile.
pub(crate) proof fn lemma_errors_step(
    ast: ast::Program,
    kind: Option<ast::MacroType>,
    body: Seq<(String, ast::Instruction)>,
    i: int,
    start: Seq<Error>,
    before: Seq<Error>,
    after: Seq<Error>,
    start_list: Seq<CompiledView>,
    list: Seq<CompiledView>,
    after_list: Seq<CompiledView>,
)
    requires
        0 <= i < body.len(),
        compiled_extends(list, start_list),
        compiled_extends(after_list, list),
        before.to_multiset() == start.to_multiset().add(
            instructions_errors(ast, kind, body, i).to_multiset(),
        ).add(new_bodies_errors(ast, start_list, list).to_multiset()),
        after.to_multiset() == before.to_multiset().add(
            instruction_errors(ast, kind, body[i].1, body).to_multiset(),
        ).add(new_bodies_errors(ast, list, after_list).to_multiset()),
    ensures
        after.to_multiset() == start.to_multiset().add(
            instructions_errors(ast, kind, body, i + 1).to_multiset(),
        ).add(new_bodies_errors(ast, start_list, after_list).to_multiset()),
{
    broadcast use vstd::seq_lib::lemma_multiset_commutative;
    broadcast use vstd::multiset::group_multiset_axioms;

    lemma_new_bodies_errors_split(ast, start_list, list, after_list);
    assert(instructions_errors(ast, kind, body, i + 1) == instructions_errors(ast, kind, body, i)
        + instruction_errors(ast, kind, body[i].1, body));
    assert(after.to_multiset() =~= start.to_multiset().add(
        instructions_errors(ast, kind, body, i + 1).to_multiset(),
    ).add(new_bodies_errors(ast, start_list, after_list).to_multiset()));
}

/// Once every instruction of a macro's body is compiled and the macro is
/// added to the compiled ones, the errors added are those of the bodies
/// compiled, that macro's last.
pub(crate) proof fn lemma_errors_finish(
    ast: ast::Program,
    definition: ast::Macro,
    program: Seq<(Seq<char>, crate::interpreter::program::BuiltinView)>,
    start: Seq<Error>,
    errors: Seq<Error>,
    start_list: Seq<CompiledView>,
    end_list: Seq<CompiledView>,
)
    requires
        compiled_extends(end_list, start_list),
        errors.to_multiset() == start.to_multiset().add(
            instructions_errors(
                ast,
                Some(definition.macro_type),
                ast::code_entries(definition.instr),
                ast::code_entries(definition.instr).len() as int,
            ).to_multiset(),
        ).add(new_bodies_errors(ast, start_list, end_list).to_multiset()),
    ensures
        errors.to_multiset() == start.to_multiset().add(
            new_bodies_errors(ast, start_list, end_list.push((definition, program))).to_multiset(),
        ),
{
    broadcast use vstd::seq_lib::lemma_multiset_commutative;
    broadcast use vstd::multiset::group_multiset_axioms;

    let list = end_list.push((definition, program));
    assert(list.drop_last() =~= end_list);
    assert(new_bodies_errors(ast, start_list, list) == new_bodies_errors(
        ast,
        start_list,
        end_list,
    ) + body_errors(ast, Some(definition.macro_type), ast::code_entries(definition.instr)));
    assert(errors.to_multiset() =~= start.to_multiset().add(
        new_bodies_errors(ast, start_list, list).to_multiset(),
    ));
}

/// Where no macro is compiled, no error of a body is added.
pub(crate) proof fn lemma_errors_none(ast: ast::Program, errors: Seq<Error>, compiled: Seq<CompiledView>)
    ensures
        errors.to_multiset() == errors.to_multiset().add(
            new_bodies_errors(ast, compiled, compiled).to_multiset(),
        ),
{
    assert(new_bodies_errors(ast, compiled, compiled) =~= Seq::<Error>::empty());
    assert(errors + Seq::<Error>::empty() =~= errors);
    vstd::seq_lib::lemma_multiset_commutative(errors, Seq::<Error>::empty());
}

/// The errors of the bodies compiled over two stretches add up.
pub(crate) proof fn lemma_errors_more(
    ast: ast::Program,
    start: Seq<Error>,
    before: Seq<Error>,
    after: Seq<Error>,
    a: Seq<CompiledView>,
    b: Seq<CompiledView>,
    c: Seq<CompiledView>,
)
    requires
        compiled_extends(b, a),
        compiled_extends(c, b),
        before.to_multiset() == start.to_multiset().add(new_bodies_errors(ast, a, b).to_multiset()),
        after.to_multiset() == before.to_multiset().add(new_bodies_errors(ast, b, c).to_multiset()),
    ensures
        after.to_multiset() == start.to_multiset().add(new_bodies_errors(ast, a, c).to_multiset()),
{
    broadcast use vstd::seq_lib::lemma_multiset_commutative;
    broadcast use vstd::multiset::group_multiset_axioms;

    lemma_new_bodies_errors_split(ast, a, b, c);
    assert(after.to_multiset() =~= start.to_multiset().add(
        new_bodies_errors(ast, a, c).to_multiset(),
    ));
}

/// The errors of the bodies compiled over two stretches are those of the
/// first stretch followed by those of the second.
pub(crate) proof fn lemma_new_bodies_errors_split(
    ast: ast::Program,
    a: Seq<CompiledView>,
    b: Seq<CompiledView>,
    c: Seq<CompiledView>,
)
    requires
        compiled_extends(b, a),
        compiled_extends(c, b),
    ensures
        new_bodies_errors(ast, a, c) == new_bodies_errors(ast, a, b) + new_bodies_errors(
            ast,
            b,
            c,
        ),
    decreases c.len(),
{
    if c.len() == b.len() {
        assert(c =~= b);
        assert(new_bodies_errors(ast, b, c) =~= Seq::<Error>::empty());
        assert(new_bodies_errors(ast, a, b) + Seq::<Error>::empty() =~= new_bodies_errors(
            ast,
            a,
            b,
        ));
    } else {
        let shorter = c.drop_last();
        assert(compiled_extends(shorter, b));
        lemma_new_bodies_errors_split(ast, a, b, shorter);
        let last = body_errors(
            ast,
            Some(c.last().0.macro_type),
            ast::code_entries(c.last().0.instr),
        );
        assert(new_bodies_errors(ast, a, c) == new_bodies_errors(ast, a, shorter) + last);
        assert(new_bodies_errors(ast, b, c) == new_bodies_errors(ast, b, shorter) + last);
        assert(new_bodies_errors(ast, a, b) + new_bodies_errors(ast, b, shorter) + last
            =~= new_bodies_errors(ast, a, b) + (new_bodies_errors(ast, b, shorter) + last));
    }
}


/// The errors of the bodies compiled after none are those of the compiled
/// macros, in order.
pub(crate) proof fn lemma_new_bodies_errors_all(ast: ast::Program, compiled: Seq<CompiledView>)
    ensures
        new_bodies_errors(ast, Seq::empty(), compiled) == definitions_errors(
            ast,
            compiled.map_values(|entry: CompiledView| entry.0),
        ),
    decreases compiled.len(),
{
    let definitions = compiled.map_values(|entry: CompiledView| entry.0);
    if compiled.len() > 0 {
        lemma_new_bodies_errors_all(ast, compiled.drop_last());
        assert(definitions.drop_last() =~= compiled.drop_last().map_values(
            |entry: CompiledView| entry.0,
        ));
    } else {
        assert(definitions =~= Seq::<ast::Macro>::empty());
    }
}

/// Taking one macro out of a list takes its errors out of the list's.
pub(crate) proof fn lemma_definitions_errors_remove(
    ast: ast::Program,
    definitions: Seq<ast::Macro>,
    i: int,
)
    requires
        0 <= i < definitions.len(),
    ensures
        definitions_errors(ast, definitions).to_multiset() == definitions_errors(
            ast,
            definitions.remove(i),
        ).to_multiset().add(definition_errors(ast, definitions[i]).to_multiset()),
    decreases definitions.len(),
{
    broadcast use vstd::seq_lib::lemma_multiset_commutative;
    broadcast use vstd::multiset::group_multiset_axioms;

    let last = definitions.len() - 1;
    if i == last {
        assert(definitions.remove(i) =~= definitions.drop_last());
    } else {
        let shorter = definitions.drop_last();
        lemma_definitions_errors_remove(ast, shorter, i);
        let removed = definitions.remove(i);
        assert(removed.drop_last() =~= shorter.remove(i));
        assert(removed.last() == definitions.last());
        assert(definitions_errors(ast, removed) == definitions_errors(ast, shorter.remove(i))
            + definition_errors(ast, definitions.last()));
        assert(definitions_errors(ast, definitions).to_multiset() =~= definitions_errors(
            ast,
            removed,
        ).to_multiset().add(definition_errors(ast, definitions[i]).to_multiset()));
    }
}

/// Lists that hold the same macros, as often each, have the same errors,
/// as often each.
pub(crate) proof fn lemma_definitions_errors_permuted(
    ast: ast::Program,
    a: Seq<ast::Macro>,
    b: Seq<ast::Macro>,
)
    requires
        a.to_multiset() == b.to_multiset(),
    ensures
        definitions_errors(ast, a).to_multiset() == definitions_errors(ast, b).to_multiset(),
    decreases a.len(),
{
    broadcast use vstd::seq_lib::group_to_multiset_ensures;
    broadcast use vstd::multiset::group_multiset_axioms;

    if a.len() == 0 {
        assert(a.to_multiset().len() == a.len());
        assert(b.to_multiset().len() == b.len());
        assert(a =~= b);
    } else {
        let x = a.last();
        assert(a.to_multiset().count(x) > 0) by {
            assert(a.contains(x)) by {
                assert(a[a.len() - 1] == x);
            }
        }
        assert(b.contains(x));
        let i = choose|i: int| 0 <= i < b.len() && b[i] == x;
        assert(a.drop_last().push(x) =~= a);
        assert(a.drop_last().to_multiset() =~= b.remove(i).to_multiset()) by {
            assert(a.to_multiset() =~= a.drop_last().to_multiset().insert(x));
            assert(b.remove(i).to_multiset() =~= b.to_multiset().remove(x));
        }
        lemma_definitions_errors_permuted(ast, a.drop_last(), b.remove(i));
        lemma_definitions_errors_remove(ast, b, i);
        vstd::seq_lib::lemma_multiset_commutative(
            definitions_errors(ast, a.drop_last()),
            definition_errors(ast, x),
        );
    }
}

/// Lists that hold each of the same macros once hold them as often each.
pub(crate) proof fn lemma_same_definitions(a: Seq<ast::Macro>, b: Seq<ast::Macro>)
    requires
        a.no_duplicates(),
        b.no_duplicates(),
        forall|m: ast::Macro| a.contains(m) <==> b.contains(m),
    ensures
        a.to_multiset() == b.to_multiset(),
{
    broadcast use vstd::seq_lib::group_to_multiset_ensures;

    a.lemma_multiset_has_no_duplicates();
    b.lemma_multiset_has_no_duplicates();
    assert forall|m: ast::Macro| a.to_multiset().count(m) == b.to_multiset().count(m) by {
        if a.contains(m) {
            assert(a.to_multiset().contains(m));
            assert(b.to_multiset().contains(m));
        } else {
            assert(!b.contains(m));
        }
    }
    assert(a.to_multiset() =~= b.to_multiset());
}


/// Where every declared macro is compiled, each once, the errors of the
/// compiled bodies are those of the declared macros, as often each.
pub(crate) proof fn lemma_compiled_errors(ast: ast::Program, compiled: Seq<CompiledView>)
    requires
        crate::compiler::parser::program_wf(ast),
        compiled_in_order(ast, compiled),
        compiled_distinct(compiled),
        forall|x: Seq<char>| declared(ast, x) ==> first_compiled(compiled, x) is Some,
    ensures
        new_bodies_errors(ast, Seq::empty(), compiled).to_multiset() == definitions_errors(
            ast,
            declared_definitions(ast),
        ).to_multiset(),
{
    let a = compiled.map_values(|entry: CompiledView| entry.0);
    let b = declared_definitions(ast);
    let entries = macro_entries(ast.macros);
    assert forall|i: int, j: int| 0 <= i < a.len() && 0 <= j < a.len() && i != j implies a[i]
        != a[j] by {
        assert(first_compiled(compiled, compiled[i].0.name.content@) == Some(i));
        assert(first_compiled(compiled, compiled[j].0.name.content@) == Some(j));
    }
    assert forall|i: int, j: int| 0 <= i < b.len() && 0 <= j < b.len() && i != j implies b[i]
        != b[j] by {
        assert(entries[i].0@ == entries[i].1.name.content@);
        assert(entries[j].0@ == entries[j].1.name.content@);
        if i < j {
            assert(entries[i].0@ != entries[j].0@);
        } else {
            assert(entries[j].0@ != entries[i].0@);
        }
    }
    assert forall|m: ast::Macro| a.contains(m) <==> b.contains(m) by {
        if a.contains(m) {
            let k = choose|k: int| 0 <= k < a.len() && a[k] == m;
            assert(is_definition_in(ast, compiled[k].0));
            let i = choose|i: int| 0 <= i < entries.len() && (#[trigger] entries[i]).1 == m;
            assert(b[i] == m);
        }
        if b.contains(m) {
            let i = choose|i: int| 0 <= i < b.len() && b[i] == m;
            assert(entries[i].0@ == m.name.content@);
            assert(declared(ast, m.name.content@));
            let k = first_compiled(compiled, m.name.content@)->0;
            lemma_first_compiled_found(compiled, m.name.content@);
            assert(is_definition_in(ast, compiled[k].0));
            assert(is_definition_in(ast, entries[i].1));
            lemma_definition_named(ast, compiled[k].0, m);
            assert(a[k] == m);
        }
    }
    lemma_same_definitions(a, b);
    lemma_definitions_errors_permuted(ast, a, b);
    lemma_new_bodies_errors_all(ast, compiled);
}

} // verus!
