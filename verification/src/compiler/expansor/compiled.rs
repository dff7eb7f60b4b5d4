//! What expanding macros gives, as plain values: how a call is expanded,
//! how a body is compiled instruction by instruction given the macros
//! compiled so far, and what the whole expansion of a syntax tree is.

use crate::compiler::error::{Error, ErrorCause};
use crate::compiler::expansor::artifacts::{
    insert_view,
    relabelled,
    renamed,
    view_has_label,
    PreCompiled,
    WorkingCode,
};
use crate::compiler::expansor::error::{MismatchedArgType, MismatchedArgsNumber};
use crate::compiler::expansor::label::label_errors;
use crate::compiler::expansor::target_items;
use crate::compiler::lexer::token::BuiltInOperation;
use crate::compiler::parser::ast::{self, macro_entries};
use crate::interpreter::program::{builtin_renamed, builtins_view, BuiltinView};
use indexmap::IndexSet;
use vstd::prelude::*;

verus! {

/// Names as plain values.
pub open spec fn names_view(names: Seq<String>) -> Seq<Seq<char>> {
    names.map_values(|name: String| name@)
}

/// Where the label `label` of the compiled macro `inner`, named
/// `macro_name`, leads once a call of it labelled `outer_label` is expanded:
/// the macro's own labels are prefixed with the call's label and the macro's
/// name; `true`, `false` and any other label lead to the three `exits`.
pub open spec fn expanded_label(
    inner: Seq<(Seq<char>, BuiltinView)>,
    macro_name: Seq<char>,
    outer_label: Seq<char>,
    exits: (Seq<char>, Seq<char>, Seq<char>),
    label: Seq<char>,
) -> Seq<char> {
    if view_has_label(inner, label) {
        outer_label + "."@ + macro_name + "."@ + label
    } else if label == "true"@ {
        exits.0
    } else if label == "false"@ {
        exits.1
    } else {
        exits.2
    }
}

/// The register that an argument of a call stands for: its own, or `?` for
/// a number.
pub open spec fn argument_register(argument: ast::MacroArgument) -> Seq<char> {
    match argument {
        ast::MacroArgument::Register(register) => register.content@,
        ast::MacroArgument::Number(_) => "?"@,
    }
}

/// The parameters of a macro paired with the arguments of a call, as far as
/// both go.
pub open spec fn param_pairs(params: Seq<ast::Symbol>, args: Seq<ast::MacroArgument>) -> Seq<
    (Seq<char>, Seq<char>),
> {
    Seq::new(
        if params.len() <= args.len() {
            params.len()
        } else {
            args.len()
        },
        |i: int| (params[i].content@, argument_register(args[i])),
    )
}

/// The error for a call of `name` with a number of arguments other than the
/// number of parameters, if it is one.
pub open spec fn argument_count_errors(name: ast::Symbol, expected: nat, found: nat) -> Seq<Error> {
    if expected != found {
        seq![
            Error {
                cause: ErrorCause::MismatchedArgsNumber(
                    MismatchedArgsNumber {
                        macro_name: name.content,
                        expected_num: expected as usize,
                        found_num: found as usize,
                    },
                ),
                span: Some(name.span),
            },
        ]
    } else {
        Seq::empty()
    }
}

/// The errors for the first `n` arguments of a call of `name`: one for each
/// number, where a register was expected.
pub open spec fn argument_type_errors(
    name: ast::Symbol,
    args: Seq<ast::MacroArgument>,
    n: nat,
) -> Seq<Error>
    decreases n,
{
    if n == 0 {
        Seq::empty()
    } else {
        argument_type_errors(name, args, (n - 1) as nat) + match args[n - 1] {
            ast::MacroArgument::Register(_) => Seq::empty(),
            ast::MacroArgument::Number(_) => seq![
                Error {
                    cause: ErrorCause::MismatchedArgType(
                        MismatchedArgType {
                            macro_name: name.content,
                            expected_type: ast::MacroArgumentType::Register,
                            found_type: ast::MacroArgumentType::Number,
                            index: (n - 1) as usize,
                        },
                    ),
                    span: Some(name.span),
                },
            ],
        }
    }
}

/// The instructions that a call expands into: those of the compiled macro
/// `inner`, relabelled and with registers replaced as `pairs` says.
pub open spec fn expansion(
    inner: Seq<(Seq<char>, BuiltinView)>,
    macro_name: Seq<char>,
    outer_label: Seq<char>,
    exits: (Seq<char>, Seq<char>, Seq<char>),
    pairs: Seq<(Seq<char>, Seq<char>)>,
) -> Seq<(Seq<char>, BuiltinView)> {
    inner.map_values(
        |entry: (Seq<char>, BuiltinView)|
            (
                expanded_label(inner, macro_name, outer_label, exits, entry.0),
                builtin_renamed(
                    entry.1,
                    |r: Seq<char>| renamed(pairs, r),
                    |l: Seq<char>| expanded_label(inner, macro_name, outer_label, exits, l),
                ),
            ),
    )
}

/// The label where a compiled body starts: that of its first instruction,
/// or `0` where it has none.
pub open spec fn view_first_label(code: Seq<(Seq<char>, BuiltinView)>) -> Seq<char> {
    if code.len() > 0 {
        code[0].0
    } else {
        seq!['0']
    }
}

/// A compiled macro as plain values: its definition and its instructions.
pub type CompiledView = (ast::Macro, Seq<(Seq<char>, BuiltinView)>);

/// The compiled macros as plain values.
pub open spec fn compiled_views<'a>(compiled: Seq<PreCompiled<'a>>) -> Seq<CompiledView> {
    compiled.map_values(
        |precompiled: PreCompiled<'a>|
            (*precompiled.spec_macro_data(), builtins_view(precompiled.spec_program()@)),
    )
}

/// `code` with each entry of `added` added in turn, unless its label is
/// there already.
pub open spec fn inserted(
    code: Seq<(Seq<char>, BuiltinView)>,
    added: Seq<(Seq<char>, BuiltinView)>,
) -> Seq<(Seq<char>, BuiltinView)>
    decreases added.len(),
{
    if added.len() == 0 {
        code
    } else {
        insert_view(inserted(code, added.drop_last()), added.last())
    }
}

/// Whether an instruction of a body is a built-in, and so calls no macro.
pub open spec fn is_builtin_instruction(instruction: ast::Instruction) -> bool {
    match instruction.instruction_type {
        ast::InstructionType::Operation(operation) => operation.oper_type is BuiltIn,
        ast::InstructionType::Test(test) => test.test_type is BuiltIn,
    }
}

/// A built-in instruction of a body once compiled, as plain values.
pub open spec fn compiled_builtin(instruction: ast::Instruction) -> (Seq<char>, BuiltinView) {
    (
        instruction.label.content@,
        match instruction.instruction_type {
            ast::InstructionType::Operation(operation) => match operation.oper_type {
                ast::OperationType::BuiltIn(BuiltInOperation::Dec, register) => BuiltinView::Dec(
                    register.content@,
                    operation.next_label.content@,
                ),
                ast::OperationType::BuiltIn(BuiltInOperation::Inc, register) => BuiltinView::Inc(
                    register.content@,
                    operation.next_label.content@,
                ),
                ast::OperationType::Macro(..) => BuiltinView::Inc(
                    Seq::empty(),
                    operation.next_label.content@,
                ),
            },
            ast::InstructionType::Test(test) => BuiltinView::Zero(
                match test.test_type {
                    ast::TestType::BuiltIn(_, register) => register.content@,
                    ast::TestType::Macro(..) => Seq::empty(),
                },
                test.next_true_label.content@,
                test.next_false_label.content@,
            ),
        },
    )
}

/// The errors that checking the jumps of `instruction`, of a body of kind
/// `kind` whose instructions are `code`, gives.
pub open spec fn jump_errors(
    kind: Option<ast::MacroType>,
    instruction: ast::Instruction,
    code: Seq<(String, ast::Instruction)>,
) -> Seq<Error> {
    match instruction.instruction_type {
        ast::InstructionType::Operation(operation) => label_errors(
            kind,
            operation.next_label,
            code,
        ),
        ast::InstructionType::Test(test) => label_errors(kind, test.next_true_label, code)
            + label_errors(kind, test.next_false_label, code),
    }
}

/// The compiled instructions of a body of built-ins, in order.
pub open spec fn compiled_builtins(code: Seq<(String, ast::Instruction)>) -> Seq<
    (Seq<char>, BuiltinView),
> {
    code.map_values(|entry: (String, ast::Instruction)| compiled_builtin(entry.1))
}

/// Whether every instruction of a body is a built-in.
pub open spec fn builtins_only(code: Seq<(String, ast::Instruction)>) -> bool {
    forall|i: int| 0 <= i < code.len() ==> is_builtin_instruction((#[trigger] code[i]).1)
}

/// The index of the first compiled macro named `name`, if there is one.
pub open spec fn first_compiled(compiled: Seq<CompiledView>, name: Seq<char>) -> Option<int>
    decreases compiled.len(),
{
    if compiled.len() == 0 {
        None
    } else {
        match first_compiled(compiled.drop_last(), name) {
            Some(k) => Some(k),
            None => if compiled.last().0.name.content@ == name {
                Some(compiled.len() - 1)
            } else {
                None
            },
        }
    }
}

/// Whether `after` holds the compiled macros of `before`, in the same
/// places, and maybe more after them.
pub open spec fn compiled_extends(after: Seq<CompiledView>, before: Seq<CompiledView>) -> bool {
    &&& after.len() >= before.len()
    &&& forall|k: int| 0 <= k < before.len() ==> #[trigger] after[k] == before[k]
}

/// The first compiled macro of a name stays the first as more are compiled.
pub(crate) proof fn lemma_first_compiled_kept(
    after: Seq<CompiledView>,
    before: Seq<CompiledView>,
    name: Seq<char>,
)
    requires
        compiled_extends(after, before),
        first_compiled(before, name) is Some,
    ensures
        first_compiled(after, name) == first_compiled(before, name),
    decreases after.len() - before.len(),
{
    if after.len() == before.len() {
        assert(after =~= before);
    } else {
        let shorter = after.drop_last();
        assert(compiled_extends(shorter, before));
        lemma_first_compiled_kept(shorter, before, name);
    }
}

/// The first compiled macro of a name is one of them, and has that name.
pub(crate) proof fn lemma_first_compiled_found(compiled: Seq<CompiledView>, name: Seq<char>)
    requires
        first_compiled(compiled, name) is Some,
    ensures
        0 <= first_compiled(compiled, name)->0 < compiled.len(),
        compiled[first_compiled(compiled, name)->0].0.name.content@ == name,
    decreases compiled.len(),
{
    if first_compiled(compiled.drop_last(), name) is Some {
        lemma_first_compiled_found(compiled.drop_last(), name);
    }
}

/// A name that no compiled macro has is still had by none after more are
/// compiled, where none of them has it.
pub(crate) proof fn lemma_first_compiled_none_kept(
    after: Seq<CompiledView>,
    before: Seq<CompiledView>,
    name: Seq<char>,
)
    requires
        compiled_extends(after, before),
        first_compiled(before, name) is None,
        forall|k: int|
            before.len() <= k < after.len() ==> (#[trigger] after[k]).0.name.content@ != name,
    ensures
        first_compiled(after, name) is None,
    decreases after.len() - before.len(),
{
    if after.len() == before.len() {
        assert(after =~= before);
    } else {
        let shorter = after.drop_last();
        assert(compiled_extends(shorter, before));
        lemma_first_compiled_none_kept(shorter, before, name);
    }
}

/// The macro that an instruction calls, if it calls one.
pub open spec fn call_name(instruction: ast::Instruction) -> Option<Seq<char>> {
    match instruction.instruction_type {
        ast::InstructionType::Operation(operation) => match operation.oper_type {
            ast::OperationType::Macro(name, _) => Some(name.content@),
            ast::OperationType::BuiltIn(..) => None,
        },
        ast::InstructionType::Test(test) => match test.test_type {
            ast::TestType::Macro(name, _) => Some(name.content@),
            ast::TestType::BuiltIn(..) => None,
        },
    }
}

/// Compiling a body gives the same where more macros are compiled, as long
/// as each macro that it calls is found (or not) as before.
pub(crate) proof fn lemma_body_steps_stable(
    after: Seq<CompiledView>,
    before: Seq<CompiledView>,
    code: Seq<(String, ast::Instruction)>,
)
    requires
        compiled_extends(after, before),
        forall|j: int|
            0 <= j < code.len() && (#[trigger] call_name(code[j].1)) is Some ==> first_compiled(
                after,
                call_name(code[j].1)->0,
            ) == first_compiled(before, call_name(code[j].1)->0),
    ensures
        body_steps(after, code) == body_steps(before, code),
    decreases code.len(),
{
    if code.len() > 0 {
        let shorter = code.drop_last();
        assert forall|j: int|
            0 <= j < shorter.len() && (#[trigger] call_name(shorter[j].1)) is Some implies first_compiled(
            after,
            call_name(shorter[j].1)->0,
        ) == first_compiled(before, call_name(shorter[j].1)->0) by {
            assert(shorter[j] == code[j]);
        }
        lemma_body_steps_stable(after, before, shorter);
        let last = code.last().1;
        assert(call_name(code[code.len() - 1].1) == call_name(last));
        if let Some(name) = call_name(last) {
            if let Some(k) = first_compiled(before, name) {
                lemma_first_compiled_found(before, name);
                assert(after[k] == before[k]);
            }
        }
    }
}

/// Whether some name of `names` is `name`.
pub open spec fn names_have(names: Seq<String>, name: Seq<char>) -> bool {
    exists|i: int| 0 <= i < names.len() && (#[trigger] names[i])@ == name
}

/// Whether no two of `names` are the same.
pub open spec fn names_distinct(names: Seq<String>) -> bool {
    forall|i: int, j: int| 0 <= i < j < names.len() ==> (#[trigger] names[i])@ != (#[trigger] names[j])@
}

/// Whether no two compiled macros have the same name.
pub open spec fn compiled_distinct(compiled: Seq<CompiledView>) -> bool {
    forall|k: int|
        0 <= k < compiled.len() ==> first_compiled(compiled, (#[trigger] compiled[k]).0.name.content@)
            == Some(k)
}

/// Whether `name` is among the macros still to compile.
pub open spec fn is_target(set: IndexSet<String>, name: Seq<char>) -> bool {
    names_have(target_items(set), name)
}

/// Taking the item at `i` out by moving the last item into its place keeps
/// every other name, and adds none.
pub(crate) proof fn lemma_swap_remove_names(names: Seq<String>, i: int)
    requires
        0 <= i < names.len(),
    ensures
        forall|x: Seq<char>|
            #[trigger] names_have(names.update(i, names.last()).drop_last(), x) ==> names_have(
                names,
                x,
            ),
        forall|x: Seq<char>|
            #[trigger] names_have(names, x) && x != names[i]@ ==> names_have(
                names.update(i, names.last()).drop_last(),
                x,
            ),
{
    let after = names.update(i, names.last()).drop_last();
    assert forall|x: Seq<char>| #[trigger] names_have(after, x) implies names_have(names, x) by {
        let j = choose|j: int| 0 <= j < after.len() && (#[trigger] after[j])@ == x;
        if j == i {
            assert(names[names.len() - 1]@ == x);
        } else {
            assert(names[j]@ == x);
        }
    }
    assert forall|x: Seq<char>| #[trigger] names_have(names, x) && x != names[i]@ implies names_have(
        after,
        x,
    ) by {
        let j = choose|j: int| 0 <= j < names.len() && (#[trigger] names[j])@ == x;
        if j == names.len() - 1 {
            assert(after[i]@ == x);
        } else {
            assert(after[j]@ == x);
        }
    }
}

/// Taking the item at `i` out of distinct names, by moving the last item
/// into its place, leaves distinct names without it.
pub(crate) proof fn lemma_swap_remove_distinct(names: Seq<String>, i: int)
    requires
        0 <= i < names.len(),
        names_distinct(names),
    ensures
        names_distinct(names.update(i, names.last()).drop_last()),
        !names_have(names.update(i, names.last()).drop_last(), names[i]@),
{
    let after = names.update(i, names.last()).drop_last();
    let last = names.len() - 1;
    assert forall|a: int, b: int| 0 <= a < b < after.len() implies (#[trigger] after[a])@ != (
    #[trigger] after[b])@ by {
        let a0 = if a == i { last } else { a };
        let b0 = if b == i { last } else { b };
        assert(after[a] == names[a0]);
        assert(after[b] == names[b0]);
        if a0 < b0 {
            assert(names[a0]@ != names[b0]@);
        } else {
            assert(names[b0]@ != names[a0]@);
        }
    }
    if names_have(after, names[i]@) {
        let j = choose|j: int| 0 <= j < after.len() && (#[trigger] after[j])@ == names[i]@;
        let j0 = if j == i { last } else { j };
        assert(after[j] == names[j0]);
        if j0 < i {
            assert(names[j0]@ != names[i]@);
        } else {
            assert(names[i]@ != names[j0]@);
        }
    }
}

/// Taking the last of distinct names out leaves distinct names without it.
pub(crate) proof fn lemma_pop_distinct(names: Seq<String>)
    requires
        names.len() > 0,
        names_distinct(names),
    ensures
        names_distinct(names.drop_last()),
        !names_have(names.drop_last(), names.last()@),
{
    let after = names.drop_last();
    assert forall|a: int, b: int| 0 <= a < b < after.len() implies (#[trigger] after[a])@ != (
    #[trigger] after[b])@ by {
        assert(after[a] == names[a]);
        assert(after[b] == names[b]);
    }
    if names_have(after, names.last()@) {
        let j = choose|j: int| 0 <= j < after.len() && (#[trigger] after[j])@ == names.last()@;
        assert(after[j] == names[j]);
        assert(names[j]@ != names[names.len() - 1]@);
    }
}

/// Taking the last item out keeps every other name, and adds none.
pub(crate) proof fn lemma_pop_names(names: Seq<String>)
    requires
        names.len() > 0,
    ensures
        forall|x: Seq<char>| #[trigger] names_have(names.drop_last(), x) ==> names_have(names, x),
        forall|x: Seq<char>|
            #[trigger] names_have(names, x) && x != names.last()@ ==> names_have(
                names.drop_last(),
                x,
            ),
{
    assert forall|x: Seq<char>| #[trigger] names_have(names.drop_last(), x) implies names_have(
        names,
        x,
    ) by {
        let j = choose|j: int| 0 <= j < names.len() - 1 && (#[trigger] names.drop_last()[j])@ == x;
        assert(names[j]@ == x);
    }
    assert forall|x: Seq<char>| #[trigger] names_have(names, x) && x != names.last()@ implies names_have(
        names.drop_last(),
        x,
    ) by {
        let j = choose|j: int| 0 <= j < names.len() && (#[trigger] names[j])@ == x;
        assert(names.drop_last()[j]@ == x);
    }
}

/// Whether `ast` declares a macro named `name`.
pub open spec fn declared(ast: ast::Program, name: Seq<char>) -> bool {
    ast::macros_have(macro_entries(ast.macros), name)
}

/// Whether `definition` is one of the macros of `ast`.
pub open spec fn is_definition_in(ast: ast::Program, definition: ast::Macro) -> bool {
    exists|i: int|
        0 <= i < macro_entries(ast.macros).len() && (#[trigger] macro_entries(ast.macros)[i]).1
            == definition
}

/// Whether each of the `compiled` macros is a macro of `ast`, compiled from
/// its body given the macros compiled before it.
pub open spec fn compiled_in_order(ast: ast::Program, compiled: Seq<CompiledView>) -> bool {
    forall|k: int|
        0 <= k < compiled.len() ==> is_definition_in(ast, (#[trigger] compiled[k]).0)
            && compiled[k].1 == body_compiled(
            compiled.take(k),
            ast::code_entries(compiled[k].0.instr),
        )
}

/// The code of a body being compiled, as plain values: its instructions so
/// far, and the labels of its macro calls paired with where their expansions
/// start.
pub type CodeState = (Seq<(Seq<char>, BuiltinView)>, Seq<(Seq<char>, Seq<char>)>);

/// The code being built, as plain values.
pub open spec fn code_state(code: WorkingCode) -> CodeState {
    (builtins_view(code.spec_program()@), code.spec_expanded_labels())
}

/// The code after a call of the macro `name` with `arguments`, made by the
/// instruction labelled `label`, whose exits lead to `exits`, and which
/// calls a macro of kind `kind`: where the first compiled macro of that
/// name is of that kind, its expansion is added and the call's label leads
/// to where the expansion starts; otherwise the code is unchanged.
pub open spec fn call_step(
    compiled: Seq<CompiledView>,
    state: CodeState,
    name: Seq<char>,
    arguments: Seq<ast::MacroArgument>,
    label: Seq<char>,
    exits: (Seq<char>, Seq<char>, Seq<char>),
    kind: ast::MacroType,
) -> CodeState {
    match first_compiled(compiled, name) {
        Some(k) => if compiled[k].0.macro_type == kind {
            let program = compiled[k].1;
            let macro_name = compiled[k].0.name.content@;
            (
                inserted(
                    state.0,
                    expansion(
                        program,
                        macro_name,
                        label,
                        exits,
                        param_pairs(compiled[k].0.parameters@, arguments),
                    ),
                ),
                state.1.push(
                    (
                        label,
                        expanded_label(
                            program,
                            macro_name,
                            label,
                            exits,
                            view_first_label(program),
                        ),
                    ),
                ),
            )
        } else {
            state
        },
        None => state,
    }
}

/// The code after compiling the instruction `instruction`, given the macros
/// compiled.
pub open spec fn instruction_step(
    compiled: Seq<CompiledView>,
    state: CodeState,
    instruction: ast::Instruction,
) -> CodeState {
    match instruction.instruction_type {
        ast::InstructionType::Operation(operation) => match operation.oper_type {
            ast::OperationType::Macro(name, arguments) => call_step(
                compiled,
                state,
                name.content@,
                arguments@,
                instruction.label.content@,
                ("true"@, "false"@, operation.next_label.content@),
                ast::MacroType::Operation,
            ),
            ast::OperationType::BuiltIn(..) => (
                insert_view(state.0, compiled_builtin(instruction)),
                state.1,
            ),
        },
        ast::InstructionType::Test(test) => match test.test_type {
            ast::TestType::Macro(name, arguments) => call_step(
                compiled,
                state,
                name.content@,
                arguments@,
                instruction.label.content@,
                (test.next_true_label.content@, test.next_false_label.content@, "?"@),
                ast::MacroType::Test,
            ),
            ast::TestType::BuiltIn(..) => (
                insert_view(state.0, compiled_builtin(instruction)),
                state.1,
            ),
        },
    }
}

/// The code after compiling the instructions of `code` in turn, given the
/// macros compiled.
pub open spec fn body_steps(
    compiled: Seq<CompiledView>,
    code: Seq<(String, ast::Instruction)>,
) -> CodeState
    decreases code.len(),
{
    if code.len() == 0 {
        (Seq::empty(), Seq::empty())
    } else {
        instruction_step(compiled, body_steps(compiled, code.drop_last()), code.last().1)
    }
}

/// The instructions that compiling the body `code` gives, given the macros
/// compiled: each in turn, with the jumps to its macro calls sent to where
/// their expansions start.
pub open spec fn body_compiled(
    compiled: Seq<CompiledView>,
    code: Seq<(String, ast::Instruction)>,
) -> Seq<(Seq<char>, BuiltinView)> {
    relabelled(body_steps(compiled, code).0, body_steps(compiled, code).1)
}

/// Whether the body of the macro `caller` of `ast` has an instruction that
/// calls the macro `callee`.
pub open spec fn calls(ast: ast::Program, caller: Seq<char>, callee: Seq<char>) -> bool {
    exists|i: int, j: int|
        #![trigger macro_entries(ast.macros)[i], ast::code_entries(macro_entries(ast.macros)[i].1.instr)[j]]
        0 <= i < macro_entries(ast.macros).len() && macro_entries(ast.macros)[i].0@ == caller && 0
            <= j < ast::code_entries(macro_entries(ast.macros)[i].1.instr).len() && call_name(
            ast::code_entries(macro_entries(ast.macros)[i].1.instr)[j].1,
        ) == Some(callee)
}

/// Whether `path` is a chain of calls from the macro `from` to the macro
/// `to`: each macro on it calls the next.
pub open spec fn is_call_path(
    ast: ast::Program,
    path: Seq<Seq<char>>,
    from: Seq<char>,
    to: Seq<char>,
) -> bool {
    &&& path.len() > 0
    &&& path[0] == from
    &&& path.last() == to
    &&& forall|i: int| 0 <= i < path.len() - 1 ==> calls(ast, #[trigger] path[i], path[i + 1])
}

/// Whether a chain of calls leads from the macro `from` to the macro `to`
/// (an empty one where they are the same).
pub open spec fn reaches(ast: ast::Program, from: Seq<char>, to: Seq<char>) -> bool {
    exists|path: Seq<Seq<char>>| #[trigger] is_call_path(ast, path, from, to)
}

/// Whether each macro that a compiled macro calls, and that `ast` declares,
/// was compiled before it, unless a chain of calls leads from that macro
/// back to the caller (a recursive call).
pub open spec fn callees_first(ast: ast::Program, compiled: Seq<CompiledView>) -> bool {
    forall|k: int, j: int|
        #![trigger compiled[k], ast::code_entries(compiled[k].0.instr)[j]]
        0 <= k < compiled.len() && 0 <= j < ast::code_entries(
            compiled[k].0.instr,
        ).len() && call_name(ast::code_entries(compiled[k].0.instr)[j].1) is Some
            && declared(
            ast,
            call_name(ast::code_entries(compiled[k].0.instr)[j].1)->0,
        ) ==> first_compiled(
            compiled.take(k),
            call_name(ast::code_entries(compiled[k].0.instr)[j].1)->0,
        ) is Some || reaches(
            ast,
            call_name(ast::code_entries(compiled[k].0.instr)[j].1)->0,
            compiled[k].0.name.content@,
        )
}

/// Whether the callers `waiting` for a macro to be compiled, followed by the
/// macro `current` being compiled, each call the next.
pub open spec fn chain_ok(ast: ast::Program, waiting: Seq<String>, current: Seq<char>) -> bool {
    forall|j: int|
        0 <= j < waiting.len() ==> calls(
            ast,
            (#[trigger] waiting[j])@,
            names_view(waiting).push(current)[j + 1],
        )
}

/// From a waiting caller, a chain of calls leads to the macro being
/// compiled.
pub(crate) proof fn lemma_chain_reaches(ast: ast::Program, waiting: Seq<String>, current: Seq<char>, j: int)
    requires
        chain_ok(ast, waiting, current),
        0 <= j < waiting.len(),
    ensures
        reaches(ast, waiting[j]@, current),
{
    let path = names_view(waiting).push(current).skip(j);
    assert forall|i: int| 0 <= i < path.len() - 1 implies calls(
        ast,
        #[trigger] path[i],
        path[i + 1],
    ) by {
        assert(path[i] == waiting[j + i]@);
        assert(path[i + 1] == names_view(waiting).push(current)[j + i + 1]);
    }
    assert(is_call_path(ast, path, waiting[j]@, current));
}

/// The same macro is reached from itself.
pub(crate) proof fn lemma_reaches_self(ast: ast::Program, name: Seq<char>)
    ensures
        reaches(ast, name, name),
{
    assert(is_call_path(ast, seq![name], name, name));
}

/// Whether `program` is what expanding `ast` gives, with the macros compiled
/// as `compiled` says: every declared macro is compiled, each from its body
/// given the macros compiled before it (which hold every macro it calls but
/// those that lead back to it), and `program` is `main` compiled given all
/// of them.
pub open spec fn expansion_of(
    ast: ast::Program,
    compiled: Seq<CompiledView>,
    program: Seq<(Seq<char>, BuiltinView)>,
) -> bool {
    &&& compiled_in_order(ast, compiled)
    &&& callees_first(ast, compiled)
    &&& forall|x: Seq<char>| declared(ast, x) ==> first_compiled(compiled, x) is Some
    &&& program == body_compiled(compiled, ast::code_entries(ast.main.code))
}

/// Whether `first_compiled` finds, in `a` and in `b`, the same compiled macro
/// for `name`, or none in both.
pub open spec fn same_found(a: Seq<CompiledView>, b: Seq<CompiledView>, name: Seq<char>) -> bool {
    match (first_compiled(a, name), first_compiled(b, name)) {
        (None, None) => true,
        (Some(i), Some(j)) => a[i] == b[j],
        _ => false,
    }
}

/// Compiling a body gives the same given two lists of compiled macros that
/// agree on every macro that it calls.
pub(crate) proof fn lemma_body_steps_congruent(
    a: Seq<CompiledView>,
    b: Seq<CompiledView>,
    code: Seq<(String, ast::Instruction)>,
)
    requires
        forall|j: int|
            0 <= j < code.len() && (#[trigger] call_name(code[j].1)) is Some ==> same_found(
                a,
                b,
                call_name(code[j].1)->0,
            ),
    ensures
        body_steps(a, code) == body_steps(b, code),
    decreases code.len(),
{
    if code.len() > 0 {
        let shorter = code.drop_last();
        assert forall|j: int|
            0 <= j < shorter.len() && (#[trigger] call_name(shorter[j].1)) is Some implies same_found(
            a,
            b,
            call_name(shorter[j].1)->0,
        ) by {
            assert(shorter[j] == code[j]);
        }
        lemma_body_steps_congruent(a, b, shorter);
        assert(call_name(code[code.len() - 1].1) == call_name(code.last().1));
    }
}

/// Whether no macro of `ast` leads back to itself through the macros it
/// calls.
pub open spec fn no_recursion(ast: ast::Program) -> bool {
    forall|x: Seq<char>, y: Seq<char>| #[trigger] calls(ast, x, y) ==> !reaches(ast, y, x)
}

/// In a syntax tree whose macros are stored under their own names, a
/// definition is the one declared under its name.
pub(crate) proof fn lemma_definition_named(
    ast: ast::Program,
    definition: ast::Macro,
    other: ast::Macro,
)
    requires
        crate::compiler::parser::program_wf(ast),
        is_definition_in(ast, definition),
        is_definition_in(ast, other),
        definition.name.content@ == other.name.content@,
    ensures
        definition == other,
        declared(ast, definition.name.content@),
{
    let entries = macro_entries(ast.macros);
    let i = choose|i: int| 0 <= i < entries.len() && (#[trigger] entries[i]).1 == definition;
    let j = choose|j: int| 0 <= j < entries.len() && (#[trigger] entries[j]).1 == other;
    assert(entries[i].0@ == entries[i].1.name.content@);
    assert(entries[j].0@ == entries[j].1.name.content@);
    if i < j {
        assert(entries[i].0@ != entries[j].0@);
    } else if j < i {
        assert(entries[j].0@ != entries[i].0@);
    }
}

/// Where every compiled macro is a definition of `ast`, a name that is found
/// among them is declared.
pub(crate) proof fn lemma_found_declared(ast: ast::Program, compiled: Seq<CompiledView>, name: Seq<char>)
    requires
        crate::compiler::parser::program_wf(ast),
        compiled_in_order(ast, compiled),
        first_compiled(compiled, name) is Some,
    ensures
        declared(ast, name),
{
    lemma_first_compiled_found(compiled, name);
    let k = first_compiled(compiled, name)->0;
    assert(is_definition_in(ast, compiled[k].0));
    lemma_definition_named(ast, compiled[k].0, compiled[k].0);
}

/// Without recursion, the first compiled macro of a name is the same in any
/// two lists of compiled macros that expansion can give.
pub(crate) proof fn lemma_compiled_unique(
    ast: ast::Program,
    c1: Seq<CompiledView>,
    c2: Seq<CompiledView>,
    k: int,
)
    requires
        crate::compiler::parser::program_wf(ast),
        no_recursion(ast),
        compiled_in_order(ast, c1),
        callees_first(ast, c1),
        compiled_in_order(ast, c2),
        callees_first(ast, c2),
        forall|x: Seq<char>| declared(ast, x) ==> first_compiled(c2, x) is Some,
        0 <= k < c1.len(),
        first_compiled(c1, c1[k].0.name.content@) == Some(k),
    ensures
        first_compiled(c2, c1[k].0.name.content@) is Some,
        c1[k] == c2[first_compiled(c2, c1[k].0.name.content@)->0],
    decreases k,
{
    let x = c1[k].0.name.content@;
    assert(is_definition_in(ast, c1[k].0));
    lemma_definition_named(ast, c1[k].0, c1[k].0);
    let k2 = first_compiled(c2, x)->0;
    lemma_first_compiled_found(c2, x);
    assert(is_definition_in(ast, c2[k2].0));
    lemma_definition_named(ast, c1[k].0, c2[k2].0);
    let body = ast::code_entries(c1[k].0.instr);
    let a = c1.take(k);
    let b = c2.take(k2);
    let entries = macro_entries(ast.macros);
    let e = choose|e: int| 0 <= e < entries.len() && (#[trigger] entries[e]).1 == c1[k].0;
    assert(entries[e].0@ == entries[e].1.name.content@);
    assert forall|j: int|
        0 <= j < body.len() && (#[trigger] call_name(body[j].1)) is Some implies same_found(
        a,
        b,
        call_name(body[j].1)->0,
    ) by {
        let c = call_name(body[j].1)->0;
        assert(calls(ast, x, c)) by {
            assert(ast::code_entries(entries[e].1.instr)[j] == body[j]);
        }
        assert(ast::code_entries(c1[k].0.instr)[j] == body[j]);
        assert(ast::code_entries(c2[k2].0.instr)[j] == body[j]);
        if declared(ast, c) {
            assert(!reaches(ast, c, x));
            assert(first_compiled(a, c) is Some);
            assert(first_compiled(b, c) is Some);
            assert(compiled_extends(c1, a));
            assert(compiled_extends(c2, b));
            lemma_first_compiled_kept(c1, a, c);
            lemma_first_compiled_kept(c2, b, c);
            lemma_first_compiled_found(a, c);
            let i = first_compiled(a, c)->0;
            lemma_first_compiled_found(c1, c);
            assert(c1[i] == a[i]);
            lemma_compiled_unique(ast, c1, c2, i);
            lemma_first_compiled_found(b, c);
            assert(c2[first_compiled(b, c)->0] == b[first_compiled(b, c)->0]);
        } else {
            if first_compiled(a, c) is Some {
                assert(compiled_extends(c1, a));
                lemma_first_compiled_kept(c1, a, c);
                lemma_found_declared(ast, c1, c);
            }
            if first_compiled(b, c) is Some {
                assert(compiled_extends(c2, b));
                lemma_first_compiled_kept(c2, b, c);
                lemma_found_declared(ast, c2, c);
            }
        }
    }
    lemma_body_steps_congruent(a, b, body);
}

/// Without recursive macros, expanding a syntax tree (whose macros are
/// stored under their own names) gives one program, whatever the order in
/// which its macros are compiled.
pub proof fn lemma_expansion_unique(
    ast: ast::Program,
    c1: Seq<CompiledView>,
    c2: Seq<CompiledView>,
    p1: Seq<(Seq<char>, BuiltinView)>,
    p2: Seq<(Seq<char>, BuiltinView)>,
)
    requires
        crate::compiler::parser::program_wf(ast),
        no_recursion(ast),
        expansion_of(ast, c1, p1),
        expansion_of(ast, c2, p2),
    ensures
        p1 == p2,
{
    let main = ast::code_entries(ast.main.code);
    assert forall|j: int|
        0 <= j < main.len() && (#[trigger] call_name(main[j].1)) is Some implies same_found(
        c1,
        c2,
        call_name(main[j].1)->0,
    ) by {
        let c = call_name(main[j].1)->0;
        if declared(ast, c) {
            lemma_first_compiled_found(c1, c);
            lemma_compiled_unique(ast, c1, c2, first_compiled(c1, c)->0);
        } else {
            if first_compiled(c1, c) is Some {
                lemma_found_declared(ast, c1, c);
            }
            if first_compiled(c2, c) is Some {
                lemma_found_declared(ast, c2, c);
            }
        }
    }
    lemma_body_steps_congruent(c1, c2, main);
}

/// Whether a call of the macro `callee` with `arguments`, made by an
/// instruction that calls macros of kind `kind`, is well made: `ast`
/// declares the macro, of that kind, with as many parameters as there are
/// arguments, and every argument is a register.
pub open spec fn call_ok(
    ast: ast::Program,
    callee: Seq<char>,
    arguments: Seq<ast::MacroArgument>,
    kind: ast::MacroType,
) -> bool {
    exists|i: int|
        0 <= i < macro_entries(ast.macros).len() && (#[trigger] macro_entries(ast.macros)[i]).0@
            == callee && macro_entries(ast.macros)[i].1.macro_type == kind && macro_entries(
            ast.macros,
        )[i].1.parameters@.len() == arguments.len() && forall|j: int|
            0 <= j < arguments.len() ==> (#[trigger] arguments[j]) is Register
}

/// Whether the instruction `instruction` of a body of kind `kind` (`None`
/// for `main`), whose instructions are `body`, is well made: its jumps are
/// allowed, and its macro call, if it makes one, is well made.
pub open spec fn instruction_ok(
    ast: ast::Program,
    kind: Option<ast::MacroType>,
    instruction: ast::Instruction,
    body: Seq<(String, ast::Instruction)>,
) -> bool {
    &&& jump_errors(kind, instruction, body).len() == 0
    &&& match instruction.instruction_type {
        ast::InstructionType::Operation(operation) => match operation.oper_type {
            ast::OperationType::Macro(name, arguments) => call_ok(
                ast,
                name.content@,
                arguments@,
                ast::MacroType::Operation,
            ),
            ast::OperationType::BuiltIn(..) => true,
        },
        ast::InstructionType::Test(test) => match test.test_type {
            ast::TestType::Macro(name, arguments) => call_ok(
                ast,
                name.content@,
                arguments@,
                ast::MacroType::Test,
            ),
            ast::TestType::BuiltIn(..) => true,
        },
    }
}

/// Whether every instruction of the body `body`, of kind `kind`, is well
/// made.
pub open spec fn body_ok(
    ast: ast::Program,
    kind: Option<ast::MacroType>,
    body: Seq<(String, ast::Instruction)>,
) -> bool {
    forall|j: int| 0 <= j < body.len() ==> instruction_ok(ast, kind, (#[trigger] body[j]).1, body)
}

/// Whether the bodies of the compiled macros of `after` that are not in
/// `before` are well made.
pub open spec fn new_bodies_ok(
    ast: ast::Program,
    before: Seq<CompiledView>,
    after: Seq<CompiledView>,
) -> bool {
    forall|k: int|
        before.len() <= k < after.len() ==> body_ok(
            ast,
            Some((#[trigger] after[k]).0.macro_type),
            ast::code_entries(after[k].0.instr),
        )
}

/// Whether every body of `ast`, `main` and each macro, is well made.
pub open spec fn program_valid(ast: ast::Program) -> bool {
    &&& body_ok(ast, None, ast::code_entries(ast.main.code))
    &&& forall|i: int|
        0 <= i < macro_entries(ast.macros).len() ==> body_ok(
            ast,
            Some((#[trigger] macro_entries(ast.macros)[i]).1.macro_type),
            ast::code_entries(macro_entries(ast.macros)[i].1.instr),
        )
}

/// The arguments of a call raise no type error exactly when the first `n`
/// of them are registers.
pub(crate) proof fn lemma_argument_type_errors_empty(
    name: ast::Symbol,
    args: Seq<ast::MacroArgument>,
    n: nat,
)
    requires
        n <= args.len(),
    ensures
        (argument_type_errors(name, args, n).len() == 0) == (forall|j: int|
            0 <= j < n ==> (#[trigger] args[j]) is Register),
    decreases n,
{
    if n > 0 {
        lemma_argument_type_errors_empty(name, args, (n - 1) as nat);
    }
}

/// Where the macro called is among the compiled ones, the call is well made
/// exactly when the first of that name is of the call's kind, has as many
/// parameters as the call has arguments, and every argument is a register.
pub(crate) proof fn lemma_call_ok_found(
    ast: ast::Program,
    compiled: Seq<CompiledView>,
    callee: Seq<char>,
    arguments: Seq<ast::MacroArgument>,
    kind: ast::MacroType,
)
    requires
        crate::compiler::parser::program_wf(ast),
        compiled_in_order(ast, compiled),
        first_compiled(compiled, callee) is Some,
    ensures
        call_ok(ast, callee, arguments, kind) == ({
            let definition = compiled[first_compiled(compiled, callee)->0].0;
            &&& definition.macro_type == kind
            &&& definition.parameters@.len() == arguments.len()
            &&& forall|j: int| 0 <= j < arguments.len() ==> (#[trigger] arguments[j]) is Register
        }),
{
    lemma_first_compiled_found(compiled, callee);
    let definition = compiled[first_compiled(compiled, callee)->0].0;
    assert(is_definition_in(ast, definition));
    let entries = macro_entries(ast.macros);
    let i0 = choose|i: int| 0 <= i < entries.len() && (#[trigger] entries[i]).1 == definition;
    assert(entries[i0].0@ == entries[i0].1.name.content@);
    if call_ok(ast, callee, arguments, kind) {
        let i = choose|i: int|
            0 <= i < entries.len() && (#[trigger] entries[i]).0@ == callee && entries[i].1.macro_type
                == kind && entries[i].1.parameters@.len() == arguments.len() && forall|j: int|
                0 <= j < arguments.len() ==> (#[trigger] arguments[j]) is Register;
        if i < i0 {
            assert(entries[i].0@ != entries[i0].0@);
        } else if i0 < i {
            assert(entries[i0].0@ != entries[i].0@);
        }
    }
}

/// A call of a macro that is not declared is not well made.
pub(crate) proof fn lemma_call_ok_declared(
    ast: ast::Program,
    callee: Seq<char>,
    arguments: Seq<ast::MacroArgument>,
    kind: ast::MacroType,
)
    requires
        call_ok(ast, callee, arguments, kind),
    ensures
        declared(ast, callee),
{
    let i = choose|i: int|
        0 <= i < macro_entries(ast.macros).len() && (#[trigger] macro_entries(ast.macros)[i]).0@
            == callee && macro_entries(ast.macros)[i].1.macro_type == kind && macro_entries(
            ast.macros,
        )[i].1.parameters@.len() == arguments.len() && forall|j: int|
            0 <= j < arguments.len() ==> (#[trigger] arguments[j]) is Register;
    assert(macro_entries(ast.macros)[i].0@ == callee);
}

/// The bodies compiled from `a` to `c` are well made exactly when those from
/// `a` to `b` and those from `b` to `c` are.
pub(crate) proof fn lemma_new_bodies_split(
    ast: ast::Program,
    a: Seq<CompiledView>,
    b: Seq<CompiledView>,
    c: Seq<CompiledView>,
)
    requires
        compiled_extends(b, a),
        compiled_extends(c, b),
    ensures
        new_bodies_ok(ast, a, c) == (new_bodies_ok(ast, a, b) && new_bodies_ok(ast, b, c)),
{
    if new_bodies_ok(ast, a, c) {
        assert forall|k: int| a.len() <= k < b.len() implies body_ok(
            ast,
            Some((#[trigger] b[k]).0.macro_type),
            ast::code_entries(b[k].0.instr),
        ) by {
            assert(c[k] == b[k]);
        }
    }
    if new_bodies_ok(ast, a, b) && new_bodies_ok(ast, b, c) {
        assert forall|k: int| a.len() <= k < c.len() implies body_ok(
            ast,
            Some((#[trigger] c[k]).0.macro_type),
            ast::code_entries(c[k].0.instr),
        ) by {
            if k < b.len() {
                assert(c[k] == b[k]);
            }
        }
    }
}

/// Where every declared macro is compiled, each compiled macro being a
/// definition of `ast`, the program is well made exactly when `main` and
/// every compiled body are.
pub(crate) proof fn lemma_program_valid(ast: ast::Program, compiled: Seq<CompiledView>)
    requires
        crate::compiler::parser::program_wf(ast),
        compiled_in_order(ast, compiled),
        forall|x: Seq<char>| declared(ast, x) ==> first_compiled(compiled, x) is Some,
    ensures
        program_valid(ast) == (body_ok(ast, None, ast::code_entries(ast.main.code))
            && new_bodies_ok(ast, Seq::empty(), compiled)),
{
    let entries = macro_entries(ast.macros);
    if program_valid(ast) {
        assert forall|k: int| 0 <= k < compiled.len() implies body_ok(
            ast,
            Some((#[trigger] compiled[k]).0.macro_type),
            ast::code_entries(compiled[k].0.instr),
        ) by {
            assert(is_definition_in(ast, compiled[k].0));
            let i = choose|i: int| 0 <= i < entries.len() && (#[trigger] entries[i]).1 == compiled[k].0;
        }
    }
    if body_ok(ast, None, ast::code_entries(ast.main.code)) && new_bodies_ok(
        ast,
        Seq::empty(),
        compiled,
    ) {
        assert forall|i: int| 0 <= i < entries.len() implies body_ok(
            ast,
            Some((#[trigger] entries[i]).1.macro_type),
            ast::code_entries(entries[i].1.instr),
        ) by {
            assert(entries[i].0@ == entries[i].1.name.content@);
            assert(declared(ast, entries[i].0@));
            let k = first_compiled(compiled, entries[i].0@)->0;
            lemma_first_compiled_found(compiled, entries[i].0@);
            assert(is_definition_in(ast, compiled[k].0));
            assert(is_definition_in(ast, entries[i].1));
            lemma_definition_named(ast, compiled[k].0, entries[i].1);
        }
    }
}

/// Whether each macro that a compiled macro of `after` (past those of
/// `before`) calls, and that `ast` declares, was compiled before it.
pub open spec fn callees_before(
    ast: ast::Program,
    before: Seq<CompiledView>,
    after: Seq<CompiledView>,
) -> bool {
    forall|k: int, j: int|
        #![trigger after[k], ast::code_entries(after[k].0.instr)[j]]
        before.len() <= k < after.len() && 0 <= j < ast::code_entries(after[k].0.instr).len()
            && call_name(ast::code_entries(after[k].0.instr)[j].1) is Some && declared(
            ast,
            call_name(ast::code_entries(after[k].0.instr)[j].1)->0,
        ) ==> first_compiled(
            after.take(k),
            call_name(ast::code_entries(after[k].0.instr)[j].1)->0,
        ) is Some
}

/// Callees compiled first over two stretches of compiled macros are
/// compiled first over both.
pub(crate) proof fn lemma_callees_before_trans(
    ast: ast::Program,
    a: Seq<CompiledView>,
    b: Seq<CompiledView>,
    c: Seq<CompiledView>,
)
    requires
        compiled_extends(b, a),
        compiled_extends(c, b),
        callees_before(ast, a, b),
        callees_before(ast, b, c),
    ensures
        callees_before(ast, a, c),
{
    assert forall|k: int, j: int|
        a.len() <= k < c.len() && 0 <= j < ast::code_entries((#[trigger] c[k]).0.instr).len()
            && call_name((#[trigger] ast::code_entries(c[k].0.instr)[j]).1) is Some && declared(
            ast,
            call_name(ast::code_entries(c[k].0.instr)[j].1)->0,
        ) implies first_compiled(
        c.take(k),
        call_name(ast::code_entries(c[k].0.instr)[j].1)->0,
    ) is Some by {
        if k < b.len() {
            assert(c[k] == b[k]);
            assert(c.take(k) =~= b.take(k));
        }
    }
}

/// Where each declared macro that a macro calls was compiled before it,
/// first compiled macros come after those they call.
pub(crate) proof fn lemma_calls_order(
    ast: ast::Program,
    compiled: Seq<CompiledView>,
    x: Seq<char>,
    y: Seq<char>,
)
    requires
        crate::compiler::parser::program_wf(ast),
        compiled_in_order(ast, compiled),
        callees_before(ast, Seq::empty(), compiled),
        forall|z: Seq<char>| declared(ast, z) ==> first_compiled(compiled, z) is Some,
        calls(ast, x, y),
        declared(ast, y),
    ensures
        first_compiled(compiled, y)->0 < first_compiled(compiled, x)->0,
{
    let entries = macro_entries(ast.macros);
    let (i, j) = choose|i: int, j: int|
        #![trigger entries[i], ast::code_entries(entries[i].1.instr)[j]]
        0 <= i < entries.len() && entries[i].0@ == x && 0 <= j < ast::code_entries(
            entries[i].1.instr,
        ).len() && call_name(ast::code_entries(entries[i].1.instr)[j].1) == Some(y);
    assert(entries[i].0@ == entries[i].1.name.content@);
    assert(declared(ast, x));
    let k = first_compiled(compiled, x)->0;
    lemma_first_compiled_found(compiled, x);
    assert(is_definition_in(ast, compiled[k].0));
    assert(is_definition_in(ast, entries[i].1));
    lemma_definition_named(ast, compiled[k].0, entries[i].1);
    assert(ast::code_entries(compiled[k].0.instr)[j] == ast::code_entries(entries[i].1.instr)[j]);
    let a = compiled.take(k);
    assert(first_compiled(a, y) is Some);
    assert(compiled_extends(compiled, a));
    lemma_first_compiled_kept(compiled, a, y);
    lemma_first_compiled_found(a, y);
}

/// Along a chain of calls, first compiled macros come no later than the
/// macros that lead to them.
pub(crate) proof fn lemma_path_order(
    ast: ast::Program,
    compiled: Seq<CompiledView>,
    path: Seq<Seq<char>>,
    from: Seq<char>,
    to: Seq<char>,
)
    requires
        crate::compiler::parser::program_wf(ast),
        compiled_in_order(ast, compiled),
        callees_before(ast, Seq::empty(), compiled),
        forall|z: Seq<char>| declared(ast, z) ==> first_compiled(compiled, z) is Some,
        is_call_path(ast, path, from, to),
        declared(ast, to),
    ensures
        declared(ast, from),
        first_compiled(compiled, to)->0 <= first_compiled(compiled, from)->0,
    decreases path.len(),
{
    if path.len() > 1 {
        let rest = path.drop_first();
        assert forall|i: int| 0 <= i < rest.len() - 1 implies calls(
            ast,
            #[trigger] rest[i],
            rest[i + 1],
        ) by {
            assert(rest[i] == path[i + 1]);
            assert(rest[i + 1] == path[i + 2]);
        }
        assert(is_call_path(ast, rest, path[1], to));
        lemma_path_order(ast, compiled, rest, path[1], to);
        assert(calls(ast, path[0], path[1]));
        let entries = macro_entries(ast.macros);
        let (i, j) = choose|i: int, j: int|
            #![trigger entries[i], ast::code_entries(entries[i].1.instr)[j]]
            0 <= i < entries.len() && entries[i].0@ == from && 0 <= j < ast::code_entries(
                entries[i].1.instr,
            ).len() && call_name(ast::code_entries(entries[i].1.instr)[j].1) == Some(path[1]);
        assert(declared(ast, from));
        lemma_calls_order(ast, compiled, from, path[1]);
    }
}

/// Where each declared macro that a macro calls was compiled before it, no
/// macro leads back to itself.
pub(crate) proof fn lemma_no_recursion(ast: ast::Program, compiled: Seq<CompiledView>)
    requires
        crate::compiler::parser::program_wf(ast),
        compiled_in_order(ast, compiled),
        callees_before(ast, Seq::empty(), compiled),
        forall|z: Seq<char>| declared(ast, z) ==> first_compiled(compiled, z) is Some,
    ensures
        no_recursion(ast),
{
    assert forall|x: Seq<char>, y: Seq<char>| #[trigger] calls(ast, x, y) implies !reaches(
        ast,
        y,
        x,
    ) by {
        if reaches(ast, y, x) {
            let path = choose|path: Seq<Seq<char>>| #[trigger] is_call_path(ast, path, y, x);
            let entries = macro_entries(ast.macros);
            let (i, j) = choose|i: int, j: int|
                #![trigger entries[i], ast::code_entries(entries[i].1.instr)[j]]
                0 <= i < entries.len() && entries[i].0@ == x && 0 <= j < ast::code_entries(
                    entries[i].1.instr,
                ).len() && call_name(ast::code_entries(entries[i].1.instr)[j].1) == Some(y);
            assert(declared(ast, x));
            lemma_path_order(ast, compiled, path, y, x);
            lemma_calls_order(ast, compiled, x, y);
        }
    }
}

} // verus!
