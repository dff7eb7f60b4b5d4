//! The errors that expanding a syntax tree raises, in the order in which
//! they are raised, as plain values.
//!
//! Expansion keeps, besides the errors, the names of the macros compiled so
//! far, the names of those still to compile (in the order of the set that
//! holds them) and the callers waiting for a macro to be compiled. Each
//! function below takes that progress and gives the progress after its part
//! of the work, with the errors that part raises. `fuel` bounds how deep
//! macros are compiled within each other; it is never less than the number
//! of macros still to compile, so it never runs out.

use crate::compiler::error::quoted_list;
use crate::compiler::error::{Error, ErrorCause};
use crate::compiler::expansor::error::RecursiveMacro;
use crate::compiler::expansor::compiled::{
    first_compiled,
    jump_errors,
    names_distinct,
    names_view,
    CompiledView,
};
use crate::compiler::expansor::errors::{call_errors, definition_named};
use crate::compiler::parser::ast::{self, macro_entries};
use crate::compiler::parser::grammar::{error_view, errors_view, ErrorView};
use crate::compiler::position::Span;
use vstd::prelude::*;

verus! {

/// The names of the macros compiled so far, those still to compile, and the
/// callers waiting for a macro to be compiled.
pub type Progress = (Seq<Seq<char>>, Seq<Seq<char>>, Seq<Seq<char>>);

/// The index of the last of `names` that is `name`.
pub open spec fn last_index(names: Seq<Seq<char>>, name: Seq<char>) -> int {
    choose|k: int|
        0 <= k < names.len() && names[k] == name && forall|j: int|
            k < j < names.len() ==> names[j] != name
}

/// The callers waiting from the last that is `name` on, or none where none
/// is.
pub open spec fn waiting_from_name(waiting: Seq<Seq<char>>, name: Seq<char>) -> Seq<Seq<char>> {
    if waiting.contains(name) {
        waiting.skip(last_index(waiting, name))
    } else {
        Seq::empty()
    }
}

/// The error for a call at `span` that would compile macros in a cycle:
/// the macros, from the one called to the caller.
pub open spec fn recursion_error(names: Seq<Seq<char>>, span: Span) -> ErrorView {
    ("Recursão detectada entre as macros: "@ + quoted_list(names, " e "@), Some(span))
}

/// The index of `name` among `names`, where it is.
pub open spec fn index_in(names: Seq<Seq<char>>, name: Seq<char>) -> int {
    choose|i: int| 0 <= i < names.len() && names[i] == name
}

/// `names` with `name` taken out by moving the last into its place.
pub open spec fn swap_removed(names: Seq<Seq<char>>, name: Seq<char>) -> Seq<Seq<char>> {
    names.update(index_in(names, name), names.last()).drop_last()
}

/// Compiling the macro `name`: its instructions in order, with the progress
/// they make; then it counts as compiled. Nothing happens where `ast`
/// declares no such macro.
pub closed spec fn macro_run(ast: ast::Program, progress: Progress, name: Seq<char>, fuel: nat) -> (
    Progress,
    Seq<ErrorView>,
)
    decreases fuel, 2nat, 0nat,
{
    if !ast::macros_have(macro_entries(ast.macros), name) {
        (progress, Seq::empty())
    } else {
        let definition = definition_named(ast, name);
        let body = ast::code_entries(definition.instr);
        let (after, errors) = body_run(
            ast,
            progress,
            Some(definition.macro_type),
            name,
            body,
            body.len() as int,
            fuel,
        );
        ((after.0.push(name), after.1, after.2), errors)
    }
}

/// Compiling the first `n` instructions of `body`, of kind `kind` (`None`
/// for `main`), in the body of `caller`.
pub closed spec fn body_run(
    ast: ast::Program,
    progress: Progress,
    kind: Option<ast::MacroType>,
    caller: Seq<char>,
    body: Seq<(String, ast::Instruction)>,
    n: int,
    fuel: nat,
) -> (Progress, Seq<ErrorView>)
    decreases fuel, 1nat, if n > 0 {
        n as nat
    } else {
        0nat
    },
{
    if n <= 0 {
        (progress, Seq::empty())
    } else {
        let (middle, first) = body_run(ast, progress, kind, caller, body, n - 1, fuel);
        let (after, last) = instruction_run(ast, middle, kind, caller, body[n - 1].1, body, fuel);
        (after, first + last)
    }
}

/// Compiling the instruction `instruction`: the errors of its jumps, then
/// its macro call, if it makes one.
pub closed spec fn instruction_run(
    ast: ast::Program,
    progress: Progress,
    kind: Option<ast::MacroType>,
    caller: Seq<char>,
    instruction: ast::Instruction,
    body: Seq<(String, ast::Instruction)>,
    fuel: nat,
) -> (Progress, Seq<ErrorView>)
    decreases fuel, 0nat, 1nat,
{
    let jumps = errors_view(jump_errors(kind, instruction, body));
    match instruction.instruction_type {
        ast::InstructionType::Operation(operation) => match operation.oper_type {
            ast::OperationType::Macro(name, arguments) => {
                let (after, errors) = call_run(
                    ast,
                    progress,
                    caller,
                    name,
                    arguments@,
                    ast::MacroType::Operation,
                    fuel,
                );
                (after, jumps + errors)
            },
            ast::OperationType::BuiltIn(..) => (progress, jumps),
        },
        ast::InstructionType::Test(test) => match test.test_type {
            ast::TestType::Macro(name, arguments) => {
                let (after, errors) = call_run(
                    ast,
                    progress,
                    caller,
                    name,
                    arguments@,
                    ast::MacroType::Test,
                    fuel,
                );
                (after, jumps + errors)
            },
            ast::TestType::BuiltIn(..) => (progress, jumps),
        },
    }
}

/// Compiling a call of the macro `name` made by `caller`: where the macro
/// is compiled, the errors of the call; where it is still to compile, it is
/// compiled first, with `caller` waiting; where it is declared but neither,
/// it is being compiled, and the call closes a cycle; otherwise it does not
/// exist.
pub closed spec fn call_run(
    ast: ast::Program,
    progress: Progress,
    caller: Seq<char>,
    name: ast::Symbol,
    arguments: Seq<ast::MacroArgument>,
    kind: ast::MacroType,
    fuel: nat,
) -> (Progress, Seq<ErrorView>)
    decreases fuel, 0nat, 0nat,
{
    let callee = name.content@;
    let errors = errors_view(call_errors(ast, name, arguments, kind));
    if progress.0.contains(callee) {
        (progress, errors)
    } else if progress.1.contains(callee) {
        let targets = swap_removed(progress.1, callee);
        if targets.len() < fuel {
            let (after, inner) = macro_run(
                ast,
                (progress.0, targets, progress.2.push(caller)),
                callee,
                targets.len(),
            );
            (
                (after.0, after.1, progress.2),
                inner + if after.0.contains(callee) {
                    errors
                } else {
                    Seq::empty()
                },
            )
        } else {
            (progress, Seq::empty())
        }
    } else if ast::macros_have(macro_entries(ast.macros), callee) {
        (
            progress,
            seq![recursion_error(waiting_from_name(progress.2, callee).push(caller), name.span)],
        )
    } else {
        (progress, errors)
    }
}

/// Compiling each macro still to compile, the last of the set first, until
/// none is left.
pub closed spec fn macros_run(ast: ast::Program, progress: Progress, fuel: nat) -> (
    Progress,
    Seq<ErrorView>,
)
    decreases fuel,
{
    if progress.1.len() == 0 || progress.1.len() >= fuel {
        (progress, Seq::empty())
    } else {
        let name = progress.1.last();
        let targets = progress.1.drop_last();
        let (after, first) = macro_run(ast, (progress.0, targets, progress.2), name, targets.len());
        if after.1.len() + 1 < fuel {
            let (rest, more) = macros_run(ast, after, after.1.len() + 1);
            (rest, first + more)
        } else {
            (after, first)
        }
    }
}

/// The macros of `ast` still to compile when expansion starts: every
/// declared one, the first declared last.
pub open spec fn initial_targets(ast: ast::Program) -> Seq<Seq<char>> {
    let entries = macro_entries(ast.macros);
    Seq::new(entries.len(), |i: int| entries[entries.len() - 1 - i].0@)
}

/// The errors that expanding `ast` raises, in order: those of compiling
/// every macro, then those of compiling `main`.
pub open spec fn expansion_errors(ast: ast::Program) -> Seq<ErrorView> {
    let start: Progress = (Seq::empty(), initial_targets(ast), Seq::empty());
    let (after, macros) = macros_run(ast, start, initial_targets(ast).len() + 1);
    let main = ast::code_entries(ast.main.code);
    macros + body_run(ast, after, None, "main"@, main, main.len() as int, after.1.len()).1
}


/// The names of the compiled macros, in order.
pub open spec fn compiled_names(compiled: Seq<CompiledView>) -> Seq<Seq<char>> {
    compiled.map_values(|entry: CompiledView| entry.0.name.content@)
}

/// A name is compiled exactly where the compiled names hold it.
pub proof fn lemma_compiled_names(compiled: Seq<CompiledView>, name: Seq<char>)
    ensures
        (first_compiled(compiled, name) is Some) == compiled_names(compiled).contains(name),
    decreases compiled.len(),
{
    if compiled.len() > 0 {
        let shorter = compiled.drop_last();
        lemma_compiled_names(shorter, name);
        let names = compiled_names(compiled);
        assert(compiled_names(shorter) =~= names.drop_last());
        if compiled.last().0.name.content@ == name {
            assert(names[names.len() - 1] == name);
        }
        if names.contains(name) && !compiled_names(shorter).contains(name) {
            let k = choose|k: int| 0 <= k < names.len() && names[k] == name;
            if k < names.len() - 1 {
                assert(compiled_names(shorter)[k] == name);
            }
        }
        if compiled_names(shorter).contains(name) {
            let k = choose|k: int|
                0 <= k < compiled_names(shorter).len() && compiled_names(shorter)[k] == name;
            assert(names[k] == name);
        }
    } else {
        assert(!compiled_names(compiled).contains(name));
    }
}

/// Errors one after the other, as plain values.
pub proof fn lemma_errors_view_add(a: Seq<Error>, b: Seq<Error>)
    ensures
        errors_view(a + b) == errors_view(a) + errors_view(b),
{
    assert(errors_view(a + b) =~= errors_view(a) + errors_view(b));
}

/// Taking a name out of distinct names by moving the last into its place,
/// as plain values.
pub proof fn lemma_swap_removed(items: Seq<String>, i: int)
    requires
        names_distinct(items),
        0 <= i < items.len(),
    ensures
        swap_removed(names_view(items), items[i]@) == names_view(
            items.update(i, items.last()).drop_last(),
        ),
        names_view(items).contains(items[i]@),
{
    let names = names_view(items);
    assert(names[i] == items[i]@);
    let j = index_in(names, items[i]@);
    if j != i {
        assert(names[j] == items[j]@);
        if j < i {
            assert(items[j]@ != items[i]@);
        } else {
            assert(items[i]@ != items[j]@);
        }
    }
    assert(swap_removed(names, items[i]@) =~= names_view(items.update(i, items.last()).drop_last()));
}

/// The last index of a name is the one after which it does not occur.
pub proof fn lemma_last_index(names: Seq<Seq<char>>, name: Seq<char>, k: int)
    requires
        0 <= k < names.len(),
        names[k] == name,
        forall|j: int| k < j < names.len() ==> names[j] != name,
    ensures
        last_index(names, name) == k,
{
    let l = last_index(names, name);
    if l != k {
        if l < k {
            assert(names[k] != name);
        } else {
            assert(names[l] != name);
        }
    }
}


/// A call of a compiled macro gives the errors of the call.
pub proof fn lemma_call_run_compiled(
    ast: ast::Program,
    progress: Progress,
    caller: Seq<char>,
    name: ast::Symbol,
    arguments: Seq<ast::MacroArgument>,
    kind: ast::MacroType,
    fuel: nat,
)
    requires
        progress.0.contains(name.content@),
    ensures
        call_run(ast, progress, caller, name, arguments, kind, fuel) == (
            progress,
            errors_view(call_errors(ast, name, arguments, kind)),
        ),
{
}

/// A call of a macro still to compile compiles it first, with the caller
/// waiting, then gives the errors of the call.
pub proof fn lemma_call_run_target(
    ast: ast::Program,
    progress: Progress,
    caller: Seq<char>,
    name: ast::Symbol,
    arguments: Seq<ast::MacroArgument>,
    kind: ast::MacroType,
    fuel: nat,
)
    requires
        !progress.0.contains(name.content@),
        progress.1.contains(name.content@),
        swap_removed(progress.1, name.content@).len() < fuel,
    ensures
        ({
            let targets = swap_removed(progress.1, name.content@);
            let (after, inner) = macro_run(
                ast,
                (progress.0, targets, progress.2.push(caller)),
                name.content@,
                targets.len(),
            );
            call_run(ast, progress, caller, name, arguments, kind, fuel) == (
                (after.0, after.1, progress.2),
                inner + if after.0.contains(name.content@) {
                    errors_view(call_errors(ast, name, arguments, kind))
                } else {
                    Seq::empty()
                },
            )
        }),
{
}

/// A call of a declared macro that is neither compiled nor still to compile
/// closes a cycle.
pub proof fn lemma_call_run_cycle(
    ast: ast::Program,
    progress: Progress,
    caller: Seq<char>,
    name: ast::Symbol,
    arguments: Seq<ast::MacroArgument>,
    kind: ast::MacroType,
    fuel: nat,
)
    requires
        !progress.0.contains(name.content@),
        !progress.1.contains(name.content@),
        ast::macros_have(macro_entries(ast.macros), name.content@),
    ensures
        call_run(ast, progress, caller, name, arguments, kind, fuel) == (
            progress,
            seq![
                recursion_error(
                    waiting_from_name(progress.2, name.content@).push(caller),
                    name.span,
                ),
            ],
        ),
{
}

/// A call of a macro that is not declared gives the errors of the call.
pub proof fn lemma_call_run_undeclared(
    ast: ast::Program,
    progress: Progress,
    caller: Seq<char>,
    name: ast::Symbol,
    arguments: Seq<ast::MacroArgument>,
    kind: ast::MacroType,
    fuel: nat,
)
    requires
        !progress.0.contains(name.content@),
        !progress.1.contains(name.content@),
        !ast::macros_have(macro_entries(ast.macros), name.content@),
    ensures
        call_run(ast, progress, caller, name, arguments, kind, fuel) == (
            progress,
            errors_view(call_errors(ast, name, arguments, kind)),
        ),
{
}

/// Compiling an instruction, unfolded.
pub proof fn lemma_instruction_run(
    ast: ast::Program,
    progress: Progress,
    kind: Option<ast::MacroType>,
    caller: Seq<char>,
    instruction: ast::Instruction,
    body: Seq<(String, ast::Instruction)>,
    fuel: nat,
)
    ensures
        instruction_run(ast, progress, kind, caller, instruction, body, fuel) == ({
            let jumps = errors_view(jump_errors(kind, instruction, body));
            match instruction.instruction_type {
                ast::InstructionType::Operation(operation) => match operation.oper_type {
                    ast::OperationType::Macro(name, arguments) => {
                        let (after, errors) = call_run(
                            ast,
                            progress,
                            caller,
                            name,
                            arguments@,
                            ast::MacroType::Operation,
                            fuel,
                        );
                        (after, jumps + errors)
                    },
                    ast::OperationType::BuiltIn(..) => (progress, jumps),
                },
                ast::InstructionType::Test(test) => match test.test_type {
                    ast::TestType::Macro(name, arguments) => {
                        let (after, errors) = call_run(
                            ast,
                            progress,
                            caller,
                            name,
                            arguments@,
                            ast::MacroType::Test,
                            fuel,
                        );
                        (after, jumps + errors)
                    },
                    ast::TestType::BuiltIn(..) => (progress, jumps),
                },
            }
        }),
{
}

/// Compiling no instruction changes nothing.
pub proof fn lemma_body_run_none(
    ast: ast::Program,
    progress: Progress,
    kind: Option<ast::MacroType>,
    caller: Seq<char>,
    body: Seq<(String, ast::Instruction)>,
    fuel: nat,
)
    ensures
        body_run(ast, progress, kind, caller, body, 0, fuel) == (progress, Seq::<ErrorView>::empty()),
{
}

/// Compiling one more instruction of a body.
pub proof fn lemma_body_run_next(
    ast: ast::Program,
    progress: Progress,
    kind: Option<ast::MacroType>,
    caller: Seq<char>,
    body: Seq<(String, ast::Instruction)>,
    n: int,
    fuel: nat,
)
    requires
        n > 0,
    ensures
        body_run(ast, progress, kind, caller, body, n, fuel) == ({
            let (middle, first) = body_run(ast, progress, kind, caller, body, n - 1, fuel);
            let (after, last) = instruction_run(ast, middle, kind, caller, body[n - 1].1, body, fuel);
            (after, first + last)
        }),
{
}

/// Compiling a macro, unfolded.
pub proof fn lemma_macro_run(ast: ast::Program, progress: Progress, name: Seq<char>, fuel: nat)
    ensures
        macro_run(ast, progress, name, fuel) == if !ast::macros_have(
            macro_entries(ast.macros),
            name,
        ) {
            (progress, Seq::<ErrorView>::empty())
        } else {
            let definition = definition_named(ast, name);
            let body = ast::code_entries(definition.instr);
            let (after, errors) = body_run(
                ast,
                progress,
                Some(definition.macro_type),
                name,
                body,
                body.len() as int,
                fuel,
            );
            ((after.0.push(name), after.1, after.2), errors)
        },
{
}

/// Compiling the macros still to compile, unfolded.
pub proof fn lemma_macros_run(ast: ast::Program, progress: Progress, fuel: nat)
    ensures
        macros_run(ast, progress, fuel) == if progress.1.len() == 0 || progress.1.len() >= fuel {
            (progress, Seq::<ErrorView>::empty())
        } else {
            let name = progress.1.last();
            let targets = progress.1.drop_last();
            let (after, first) = macro_run(ast, (progress.0, targets, progress.2), name, targets.len());
            if after.1.len() + 1 < fuel {
                let (rest, more) = macros_run(ast, after, after.1.len() + 1);
                (rest, first + more)
            } else {
                (after, first)
            }
        },
{
}


/// The error that a cycle raises, as plain values.
pub proof fn lemma_recursion_error_view(names: Vec<String>, span: Span)
    ensures
        error_view(
            Error {
                cause: ErrorCause::RecursiveMacro(RecursiveMacro { macro_names: names }),
                span: Some(span),
            },
        ) == recursion_error(names_view(names@), span),
{
}

} // verus!
