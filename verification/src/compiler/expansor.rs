//! Expanding macro calls into built-in instructions.
//!
//! Each macro is compiled once, in the order of declaration, except that a
//! macro that a macro being compiled calls is compiled first, right then. A
//! call is replaced by the called macro's instructions, relabelled
//! `caller-label.macro.label`, with the macro's parameters replaced by the
//! call's registers; the jumps that leave the macro go where the kind of the
//! call says (see [`macro_call`]).

pub mod artifacts;
pub mod compiled;
pub mod error;
pub mod errors;
pub mod label;
pub mod macro_call;
pub mod order;

use crate::compiler::error::{Diagnostics, Error, ErrorCause};
use crate::compiler::lexer::token::{BuiltInOperation, BuiltInTest};
use crate::compiler::parser::ast::{
    self,
    code_get_index,
    code_len,
    macro_entries,
    macros_contain,
    macros_get,
    macros_get_index,
    macros_len,
};
use crate::compiler::parser;
use crate::compiler::parser::extends;
use crate::interpreter::program::{
    builtin_view,
    builtins_view,
    BuiltinView,
    is_builtin,
    only_builtins,
    Instruction,
    InstructionKind,
    Operation,
    OperationKind,
    Program,
    Test,
    TestKind,
};
use artifacts::{
    insert_view,
    lemma_view_has_label,
    pairs_view,
    relabelled,
    renamed,
    PreCompiled,
    WorkingCode,
};
use compiled::{
    call_ok,
    lemma_argument_type_errors_empty,
    lemma_call_ok_declared,
    lemma_call_ok_found,
    lemma_new_bodies_split,
    lemma_no_recursion,
    lemma_program_valid,
    new_bodies_ok,
    no_recursion,
    body_ok,
    instruction_ok,
    program_valid,
    argument_count_errors,
    argument_register,
    argument_type_errors,
    body_compiled,
    body_steps,
    builtins_only,
    call_name,
    call_step,
    callees_before,
    callees_first,
    calls,
    chain_ok,
    code_state,
    compiled_builtin,
    compiled_builtins,
    compiled_distinct,
    compiled_extends,
    compiled_in_order,
    compiled_views,
    declared,
    expanded_label,
    expansion,
    expansion_of,
    first_compiled,
    inserted,
    instruction_step,
    is_builtin_instruction,
    is_definition_in,
    is_target,
    jump_errors,
    lemma_body_steps_stable,
    lemma_callees_before_trans,
    lemma_chain_reaches,
    lemma_first_compiled_found,
    lemma_first_compiled_kept,
    lemma_first_compiled_none_kept,
    lemma_pop_distinct,
    lemma_pop_names,
    lemma_reaches_self,
    lemma_swap_remove_distinct,
    lemma_swap_remove_names,
    names_distinct,
    names_have,
    names_view,
    param_pairs,
    reaches,
    view_first_label,
    CompiledView,
};
use errors::{
    body_errors,
    call_errors,
    instruction_errors,
    instructions_errors,
    lemma_compiled_errors,
    lemma_definition_named_at,
    lemma_errors_builtin,
    lemma_errors_call,
    lemma_errors_finish,
    lemma_errors_more,
    lemma_errors_none,
    lemma_errors_start,
    lemma_errors_step,
    lemma_found_definition,
    lemma_new_bodies_errors_split,
    new_bodies_errors,
    program_errors,
    recursion_reported,
    lemma_recursion_reported_split,
    cycles_named,
    is_call_cycle,
    lemma_argument_errors_no_cycle,
    lemma_cycles_named_append,
    lemma_cycles_named_trans,
    lemma_jump_errors_no_cycle,
    lemma_no_cycle_errors_concat,
    lemma_waiting_cycle,
    no_cycle_errors,
};
use error::{
    IncompatibleMacroType,
    MismatchedArgType,
    MismatchedArgsNumber,
    RecursiveMacro,
    UndefinedMacro,
};
use indexmap::{IndexMap, IndexSet};
use label::{is_false, is_true, validate_label};
use macro_call::{MacroCallExpansor, OperMacroCallExpansor, TestMacroCallExpansor};
use order::{
    lemma_body_run_next,
    lemma_body_run_none,
    lemma_instruction_run,
    lemma_macro_run,
    lemma_macros_run,
    lemma_call_run_compiled,
    lemma_call_run_cycle,
    lemma_call_run_target,
    lemma_call_run_undeclared,
    body_run,
    call_run,
    compiled_names,
    expansion_errors,
    initial_targets,
    instruction_run,
    lemma_compiled_names,
    lemma_errors_view_add,
    lemma_last_index,
    lemma_swap_removed,
    macro_run,
    macros_run,
    recursion_error,
    swap_removed,
    waiting_from_name,
    Progress,
};
use parser::grammar::{error_view, errors_view, ErrorView};
use vstd::prelude::*;
use vstd::string::StringExecFns;

verus! {

/// What the set of macros still to compile holds, in order.
pub uninterp spec fn target_items(set: IndexSet<String>) -> Seq<String>;

/// `IndexSet::new`.
///
/// Trusted: a new set holds nothing.
#[verifier::external_body]
fn targets_new() -> (result: IndexSet<String>)
    ensures
        target_items(result) == Seq::<String>::empty(),
{
    IndexSet::new()
}

/// `IndexSet::insert`.
///
/// Trusted: as the documentation says, an item equal to one in the set
/// leaves the set unchanged and gives `false`; any other item is added last
/// and gives `true`.
#[verifier::external_body]
fn targets_insert(set: &mut IndexSet<String>, item: String) -> (result: bool)
    ensures
        (exists|i: int|
            0 <= i < target_items(*old(set)).len() && (#[trigger] target_items(*old(set))[i])@
                == item@) ==> !result && target_items(*final(set)) == target_items(*old(set)),
        !(exists|i: int|
            0 <= i < target_items(*old(set)).len() && (#[trigger] target_items(*old(set))[i])@
                == item@) ==> result && target_items(*final(set)) == target_items(
            *old(set),
        ).push(item),
{
    set.insert(item)
}

/// `IndexSet::pop`.
///
/// Trusted: the last item is removed and returned, if there is one.
#[verifier::external_body]
fn targets_pop(set: &mut IndexSet<String>) -> (result: Option<String>)
    ensures
        target_items(*old(set)).len() == 0 ==> result.is_none() && target_items(*final(set))
            == target_items(*old(set)),
        target_items(*old(set)).len() > 0 ==> result == Some(target_items(*old(set)).last())
            && target_items(*final(set)) == target_items(*old(set)).drop_last(),
{
    set.pop()
}

/// `IndexSet::swap_remove` (what `IndexSet::remove` does).
///
/// Trusted: as the documentation says, an item equal to `item` is removed
/// by moving the last item into its place, and `true` is returned; where
/// there is none, the set is unchanged and `false` is returned.
#[verifier::external_body]
fn targets_swap_remove(set: &mut IndexSet<String>, item: &str) -> (result: bool)
    ensures
        result == exists|i: int|
            0 <= i < target_items(*old(set)).len() && (#[trigger] target_items(*old(set))[i])@
                == item@,
        result ==> exists|i: int|
            0 <= i < target_items(*old(set)).len() && (#[trigger] target_items(*old(set))[i])@
                == item@ && target_items(*final(set)) == target_items(*old(set)).update(
                i,
                target_items(*old(set)).last(),
            ).drop_last(),
        !result ==> target_items(*final(set)) == target_items(*old(set)),
{
    set.swap_remove(item)
}

/// Expands the macro calls of `ast` into a program of built-in
/// instructions. Errors go to `diagnostics`.
///
/// Where each macro is stored under its own name (as the parser gives
/// them), the program is `main` compiled given every declared macro, each
/// compiled from its body given those compiled before it (see
/// [`expansion_of`]). The errors raised, as plain values and in order, are
/// [`expansion_errors`]. No error is raised exactly when no macro leads back to
/// itself through the macros it calls and every body is well made; where no
/// macro leads back to itself, the errors raised are those of every body
/// (see [`program_errors`]), in some order. A `main` that calls no macro
/// compiles to its own instructions, in order. An instruction whose label is
/// taken already is left out.
pub fn expand(ast: &ast::Program, diagnostics: &mut Diagnostics) -> (result: Option<Program>)
    ensures
        parser::program_wf(*ast) ==> ((final(diagnostics)@ == old(diagnostics)@) == (no_recursion(
            *ast,
        ) && program_valid(*ast))),
        parser::program_wf(*ast) && no_recursion(*ast) ==> final(diagnostics)@.to_multiset() == old(
            diagnostics,
        )@.to_multiset().add(program_errors(*ast).to_multiset()),
        parser::program_wf(*ast) && !no_recursion(*ast) ==> recursion_reported(
            final(diagnostics)@,
            old(diagnostics)@,
        ),
        parser::program_wf(*ast) ==> cycles_named(*ast, final(diagnostics)@, old(diagnostics)@),
        parser::program_wf(*ast) ==> errors_view(final(diagnostics)@) == errors_view(
            old(diagnostics)@,
        ) + expansion_errors(*ast),
        parser::program_wf(*ast) ==> (result matches Some(program) && exists|
            compiled: Seq<CompiledView>,
        | expansion_of(*ast, compiled, builtins_view(program@))),
        extends(final(diagnostics)@, old(diagnostics)@),
        result matches Some(program) ==> program.wf() && only_builtins(program@),
        result.is_some(),
        builtins_only(ast::code_entries(ast.main.code)) ==> (result matches Some(program)
            && builtins_view(program@) == inserted(
            Seq::empty(),
            compiled_builtins(ast::code_entries(ast.main.code)),
        )),
{
    let mut expansor = Expansor::new(ast);
    let result = expansor.expand_program(diagnostics);
    proof {
        if parser::program_wf(*ast) {
            let compiled = expansor.compiled();
            assert(expansion_of(*ast, compiled, builtins_view(result->0@)));
        }
    }
    result
}

/// The state of an expansion: the macros compiled, those still to compile,
/// and the callers waiting for a macro to be compiled.
struct Expansor<'ast> {
    precompileds: Vec<PreCompiled<'ast>>,
    target_macros: IndexSet<String>,
    waiting: Vec<String>,
    ast: &'ast ast::Program,
}

impl<'ast> Expansor<'ast> {
    /// The compiled macros hold only built-in instructions.
    spec fn wf(&self) -> bool {
        forall|i: int|
            0 <= i < self.precompileds.len() ==> only_builtins(
                (#[trigger] self.precompileds@[i]).spec_program()@,
            ) && self.precompileds@[i].spec_program().wf()
    }

    /// The macros compiled so far, as plain values.
    spec fn compiled(&self) -> Seq<CompiledView> {
        compiled_views(self.precompileds@)
    }

    /// The names of the macros compiled, of those still to compile, and of
    /// the callers waiting.
    spec fn progress(&self) -> Progress {
        (
            compiled_names(self.compiled()),
            names_view(target_items(self.target_macros)),
            names_view(self.waiting@),
        )
    }

    /// The number of macros still to compile.
    spec fn targets_left(&self) -> nat {
        target_items(self.target_macros).len()
    }

    /// What the expansion keeps track of, for a syntax tree whose macros are
    /// stored under their own names: the macros still to compile are
    /// declared ones, each listed once and none compiled yet; each compiled
    /// macro was compiled once, from its body, given those compiled before
    /// it.
    spec fn bookkept(&self) -> bool {
        parser::program_wf(*self.ast) ==> {
            &&& compiled_in_order(*self.ast, self.compiled())
            &&& callees_first(*self.ast, self.compiled())
            &&& forall|x: Seq<char>| is_target(self.target_macros, x) ==> declared(*self.ast, x)
            &&& compiled_distinct(self.compiled())
            &&& names_distinct(target_items(self.target_macros))
            &&& forall|x: Seq<char>|
                is_target(self.target_macros, x) ==> first_compiled(self.compiled(), x) is None
        }
    }

    /// An expansion of `ast` about to start, with every macro still to
    /// compile, the first declared last.
    fn new(ast: &'ast ast::Program) -> (result: Expansor<'ast>)
        ensures
            result.ast == ast,
            result.wf(),
            result.bookkept(),
            result.precompileds@.len() == 0,
            result.waiting@.len() == 0,
            forall|x: Seq<char>| declared(*ast, x) ==> is_target(result.target_macros, x),
            parser::program_wf(*ast) ==> names_view(target_items(result.target_macros))
                == initial_targets(*ast),
    {
        let mut target_macros = targets_new();
        let mut i = macros_len(&ast.macros);
        let ghost entries = macro_entries(ast.macros);
        while i > 0
            invariant
                i <= entries.len(),
                entries == macro_entries(ast.macros),
                forall|x: Seq<char>| is_target(target_macros, x) ==> declared(*ast, x),
                names_distinct(target_items(target_macros)),
                forall|j: int| i <= j < entries.len() ==> is_target(target_macros, (#[trigger] entries[j]).0@),
                parser::program_wf(*ast) ==> names_view(target_items(target_macros)) == Seq::new(
                    (entries.len() - i) as nat,
                    |k: int| entries[entries.len() - 1 - k].0@,
                ),
            decreases i,
        {
            match macros_get_index(&ast.macros, i - 1) {
                Some((name, _)) => {
                    let ghost before = target_items(target_macros);
                    let key = name.clone();
                    proof {
                        assert(key@ == entries[i - 1].0@);
                    }
                    proof {
                        if parser::program_wf(*ast) {
                            assert(!exists|m: int|
                                0 <= m < before.len() && (#[trigger] before[m])@ == key@) by {
                                if exists|m: int| 0 <= m < before.len() && (#[trigger] before[m])@ == key@ {
                                    let m = choose|m: int|
                                        0 <= m < before.len() && (#[trigger] before[m])@ == key@;
                                    assert(names_view(before)[m] == before[m]@);
                                    let e = entries.len() - 1 - m;
                                    assert(entries[e].0@ != entries[i - 1].0@);
                                }
                            }
                        }
                    }
                    targets_insert(&mut target_macros, key);
                    proof {
                        if parser::program_wf(*ast) {
                            assert(target_items(target_macros) == before.push(key));
                            assert(names_view(before.push(key)) =~= names_view(before).push(key@));
                            assert(names_view(target_items(target_macros)) =~= Seq::new(
                                (entries.len() - (i - 1)) as nat,
                                |k: int| entries[entries.len() - 1 - k].0@,
                            ));
                        }
                        let t = target_items(target_macros);
                        assert forall|a: int, b: int| 0 <= a < b < t.len() implies (
                        #[trigger] t[a])@ != (#[trigger] t[b])@ by {
                            if b >= before.len() {
                                assert(t[a] == before[a]);
                                assert(!names_have(before, t[b]@));
                            } else {
                                assert(t[a] == before[a] && t[b] == before[b]);
                            }
                        }
                        assert forall|x: Seq<char>| is_target(target_macros, x) implies declared(
                            *ast,
                            x,
                        ) by {
                            let t = target_items(target_macros);
                            let j = choose|j: int| 0 <= j < t.len() && (#[trigger] t[j])@ == x;
                            if j < before.len() {
                                assert(before[j]@ == x);
                                assert(names_have(before, x));
                            } else {
                                assert(entries[i - 1].0@ == x);
                            }
                        }
                        assert forall|j: int| i - 1 <= j < entries.len() implies is_target(
                            target_macros,
                            (#[trigger] entries[j]).0@,
                        ) by {
                            let t = target_items(target_macros);
                            if j >= i {
                                let k = choose|k: int|
                                    0 <= k < before.len() && (#[trigger] before[k])@ == entries[j].0@;
                                assert(t[k] == before[k]);
                            } else if t.len() > before.len() {
                                assert(t[before.len() as int]@ == entries[j].0@);
                            }
                        }
                    }
                },
                None => {},
            }
            i = i - 1;
        }
        let result = Expansor { precompileds: Vec::new(), target_macros, waiting: Vec::new(), ast };
        proof {
            if parser::program_wf(*ast) {
                assert(names_view(target_items(result.target_macros)) =~= initial_targets(*ast));
            }
        }
        proof {
            assert forall|x: Seq<char>| declared(*ast, x) implies is_target(
                result.target_macros,
                x,
            ) by {
                let j = choose|j: int| 0 <= j < entries.len() && (#[trigger] entries[j]).0@ == x;
                assert(is_target(target_macros, entries[j].0@));
            }
        }
        result
    }

    /// Compiles every macro, then `main`.
    fn expand_program(&mut self, diagnostics: &mut Diagnostics) -> (result: Option<Program>)
        requires
            old(self).wf(),
            old(self).bookkept(),
            old(self).precompileds@.len() == 0,
            old(self).waiting@.len() == 0,
            forall|x: Seq<char>| declared(*old(self).ast, x) ==> is_target(old(self).target_macros, x),
            parser::program_wf(*old(self).ast) ==> names_view(target_items(old(self).target_macros))
                == initial_targets(*old(self).ast),
        ensures
            parser::program_wf(*old(self).ast) ==> ((final(diagnostics)@ == old(diagnostics)@) == (
            no_recursion(*old(self).ast) && program_valid(*old(self).ast))),
            parser::program_wf(*old(self).ast) && no_recursion(*old(self).ast) ==> final(diagnostics)@.to_multiset()
                == old(diagnostics)@.to_multiset().add(program_errors(*old(self).ast).to_multiset()),
            parser::program_wf(*old(self).ast) && !no_recursion(*old(self).ast) ==> recursion_reported(
                final(diagnostics)@,
                old(diagnostics)@,
            ),
            parser::program_wf(*old(self).ast) ==> cycles_named(
                *old(self).ast,
                final(diagnostics)@,
                old(diagnostics)@,
            ),
            parser::program_wf(*old(self).ast) ==> errors_view(final(diagnostics)@) == errors_view(
                old(diagnostics)@,
            ) + expansion_errors(*old(self).ast),
            parser::program_wf(*old(self).ast) ==> (result matches Some(program) && expansion_of(
                *old(self).ast,
                final(self).compiled(),
                builtins_view(program@),
            )),
            final(self).wf(),
            extends(final(diagnostics)@, old(diagnostics)@),
            result matches Some(program) ==> program.wf() && only_builtins(program@),
            result.is_some(),
            builtins_only(ast::code_entries(old(self).ast.main.code)) ==> (result matches Some(
                program,
            ) && builtins_view(program@) == inserted(
                Seq::empty(),
                compiled_builtins(ast::code_entries(old(self).ast.main.code)),
            )),
    {
        let ghost d0 = diagnostics@;
        self.precompile_macros(diagnostics);
        let ghost d1 = diagnostics@;
        let ghost list1 = self.compiled();
        let program = self.expand_main(diagnostics);
        proof {
            if parser::program_wf(*old(self).ast) && no_recursion(*old(self).ast) {
                lemma_program_valid(*old(self).ast, self.compiled());
                assert(old(self).compiled() =~= Seq::<CompiledView>::empty());
                if diagnostics@.len() == d0.len() {
                    assert(diagnostics@ =~= d0);
                }
            }
            if parser::program_wf(*old(self).ast) {
                assert forall|x: Seq<char>| declared(*old(self).ast, x) implies first_compiled(
                    self.compiled(),
                    x,
                ) is Some by {
                    assert(is_target(old(self).target_macros, x));
                }
                lemma_cycles_named_trans(*old(self).ast, d0, d1, diagnostics@);
                assert(compiled_names(old(self).compiled()) =~= Seq::<Seq<char>>::empty());
                assert(names_view(old(self).waiting@) =~= Seq::<Seq<char>>::empty());
                assert(old(self).progress() == (
                    Seq::<Seq<char>>::empty(),
                    initial_targets(*old(self).ast),
                    Seq::<Seq<char>>::empty(),
                ));
                assert(errors_view(diagnostics@) =~= errors_view(d0) + expansion_errors(
                    *old(self).ast,
                ));
                if no_recursion(*old(self).ast) {
                    broadcast use vstd::seq_lib::lemma_multiset_commutative;
                    broadcast use vstd::multiset::group_multiset_axioms;

                    let ast = *old(self).ast;
                    assert(old(self).compiled() =~= Seq::<CompiledView>::empty());
                    lemma_compiled_errors(ast, self.compiled());
                    assert(diagnostics@.to_multiset() =~= d0.to_multiset().add(
                        program_errors(ast).to_multiset(),
                    ));
                }
                if !recursion_reported(diagnostics@, d0) {
                    lemma_recursion_reported_split(d0, d1, diagnostics@);
                    assert(old(self).compiled() =~= Seq::<CompiledView>::empty());
                    lemma_no_recursion(*old(self).ast, self.compiled());
                }
            }
        }
        Some(program)
    }

    /// Compiles `main` into the program.
    fn expand_main(&mut self, diagnostics: &mut Diagnostics) -> (result: Program)
        requires
            old(self).wf(),
            old(self).bookkept(),
            old(self).targets_left() == 0,
            old(self).waiting@.len() == 0,
            parser::program_wf(*old(self).ast) ==> forall|x: Seq<char>|
                declared(*old(self).ast, x) ==> first_compiled(old(self).compiled(), x) is Some,
        ensures
            parser::program_wf(*old(self).ast) && no_recursion(*old(self).ast) ==> ((final(diagnostics)@.len()
                == old(diagnostics)@.len()) == body_ok(
                *old(self).ast,
                None,
                ast::code_entries(old(self).ast.main.code),
            )),
            final(self).wf(),
            final(self).bookkept(),
            final(self).ast == old(self).ast,
            final(self).precompileds@ == old(self).precompileds@,
            parser::program_wf(*old(self).ast) ==> final(self).progress() == body_run(
                *old(self).ast,
                old(self).progress(),
                None,
                "main"@,
                ast::code_entries(old(self).ast.main.code),
                ast::code_entries(old(self).ast.main.code).len() as int,
                0,
            ).0 && errors_view(final(diagnostics)@) == errors_view(old(diagnostics)@) + body_run(
                *old(self).ast,
                old(self).progress(),
                None,
                "main"@,
                ast::code_entries(old(self).ast.main.code),
                ast::code_entries(old(self).ast.main.code).len() as int,
                0,
            ).1,
            parser::program_wf(*old(self).ast) ==> cycles_named(
                *old(self).ast,
                final(diagnostics)@,
                old(diagnostics)@,
            ),
            parser::program_wf(*old(self).ast) && no_recursion(*old(self).ast)
                ==> final(diagnostics)@.to_multiset() == old(diagnostics)@.to_multiset().add(
                body_errors(*old(self).ast, None, ast::code_entries(old(self).ast.main.code)).to_multiset(),
            ),
            builtins_view(result@) == body_compiled(
                old(self).compiled(),
                ast::code_entries(old(self).ast.main.code),
            ),
            extends(final(diagnostics)@, old(diagnostics)@),
            result.wf(),
            only_builtins(result@),
            builtins_only(ast::code_entries(old(self).ast.main.code)) ==> builtins_view(result@)
                == inserted(
                Seq::empty(),
                compiled_builtins(ast::code_entries(old(self).ast.main.code)),
            ),
    {
        let mut code = WorkingCode::new();
        let main_code = &self.ast.main.code;
        let ghost entries = ast::code_entries(*main_code);
        let ghost target = compiled_builtins(entries);
        let ghost compiled = self.compiled();
        proof {
            assert(builtins_view(code.spec_program()@) =~= inserted(
                Seq::empty(),
                target.take(0),
            ));
            assert(entries.take(0) =~= Seq::<(String, ast::Instruction)>::empty());
            assert(code_state(code) =~= body_steps(compiled, entries.take(0)));
            lemma_errors_start(*self.ast, None, entries, diagnostics@, compiled);
            lemma_body_run_none(*self.ast, self.progress(), None, "main"@, entries, 0);
            assert(errors_view(diagnostics@) + Seq::<ErrorView>::empty() =~= errors_view(
                diagnostics@,
            ));
        }
        let ghost p0 = self.progress();
        let n = code_len(main_code);
        let mut i: usize = 0;
        while i < n
            invariant
                self.wf(),
                code.wf(),
                extends(diagnostics@, old(diagnostics)@),
                n == ast::code_entries(*main_code).len(),
                main_code == &self.ast.main.code,
                self.ast == old(self).ast,
                i <= n,
                entries == ast::code_entries(*main_code),
                target == compiled_builtins(entries),
                self.precompileds@ == old(self).precompileds@,
                compiled == self.compiled(),
                self.targets_left() == 0,
                self.bookkept(),
                self.waiting@.len() == 0,
                parser::program_wf(*self.ast) ==> forall|x: Seq<char>|
                    declared(*self.ast, x) ==> first_compiled(self.compiled(), x) is Some,
                parser::program_wf(*self.ast) && no_recursion(*self.ast) ==> ((diagnostics@.len()
                    == old(diagnostics)@.len()) == (forall|j: int|
                    0 <= j < i ==> instruction_ok(*self.ast, None, (#[trigger] entries[j]).1, entries))),
                code_state(code) == body_steps(compiled, entries.take(i as int)),
                p0 == old(self).progress(),
                parser::program_wf(*self.ast) ==> self.progress() == body_run(
                    *self.ast,
                    p0,
                    None,
                    "main"@,
                    entries,
                    i as int,
                    0,
                ).0 && errors_view(diagnostics@) == errors_view(old(diagnostics)@) + body_run(
                    *self.ast,
                    p0,
                    None,
                    "main"@,
                    entries,
                    i as int,
                    0,
                ).1,
                parser::program_wf(*self.ast) ==> cycles_named(
                    *self.ast,
                    diagnostics@,
                    old(diagnostics)@,
                ),
                parser::program_wf(*self.ast) && no_recursion(*self.ast) ==> diagnostics@.to_multiset()
                    == old(diagnostics)@.to_multiset().add(
                    instructions_errors(*self.ast, None, entries, i as int).to_multiset(),
                ).add(new_bodies_errors(*self.ast, compiled, compiled).to_multiset()),
                builtins_only(entries) ==> code.spec_expanded_labels().len() == 0
                    && builtins_view(code.spec_program()@) == inserted(
                    Seq::empty(),
                    target.take(i as int),
                ),
            decreases n - i,
        {
            proof {
                assert(target.take(i + 1).drop_last() =~= target.take(i as int));
                assert(entries.take(i + 1).drop_last() =~= entries.take(i as int));
            }
            match code_get_index(main_code, i) {
                Some((_, instruction)) => {
                    proof {
                        if builtins_only(entries) {
                            assert(is_builtin_instruction(entries[i as int].1));
                        }
                        assert(entries[i as int].1 == *instruction);
                        if parser::program_wf(*self.ast) {
                            assert(chain_ok(*self.ast, self.waiting@, "main"@));
                        }
                    }
                    let ghost errors_before = diagnostics@;
                    self.precompile_instruction(
                        None,
                        "main",
                        instruction,
                        &mut code,
                        main_code,
                        diagnostics,
                        Ghost(0),
                    );
                    proof {
                        if parser::program_wf(*self.ast) {
                            lemma_cycles_named_trans(
                                *self.ast,
                                old(diagnostics)@,
                                errors_before,
                                diagnostics@,
                            );
                            lemma_body_run_next(*self.ast, p0, None, "main"@, entries, i + 1, 0);
                            assert(entries[i as int].1 == *instruction);
                            assert(errors_view(diagnostics@) =~= errors_view(old(diagnostics)@)
                                + body_run(*self.ast, p0, None, "main"@, entries, i + 1, 0).1);
                        }
                        if parser::program_wf(*self.ast) && no_recursion(*self.ast) {
                            lemma_errors_step(
                                *self.ast,
                                None,
                                entries,
                                i as int,
                                old(diagnostics)@,
                                errors_before,
                                diagnostics@,
                                compiled,
                                compiled,
                                compiled,
                            );
                        }
                    }
                },
                None => {},
            }
            i = i + 1;
        }
        proof {
            assert(target.take(i as int) =~= target);
            assert(entries.take(i as int) =~= entries);
            if parser::program_wf(*self.ast) && no_recursion(*self.ast) {
                assert(diagnostics@.to_multiset() =~= old(diagnostics)@.to_multiset().add(
                    body_errors(*self.ast, None, entries).to_multiset(),
                )) by {
                    broadcast use vstd::multiset::group_multiset_axioms;
                    broadcast use vstd::seq_lib::lemma_multiset_commutative;

                    assert(new_bodies_errors(*self.ast, compiled, compiled) =~= Seq::<Error>::empty());
                    assert(Seq::<Error>::empty() + Seq::<Error>::empty() =~= Seq::<Error>::empty());
                }
                assert(body_ok(*self.ast, None, entries) == (forall|j: int|
                    0 <= j < i ==> instruction_ok(*self.ast, None, (#[trigger] entries[j]).1, entries)));
            }
        }
        let ghost view = builtins_view(code.spec_program()@);
        let ghost labels = code.spec_expanded_labels();
        let program = code.finish();
        proof {
            if builtins_only(entries) {
                assert(artifacts::relabelled(view, labels) =~= view) by {
                    assert forall|k: int| 0 <= k < view.len() implies (#[trigger] artifacts::relabelled(
                        view,
                        labels,
                    )[k]) == view[k] by {
                        assert(forall|l: Seq<char>| renamed(labels, l) == l);
                    }
                }
            }
        }
        program
    }

    /// Compiles each macro still to compile, in order of declaration.
    #[verifier::spinoff_prover]
    #[verifier::rlimit(60)]
    fn precompile_macros(&mut self, diagnostics: &mut Diagnostics)
        requires
            old(self).wf(),
            old(self).bookkept(),
            old(self).waiting@.len() == 0,
            parser::program_wf(*old(self).ast) ==> forall|x: Seq<char>|
                declared(*old(self).ast, x) ==> is_target(old(self).target_macros, x)
                    || first_compiled(old(self).compiled(), x) is Some,
        ensures
            final(self).wf(),
            final(self).bookkept(),
            extends(final(diagnostics)@, old(diagnostics)@),
            final(self).ast == old(self).ast,
            final(self).targets_left() == 0,
            compiled_extends(final(self).compiled(), old(self).compiled()),
            parser::program_wf(*old(self).ast) ==> forall|x: Seq<char>|
                is_target(old(self).target_macros, x) ==> first_compiled(
                    final(self).compiled(),
                    x,
                ) is Some,
            final(self).waiting@.len() == 0,
            parser::program_wf(*old(self).ast) ==> final(self).progress() == macros_run(
                *old(self).ast,
                old(self).progress(),
                old(self).targets_left() + 1,
            ).0 && errors_view(final(diagnostics)@) == errors_view(old(diagnostics)@) + macros_run(
                *old(self).ast,
                old(self).progress(),
                old(self).targets_left() + 1,
            ).1,
            parser::program_wf(*old(self).ast) && !recursion_reported(final(diagnostics)@, old(diagnostics)@)
                ==> callees_before(*old(self).ast, old(self).compiled(), final(self).compiled()),
            parser::program_wf(*old(self).ast) ==> cycles_named(
                *old(self).ast,
                final(diagnostics)@,
                old(diagnostics)@,
            ),
            parser::program_wf(*old(self).ast) && no_recursion(*old(self).ast)
                ==> final(diagnostics)@.to_multiset() == old(diagnostics)@.to_multiset().add(
                new_bodies_errors(
                    *old(self).ast,
                    old(self).compiled(),
                    final(self).compiled(),
                ).to_multiset(),
            ),
            parser::program_wf(*old(self).ast) ==> forall|x: Seq<char>|
                declared(*old(self).ast, x) ==> first_compiled(final(self).compiled(), x) is Some,
            parser::program_wf(*old(self).ast) && no_recursion(*old(self).ast) ==> ((final(diagnostics)@.len()
                == old(diagnostics)@.len()) == new_bodies_ok(
                *old(self).ast,
                old(self).compiled(),
                final(self).compiled(),
            )),
    {
        let ghost start_targets = self.target_macros;
        proof {
            assert(errors_view(diagnostics@) == errors_view(old(diagnostics)@));
            lemma_errors_none(*self.ast, diagnostics@, self.compiled());
        }
        loop
            invariant
                self.wf(),
                self.bookkept(),
                extends(diagnostics@, old(diagnostics)@),
                self.ast == old(self).ast,
                compiled_extends(self.compiled(), old(self).compiled()),
                start_targets == old(self).target_macros,
                parser::program_wf(*self.ast) ==> forall|x: Seq<char>|
                    is_target(start_targets, x) ==> is_target(self.target_macros, x)
                        || first_compiled(self.compiled(), x) is Some,
                self.waiting@.len() == 0,
                parser::program_wf(*self.ast) ==> macros_run(
                    *self.ast,
                    old(self).progress(),
                    old(self).targets_left() + 1,
                ).0 == macros_run(*self.ast, self.progress(), self.targets_left() + 1).0
                    && errors_view(old(diagnostics)@) + macros_run(
                    *self.ast,
                    old(self).progress(),
                    old(self).targets_left() + 1,
                ).1 == errors_view(diagnostics@) + macros_run(
                    *self.ast,
                    self.progress(),
                    self.targets_left() + 1,
                ).1,
                parser::program_wf(*self.ast) && !recursion_reported(diagnostics@, old(diagnostics)@)
                    ==> callees_before(*self.ast, old(self).compiled(), self.compiled()),
                parser::program_wf(*self.ast) ==> cycles_named(
                    *self.ast,
                    diagnostics@,
                    old(diagnostics)@,
                ),
                parser::program_wf(*self.ast) && no_recursion(*self.ast) ==> diagnostics@.to_multiset()
                    == old(diagnostics)@.to_multiset().add(
                    new_bodies_errors(*self.ast, old(self).compiled(), self.compiled()).to_multiset(),
                ),
                parser::program_wf(*self.ast) ==> forall|x: Seq<char>|
                    declared(*self.ast, x) ==> is_target(self.target_macros, x) || first_compiled(
                        self.compiled(),
                        x,
                    ) is Some,
                parser::program_wf(*self.ast) && no_recursion(*self.ast) ==> ((diagnostics@.len()
                    == old(diagnostics)@.len()) == new_bodies_ok(
                    *self.ast,
                    old(self).compiled(),
                    self.compiled(),
                )),
            ensures
                self.wf(),
                self.bookkept(),
                extends(diagnostics@, old(diagnostics)@),
                self.ast == old(self).ast,
                compiled_extends(self.compiled(), old(self).compiled()),
                self.targets_left() == 0,
                parser::program_wf(*self.ast) ==> forall|x: Seq<char>|
                    is_target(start_targets, x) ==> is_target(self.target_macros, x)
                        || first_compiled(self.compiled(), x) is Some,
                self.waiting@.len() == 0,
                parser::program_wf(*self.ast) ==> macros_run(
                    *self.ast,
                    old(self).progress(),
                    old(self).targets_left() + 1,
                ).0 == macros_run(*self.ast, self.progress(), self.targets_left() + 1).0
                    && errors_view(old(diagnostics)@) + macros_run(
                    *self.ast,
                    old(self).progress(),
                    old(self).targets_left() + 1,
                ).1 == errors_view(diagnostics@) + macros_run(
                    *self.ast,
                    self.progress(),
                    self.targets_left() + 1,
                ).1,
                parser::program_wf(*self.ast) && !recursion_reported(diagnostics@, old(diagnostics)@)
                    ==> callees_before(*self.ast, old(self).compiled(), self.compiled()),
                parser::program_wf(*self.ast) ==> cycles_named(
                    *self.ast,
                    diagnostics@,
                    old(diagnostics)@,
                ),
                parser::program_wf(*self.ast) && no_recursion(*self.ast) ==> diagnostics@.to_multiset()
                    == old(diagnostics)@.to_multiset().add(
                    new_bodies_errors(*self.ast, old(self).compiled(), self.compiled()).to_multiset(),
                ),
                parser::program_wf(*self.ast) ==> forall|x: Seq<char>|
                    declared(*self.ast, x) ==> is_target(self.target_macros, x) || first_compiled(
                        self.compiled(),
                        x,
                    ) is Some,
                parser::program_wf(*self.ast) && no_recursion(*self.ast) ==> ((diagnostics@.len()
                    == old(diagnostics)@.len()) == new_bodies_ok(
                    *self.ast,
                    old(self).compiled(),
                    self.compiled(),
                )),
            decreases self.targets_left(),
        {
            let ghost items = target_items(self.target_macros);
            let ghost head = self.target_macros;
            let ghost list = self.compiled();
            let ghost p = self.progress();
            let ghost errors_start = diagnostics@;
            match targets_pop(&mut self.target_macros) {
                Some(name) => {
                    proof {
                        if parser::program_wf(*self.ast) {
                            lemma_macros_run(*self.ast, p, p.1.len() + 1);
                            assert(names_view(target_items(self.target_macros)) =~= p.1.drop_last());
                            assert(self.progress() == (p.0, p.1.drop_last(), p.2));
                        }
                    }
                    proof {
                        lemma_pop_names(items);
                        assert(names_have(items, name@)) by {
                            assert(items[items.len() - 1] == name);
                        }
                        if parser::program_wf(*self.ast) {
                            lemma_pop_distinct(items);
                            assert(is_target(head, name@));
                            assert(first_compiled(self.compiled(), name@) is None);
                            assert forall|x: Seq<char>|
                                is_target(self.target_macros, x) implies first_compiled(
                                self.compiled(),
                                x,
                            ) is None && declared(*self.ast, x) by {
                                assert(is_target(head, x));
                            }
                        }
                    }
                    let ghost popped_targets = self.target_macros;
                    proof {
                        if parser::program_wf(*self.ast) {
                            assert forall|x: Seq<char>| declared(*self.ast, x) implies is_target(
                                self.target_macros,
                                x,
                            ) || first_compiled(self.compiled(), x) is Some || names_have(
                                self.waiting@,
                                x,
                            ) || x == name@ by {
                                if x != name@ && names_have(items, x) {
                                    assert(is_target(popped_targets, x));
                                }
                            }
                        }
                    }
                    let ghost len_before = diagnostics@.len();
                    let ghost errors_before = diagnostics@;
                    self.precompile_macro(name.as_str(), diagnostics);
                    proof {
                        if parser::program_wf(*self.ast) {
                            let after = self.progress();
                            assert(after.1.len() + 1 < p.1.len() + 1);
                            let first = macro_run(
                                *self.ast,
                                (p.0, p.1.drop_last(), p.2),
                                name@,
                                (p.1.len() - 1) as nat,
                            );
                            assert(errors_view(diagnostics@) == errors_view(errors_start)
                                + first.1);
                            assert(errors_view(old(diagnostics)@) + macros_run(
                                *self.ast,
                                old(self).progress(),
                                old(self).targets_left() + 1,
                            ).1 =~= errors_view(diagnostics@) + macros_run(
                                *self.ast,
                                self.progress(),
                                self.targets_left() + 1,
                            ).1);
                        }
                    }
                    proof {
                        if parser::program_wf(*self.ast) {
                            lemma_cycles_named_trans(
                                *self.ast,
                                old(diagnostics)@,
                                errors_before,
                                diagnostics@,
                            );
                        }
                        if parser::program_wf(*self.ast) && no_recursion(*self.ast) {
                            lemma_errors_more(
                                *self.ast,
                                old(diagnostics)@,
                                errors_before,
                                diagnostics@,
                                old(self).compiled(),
                                list,
                                self.compiled(),
                            );
                        }
                    }
                    proof {
                        if parser::program_wf(*self.ast) && no_recursion(*self.ast) {
                            lemma_new_bodies_split(*self.ast, old(self).compiled(), list, self.compiled());
                        }
                        if parser::program_wf(*self.ast) && !recursion_reported(
                            diagnostics@,
                            old(diagnostics)@,
                        ) {
                            lemma_recursion_reported_split(
                                old(diagnostics)@,
                                errors_before,
                                diagnostics@,
                            );
                            lemma_callees_before_trans(
                                *self.ast,
                                old(self).compiled(),
                                list,
                                self.compiled(),
                            );
                        }
                        if parser::program_wf(*self.ast) {
                            assert forall|x: Seq<char>| declared(*self.ast, x) implies is_target(
                                self.target_macros,
                                x,
                            ) || first_compiled(self.compiled(), x) is Some by {
                                if first_compiled(list, x) is Some {
                                    lemma_first_compiled_kept(self.compiled(), list, x);
                                } else if x != name@ && names_have(items, x) {
                                    assert(is_target(popped_targets, x));
                                }
                            }
                            assert forall|x: Seq<char>|
                                is_target(start_targets, x) implies is_target(self.target_macros, x)
                                    || first_compiled(self.compiled(), x) is Some by {
                                if first_compiled(list, x) is Some {
                                    lemma_first_compiled_kept(self.compiled(), list, x);
                                } else if x != name@ {
                                    assert(is_target(popped_targets, x));
                                }
                            }
                        }
                    }
                },
                None => {
                    proof {
                        if parser::program_wf(*self.ast) {
                            lemma_macros_run(*self.ast, p, p.1.len() + 1);
                            assert(errors_view(diagnostics@) + Seq::<ErrorView>::empty()
                                =~= errors_view(diagnostics@));
                        }
                    }
                    break;
                },
            }
        }
        proof {
            if parser::program_wf(*self.ast) {
                lemma_macros_run(*self.ast, self.progress(), self.targets_left() + 1);
                assert(errors_view(diagnostics@) + Seq::<ErrorView>::empty() =~= errors_view(
                    diagnostics@,
                ));
            }
        }
        proof {
            if parser::program_wf(*self.ast) {
                assert forall|x: Seq<char>| declared(*self.ast, x) implies first_compiled(
                    self.compiled(),
                    x,
                ) is Some by {
                    if is_target(self.target_macros, x) {
                        let j = choose|j: int|
                            0 <= j < target_items(self.target_macros).len() && (#[trigger] target_items(
                                self.target_macros,
                            )[j])@ == x;
                    }
                }
            }
        }
    }

    /// Compiles the macro `name`, which is no longer among those still to
    /// compile.
    #[verifier::spinoff_prover]
    #[verifier::rlimit(90)]
    fn precompile_macro(&mut self, name: &str, diagnostics: &mut Diagnostics)
        requires
            old(self).wf(),
            old(self).bookkept(),
            parser::program_wf(*old(self).ast) ==> first_compiled(old(self).compiled(), name@) is None
                && !is_target(old(self).target_macros, name@),
            parser::program_wf(*old(self).ast) ==> chain_ok(
                *old(self).ast,
                old(self).waiting@,
                name@,
            ) && forall|x: Seq<char>|
                declared(*old(self).ast, x) ==> is_target(old(self).target_macros, x)
                    || first_compiled(old(self).compiled(), x) is Some || names_have(
                    old(self).waiting@,
                    x,
                ) || x == name@,
        ensures
            final(self).wf(),
            final(self).bookkept(),
            final(self).waiting@ == old(self).waiting@,
            extends(final(diagnostics)@, old(diagnostics)@),
            final(self).ast == old(self).ast,
            final(self).targets_left() <= old(self).targets_left(),
            compiled_extends(final(self).compiled(), old(self).compiled()),
            forall|x: Seq<char>|
                is_target(final(self).target_macros, x) ==> is_target(old(self).target_macros, x),
            parser::program_wf(*old(self).ast) ==> forall|x: Seq<char>|
                is_target(old(self).target_macros, x) ==> is_target(final(self).target_macros, x)
                    || first_compiled(final(self).compiled(), x) is Some,
            parser::program_wf(*old(self).ast) ==> forall|k: int|
                old(self).compiled().len() <= k < final(self).compiled().len()
                    ==> is_target(
                    old(self).target_macros,
                    (#[trigger] final(self).compiled()[k]).0.name.content@,
                ) || final(self).compiled()[k].0.name.content@ == name@,
            parser::program_wf(*old(self).ast) && declared(*old(self).ast, name@) ==> first_compiled(
                final(self).compiled(),
                name@,
            ) is Some,
            parser::program_wf(*old(self).ast) && !recursion_reported(final(diagnostics)@, old(diagnostics)@)
                ==> callees_before(*old(self).ast, old(self).compiled(), final(self).compiled()),
            parser::program_wf(*old(self).ast) && no_recursion(*old(self).ast) ==> ((final(diagnostics)@.len()
                == old(diagnostics)@.len()) == new_bodies_ok(
                *old(self).ast,
                old(self).compiled(),
                final(self).compiled(),
            )),
            parser::program_wf(*old(self).ast) ==> cycles_named(
                *old(self).ast,
                final(diagnostics)@,
                old(diagnostics)@,
            ),
            parser::program_wf(*old(self).ast) ==> final(self).progress() == macro_run(
                *old(self).ast,
                old(self).progress(),
                name@,
                old(self).targets_left(),
            ).0 && errors_view(final(diagnostics)@) == errors_view(old(diagnostics)@) + macro_run(
                *old(self).ast,
                old(self).progress(),
                name@,
                old(self).targets_left(),
            ).1,
            parser::program_wf(*old(self).ast) && no_recursion(*old(self).ast)
                ==> final(diagnostics)@.to_multiset() == old(diagnostics)@.to_multiset().add(
                new_bodies_errors(
                    *old(self).ast,
                    old(self).compiled(),
                    final(self).compiled(),
                ).to_multiset(),
            ),
        decreases self.targets_left(), 2nat,
    {
        let ast = self.ast;
        let macro_def = match macros_get(&ast.macros, name) {
            Some(macro_def) => macro_def,
            None => {
                proof {
                    let errors = diagnostics@;
                    assert(new_bodies_errors(*ast, self.compiled(), self.compiled()) =~= Seq::<
                        Error,
                    >::empty());
                    assert(errors + Seq::<Error>::empty() =~= errors);
                    vstd::seq_lib::lemma_multiset_commutative(errors, Seq::<Error>::empty());
                    lemma_macro_run(*ast, self.progress(), name@, self.targets_left());
                    assert(errors_view(errors) + Seq::<ErrorView>::empty() =~= errors_view(errors));
                }
                return;
            },
        };
        let ghost wf_ast = parser::program_wf(*ast);
        let ghost key_index = choose|m: int|
            0 <= m < macro_entries(ast.macros).len() && (#[trigger] macro_entries(ast.macros)[m]).0@
                == name@ && macro_entries(ast.macros)[m].1 == *macro_def;
        let ghost p0 = self.progress();
        let ghost fuel = self.targets_left();
        proof {
            if wf_ast {
                assert(macro_entries(ast.macros)[key_index].0@ == macro_def.name.content@);
                lemma_definition_named_at(*ast, name@, key_index);
                lemma_macro_run(*ast, p0, name@, fuel);
            }
        }
        let ghost start_targets = self.target_macros;
        let ghost start_list = self.compiled();
        let ghost entries = ast::code_entries(macro_def.instr);
        let mut code = WorkingCode::new();
        let n = code_len(&macro_def.instr);
        let mut i: usize = 0;
        proof {
            assert(entries.take(0) =~= Seq::<(String, ast::Instruction)>::empty());
            assert(code_state(code) =~= body_steps(self.compiled(), entries.take(0)));
            lemma_errors_start(
                *ast,
                Some(macro_def.macro_type),
                entries,
                diagnostics@,
                self.compiled(),
            );
            lemma_body_run_none(*ast, p0, Some(macro_def.macro_type), name@, entries, fuel);
            assert(errors_view(diagnostics@) + Seq::<ErrorView>::empty() =~= errors_view(
                diagnostics@,
            ));
        }
        while i < n
            invariant
                self.wf(),
                self.bookkept(),
                code.wf(),
                extends(diagnostics@, old(diagnostics)@),
                self.ast == old(self).ast,
                ast == old(self).ast,
                wf_ast == parser::program_wf(*ast),
                self.targets_left() <= old(self).targets_left(),
                start_targets == old(self).target_macros,
                start_list == old(self).compiled(),
                compiled_extends(self.compiled(), start_list),
                self.waiting@ == old(self).waiting@,
                0 <= key_index < macro_entries(ast.macros).len(),
                macro_entries(ast.macros)[key_index].0@ == name@,
                macro_entries(ast.macros)[key_index].1 == *macro_def,
                wf_ast ==> macro_def.name.content@ == name@,
                wf_ast ==> chain_ok(*ast, self.waiting@, name@),
                wf_ast ==> forall|x: Seq<char>|
                    declared(*ast, x) ==> is_target(start_targets, x) || first_compiled(
                        start_list,
                        x,
                    ) is Some || names_have(self.waiting@, x) || x == name@,
                entries == ast::code_entries(macro_def.instr),
                n == entries.len(),
                i <= n,
                forall|x: Seq<char>|
                    is_target(self.target_macros, x) ==> is_target(start_targets, x),
                wf_ast ==> forall|x: Seq<char>|
                    is_target(start_targets, x) ==> is_target(self.target_macros, x)
                        || first_compiled(self.compiled(), x) is Some,
                wf_ast ==> forall|k: int|
                    start_list.len() <= k < self.compiled().len() ==> is_target(
                        start_targets,
                        (#[trigger] self.compiled()[k]).0.name.content@,
                    ),
                wf_ast ==> code_state(code) == body_steps(self.compiled(), entries.take(i as int)),
                wf_ast ==> forall|j: int|
                    0 <= j < i && (#[trigger] call_name(entries[j].1)) is Some && first_compiled(
                        self.compiled(),
                        call_name(entries[j].1)->0,
                    ) is None ==> !is_target(start_targets, call_name(entries[j].1)->0),
                wf_ast ==> cycles_named(*ast, diagnostics@, old(diagnostics)@),
                p0 == old(self).progress(),
                fuel == old(self).targets_left(),
                wf_ast ==> self.progress() == body_run(
                    *ast,
                    p0,
                    Some(macro_def.macro_type),
                    name@,
                    entries,
                    i as int,
                    fuel,
                ).0 && errors_view(diagnostics@) == errors_view(old(diagnostics)@) + body_run(
                    *ast,
                    p0,
                    Some(macro_def.macro_type),
                    name@,
                    entries,
                    i as int,
                    fuel,
                ).1,
                wf_ast && no_recursion(*ast) ==> diagnostics@.to_multiset() == old(
                    diagnostics,
                )@.to_multiset().add(
                    instructions_errors(
                        *ast,
                        Some(macro_def.macro_type),
                        entries,
                        i as int,
                    ).to_multiset(),
                ).add(new_bodies_errors(*ast, start_list, self.compiled()).to_multiset()),
                wf_ast && !recursion_reported(diagnostics@, old(diagnostics)@) ==> callees_before(
                    *ast,
                    start_list,
                    self.compiled(),
                ) && forall|j: int|
                    0 <= j < i && (#[trigger] call_name(entries[j].1)) is Some && declared(
                        *ast,
                        call_name(entries[j].1)->0,
                    ) ==> first_compiled(self.compiled(), call_name(entries[j].1)->0) is Some,
                wf_ast && no_recursion(*ast) ==> ((diagnostics@.len() == old(diagnostics)@.len()) == (
                (forall|j: int|
                    0 <= j < i ==> instruction_ok(
                        *ast,
                        Some(macro_def.macro_type),
                        (#[trigger] entries[j]).1,
                        entries,
                    )) && new_bodies_ok(*ast, start_list, self.compiled()))),
            decreases n - i,
        {
            match code_get_index(&macro_def.instr, i) {
                Some((_, instruction)) => {
                    let ghost list = self.compiled();
                    let ghost targets = self.target_macros;
                    let ghost len_before = diagnostics@.len();
                    let ghost errors_before = diagnostics@;
                    proof {
                        if wf_ast {
                            if call_name(*instruction) is Some {
                                assert(ast::code_entries(
                                    macro_entries(ast.macros)[key_index].1.instr,
                                )[i as int] == entries[i as int]);
                                assert(calls(*ast, name@, call_name(*instruction)->0));
                            }
                            assert forall|x: Seq<char>| declared(*ast, x) implies is_target(
                                self.target_macros,
                                x,
                            ) || first_compiled(self.compiled(), x) is Some || names_have(
                                self.waiting@,
                                x,
                            ) || x == macro_def.name.content@ by {
                                if first_compiled(start_list, x) is Some {
                                    lemma_first_compiled_kept(self.compiled(), start_list, x);
                                }
                            }
                        }
                    }
                    self.precompile_instruction(
                        Some(macro_def.macro_type),
                        macro_def.name.content.as_str(),
                        instruction,
                        &mut code,
                        &macro_def.instr,
                        diagnostics,
                        Ghost(old(self).targets_left()),
                    );
                    proof {
                        if wf_ast {
                            let after = self.compiled();
                            assert forall|j: int|
                                0 <= j < i && (#[trigger] call_name(entries.take(i as int)[j].1))
                                    is Some implies first_compiled(
                                after,
                                call_name(entries.take(i as int)[j].1)->0,
                            ) == first_compiled(list, call_name(entries.take(i as int)[j].1)->0) by {
                                let c = call_name(entries[j].1)->0;
                                assert(entries.take(i as int)[j] == entries[j]);
                                if first_compiled(list, c) is Some {
                                    lemma_first_compiled_kept(after, list, c);
                                } else {
                                    assert forall|k: int|
                                        list.len() <= k < after.len() implies (
                                        #[trigger] after[k]).0.name.content@ != c by {
                                        assert(is_target(targets, after[k].0.name.content@));
                                    }
                                    lemma_first_compiled_none_kept(after, list, c);
                                }
                            }
                            lemma_body_steps_stable(after, list, entries.take(i as int));
                            assert(entries.take(i + 1).drop_last() =~= entries.take(i as int));
                            assert(entries.take(i + 1).last() == entries[i as int]);
                            assert forall|x: Seq<char>|
                                is_target(start_targets, x) implies is_target(self.target_macros, x)
                                    || first_compiled(self.compiled(), x) is Some by {
                                if first_compiled(list, x) is Some {
                                    lemma_first_compiled_kept(after, list, x);
                                }
                            }
                            assert forall|j: int|
                                0 <= j < i + 1 && (#[trigger] call_name(entries[j].1)) is Some
                                    && first_compiled(after, call_name(entries[j].1)->0) is None
                                    implies !is_target(start_targets, call_name(entries[j].1)->0) by {
                                let c = call_name(entries[j].1)->0;
                                if first_compiled(list, c) is Some {
                                    lemma_first_compiled_kept(after, list, c);
                                }
                            }
                            lemma_cycles_named_trans(
                                *ast,
                                old(diagnostics)@,
                                errors_before,
                                diagnostics@,
                            );
                            lemma_body_run_next(
                                *ast,
                                p0,
                                Some(macro_def.macro_type),
                                name@,
                                entries,
                                i + 1,
                                fuel,
                            );
                            assert(entries[i as int].1 == *instruction);
                            assert(errors_view(diagnostics@) =~= errors_view(old(diagnostics)@)
                                + body_run(
                                *ast,
                                p0,
                                Some(macro_def.macro_type),
                                name@,
                                entries,
                                i + 1,
                                fuel,
                            ).1);
                            if !recursion_reported(diagnostics@, old(diagnostics)@) {
                                lemma_recursion_reported_split(
                                    old(diagnostics)@,
                                    errors_before,
                                    diagnostics@,
                                );
                                lemma_callees_before_trans(*ast, start_list, list, after);
                                assert forall|j: int|
                                    0 <= j < i + 1 && (#[trigger] call_name(entries[j].1)) is Some
                                        && declared(*ast, call_name(entries[j].1)->0)
                                        implies first_compiled(after, call_name(entries[j].1)->0)
                                        is Some by {
                                    let c = call_name(entries[j].1)->0;
                                    if j < i {
                                        lemma_first_compiled_kept(after, list, c);
                                    } else {
                                        assert(entries[j].1 == *instruction);
                                    }
                                }
                            }
                            if no_recursion(*ast) {
                                lemma_new_bodies_split(*ast, start_list, list, after);
                                assert(entries[i as int].1 == *instruction);
                                lemma_errors_step(
                                    *ast,
                                    Some(macro_def.macro_type),
                                    entries,
                                    i as int,
                                    old(diagnostics)@,
                                    errors_before,
                                    diagnostics@,
                                    start_list,
                                    list,
                                    after,
                                );
                                assert((forall|j: int|
                                    0 <= j < i + 1 ==> instruction_ok(
                                        *ast,
                                        Some(macro_def.macro_type),
                                        (#[trigger] entries[j]).1,
                                        entries,
                                    )) == ((forall|j: int|
                                    0 <= j < i ==> instruction_ok(
                                        *ast,
                                        Some(macro_def.macro_type),
                                        (#[trigger] entries[j]).1,
                                        entries,
                                    )) && instruction_ok(
                                    *ast,
                                    Some(macro_def.macro_type),
                                    entries[i as int].1,
                                    entries,
                                )));
                            }
                        }
                    }
                },
                None => {},
            }
            i = i + 1;
        }
        proof {
            assert(entries.take(i as int) =~= entries);
        }
        let ghost end_list = self.compiled();
        let ghost end_precompileds = self.precompileds@;
        let program = code.finish();
        let ghost program_view = program@;
        let precompiled = PreCompiled::new(macro_def, program);
        self.precompileds.push(precompiled);
        proof {
            assert forall|k: int| 0 <= k < self.precompileds.len() implies only_builtins(
                (#[trigger] self.precompileds@[k]).spec_program()@,
            ) && self.precompileds@[k].spec_program().wf() by {
                if k < end_list.len() {
                    assert(self.precompileds@[k] == end_precompileds[k]);
                }
            }
            assert(self.compiled() =~= end_list.push((*macro_def, builtins_view(program_view))));
            if wf_ast {
                assert(compiled_names(self.compiled()) =~= compiled_names(end_list).push(name@));
            }
            if wf_ast && no_recursion(*ast) {
                lemma_errors_finish(
                    *ast,
                    *macro_def,
                    builtins_view(program_view),
                    old(diagnostics)@,
                    diagnostics@,
                    start_list,
                    end_list,
                );
            }
            if wf_ast {
                let list = self.compiled();
                assert(list.take(end_list.len() as int) =~= end_list);
                assert(list.drop_last() =~= end_list);
                assert forall|k: int| 0 <= k < list.len() implies is_definition_in(
                    *ast,
                    (#[trigger] list[k]).0,
                ) && list[k].1 == body_compiled(
                    list.take(k),
                    ast::code_entries(list[k].0.instr),
                ) by {
                    if k < end_list.len() {
                        assert(list[k] == end_list[k]);
                        assert(list.take(k) =~= end_list.take(k));
                    }
                }
                let key_index = choose|m: int|
                    0 <= m < macro_entries(ast.macros).len() && (#[trigger] macro_entries(
                        ast.macros,
                    )[m]).0@ == name@ && macro_entries(ast.macros)[m].1 == *macro_def;
                assert(macro_entries(ast.macros)[key_index].0@ == macro_def.name.content@);
                assert forall|x: Seq<char>|
                    is_target(start_targets, x) implies is_target(self.target_macros, x)
                        || first_compiled(list, x) is Some by {
                    if first_compiled(end_list, x) is Some {
                        lemma_first_compiled_kept(list, end_list, x);
                    }
                }
                assert(first_compiled(list, name@) is Some);
                assert forall|k: int| start_list.len() <= k < end_list.len() implies (
                #[trigger] end_list[k]).0.name.content@ != name@ by {
                    assert(is_target(start_targets, end_list[k].0.name.content@));
                }
                lemma_first_compiled_none_kept(end_list, start_list, name@);
                assert forall|k: int| 0 <= k < list.len() implies first_compiled(
                    list,
                    (#[trigger] list[k]).0.name.content@,
                ) == Some(k) by {
                    if k < end_list.len() {
                        assert(list[k] == end_list[k]);
                        lemma_first_compiled_kept(list, end_list, list[k].0.name.content@);
                    }
                }
                assert forall|x: Seq<char>| is_target(self.target_macros, x) implies first_compiled(
                    list,
                    x,
                ) is None by {
                    assert(is_target(start_targets, x));
                    assert(first_compiled(end_list, x) is None);
                }
                if !recursion_reported(diagnostics@, old(diagnostics)@) {
                    assert forall|k: int, j: int|
                        end_list.len() <= k < list.len() && 0 <= j < ast::code_entries(
                            (#[trigger] list[k]).0.instr,
                        ).len() && call_name(
                            (#[trigger] ast::code_entries(list[k].0.instr)[j]).1,
                        ) is Some && declared(
                            *ast,
                            call_name(ast::code_entries(list[k].0.instr)[j].1)->0,
                        ) implies first_compiled(
                        list.take(k),
                        call_name(ast::code_entries(list[k].0.instr)[j].1)->0,
                    ) is Some by {
                        assert(list.take(k) =~= end_list);
                        assert(list[k].0 == *macro_def);
                        assert(call_name(entries[j].1) is Some);
                    }
                    assert(callees_before(*ast, end_list, list));
                    lemma_callees_before_trans(*ast, start_list, end_list, list);
                }
                if no_recursion(*ast) {
                    lemma_new_bodies_split(*ast, start_list, end_list, list);
                    assert(list[end_list.len() as int].0 == *macro_def);
                    assert(new_bodies_ok(*ast, end_list, list) == body_ok(
                        *ast,
                        Some(macro_def.macro_type),
                        entries,
                    ));
                }
                assert forall|k: int, j: int|
                    0 <= k < list.len() && 0 <= j < ast::code_entries(
                        (#[trigger] list[k]).0.instr,
                    ).len() && call_name(
                        (#[trigger] ast::code_entries(list[k].0.instr)[j]).1,
                    ) is Some && declared(
                        *ast,
                        call_name(ast::code_entries(list[k].0.instr)[j].1)->0,
                    ) implies first_compiled(
                    list.take(k),
                    call_name(ast::code_entries(list[k].0.instr)[j].1)->0,
                ) is Some || reaches(
                    *ast,
                    call_name(ast::code_entries(list[k].0.instr)[j].1)->0,
                    list[k].0.name.content@,
                ) by {
                    if k < end_list.len() {
                        assert(list[k] == end_list[k]);
                        assert(list.take(k) =~= end_list.take(k));
                    } else {
                        let c = call_name(entries[j].1)->0;
                        assert(list.take(k) =~= end_list);
                        if first_compiled(end_list, c) is None {
                            if first_compiled(start_list, c) is Some {
                                lemma_first_compiled_kept(end_list, start_list, c);
                            }
                            if c == name@ {
                                lemma_reaches_self(*ast, c);
                            } else {
                                let w = self.waiting@;
                                let m = choose|m: int| 0 <= m < w.len() && (#[trigger] w[m])@ == c;
                                lemma_chain_reaches(*ast, w, name@, m);
                            }
                        }
                    }
                }
            }
        }
    }

    /// Compiles an instruction of a body of kind `kind` (`None` for `main`)
    /// into `code`.
    #[verifier::spinoff_prover]
    #[verifier::rlimit(80)]
    fn precompile_instruction(
        &mut self,
        kind: Option<ast::MacroType>,
        caller_name: &str,
        instr: &'ast ast::Instruction,
        code: &mut WorkingCode,
        ast_code: &'ast IndexMap<String, ast::Instruction>,
        diagnostics: &mut Diagnostics,
        Ghost(fuel): Ghost<nat>,
    )
        requires
            old(self).wf(),
            old(self).bookkept(),
            old(code).wf(),
            old(self).targets_left() <= fuel,
            parser::program_wf(*old(self).ast) ==> chain_ok(
                *old(self).ast,
                old(self).waiting@,
                caller_name@,
            ) && (call_name(*instr) is Some ==> calls(
                *old(self).ast,
                caller_name@,
                call_name(*instr)->0,
            ) || forall|x: Seq<char>|
                declared(*old(self).ast, x) ==> first_compiled(old(self).compiled(), x) is Some)
                && forall|x: Seq<char>|
                declared(*old(self).ast, x) ==> is_target(old(self).target_macros, x)
                    || first_compiled(old(self).compiled(), x) is Some || names_have(
                    old(self).waiting@,
                    x,
                ) || x == caller_name@,
        ensures
            final(self).wf(),
            final(self).bookkept(),
            final(self).waiting@ == old(self).waiting@,
            final(code).wf(),
            forall|x: Seq<char>|
                is_target(final(self).target_macros, x) ==> is_target(old(self).target_macros, x),
            parser::program_wf(*old(self).ast) ==> forall|x: Seq<char>|
                is_target(old(self).target_macros, x) ==> is_target(final(self).target_macros, x)
                    || first_compiled(final(self).compiled(), x) is Some,
            parser::program_wf(*old(self).ast) ==> forall|k: int|
                old(self).compiled().len() <= k < final(self).compiled().len()
                    ==> is_target(
                    old(self).target_macros,
                    (#[trigger] final(self).compiled()[k]).0.name.content@,
                ),
            parser::program_wf(*old(self).ast) ==> (call_name(*instr) is Some && first_compiled(
                final(self).compiled(),
                call_name(*instr)->0,
            ) is None ==> !is_target(old(self).target_macros, call_name(*instr)->0)),
            parser::program_wf(*old(self).ast) && !recursion_reported(final(diagnostics)@, old(diagnostics)@)
                ==> callees_before(*old(self).ast, old(self).compiled(), final(self).compiled()) && (
            call_name(*instr) is Some && declared(*old(self).ast, call_name(*instr)->0)
                ==> first_compiled(final(self).compiled(), call_name(*instr)->0) is Some),
            parser::program_wf(*old(self).ast) ==> cycles_named(
                *old(self).ast,
                final(diagnostics)@,
                old(diagnostics)@,
            ),
            parser::program_wf(*old(self).ast) ==> final(self).progress() == instruction_run(
                *old(self).ast,
                old(self).progress(),
                kind,
                caller_name@,
                *instr,
                ast::code_entries(*ast_code),
                fuel,
            ).0 && errors_view(final(diagnostics)@) == errors_view(old(diagnostics)@)
                + instruction_run(
                *old(self).ast,
                old(self).progress(),
                kind,
                caller_name@,
                *instr,
                ast::code_entries(*ast_code),
                fuel,
            ).1,
            parser::program_wf(*old(self).ast) && no_recursion(*old(self).ast)
                ==> final(diagnostics)@.to_multiset() == old(diagnostics)@.to_multiset().add(
                instruction_errors(
                    *old(self).ast,
                    kind,
                    *instr,
                    ast::code_entries(*ast_code),
                ).to_multiset(),
            ).add(
                new_bodies_errors(
                    *old(self).ast,
                    old(self).compiled(),
                    final(self).compiled(),
                ).to_multiset(),
            ),
            parser::program_wf(*old(self).ast) && no_recursion(*old(self).ast) ==> ((final(diagnostics)@.len()
                == old(diagnostics)@.len()) == (instruction_ok(
                *old(self).ast,
                kind,
                *instr,
                ast::code_entries(*ast_code),
            ) && new_bodies_ok(*old(self).ast, old(self).compiled(), final(self).compiled()))),
            extends(final(diagnostics)@, old(diagnostics)@),
            extends(
                final(diagnostics)@,
                old(diagnostics)@ + jump_errors(kind, *instr, ast::code_entries(*ast_code)),
            ),
            final(self).ast == old(self).ast,
            final(self).targets_left() <= old(self).targets_left(),
            compiled_extends(final(self).compiled(), old(self).compiled()),
            old(self).targets_left() == 0 ==> final(self).precompileds@ == old(
                self,
            ).precompileds@,
            code_state(*final(code)) == instruction_step(
                final(self).compiled(),
                code_state(*old(code)),
                *instr,
            ),
            is_builtin_instruction(*instr) ==> final(diagnostics)@ == old(diagnostics)@
                + jump_errors(kind, *instr, ast::code_entries(*ast_code))
                && final(code).spec_expanded_labels() == old(code).spec_expanded_labels()
                && builtins_view(final(code).spec_program()@) == insert_view(
                builtins_view(old(code).spec_program()@),
                compiled_builtin(*instr),
            ),
        decreases self.targets_left(), 1nat,
    {
        let ghost errors = jump_errors(kind, *instr, ast::code_entries(*ast_code));
        proof {
            lemma_instruction_run(
                *self.ast,
                self.progress(),
                kind,
                caller_name@,
                *instr,
                ast::code_entries(*ast_code),
                fuel,
            );
        }
        match &instr.instruction_type {
            ast::InstructionType::Operation(operation) => {
                validate_label(kind, &operation.next_label, ast_code, diagnostics);
                proof {
                    assert(diagnostics@ == old(diagnostics)@ + errors);
                }
                let ghost mid = diagnostics@;
                proof {
                    lemma_errors_view_add(old(diagnostics)@, errors);
                    lemma_jump_errors_no_cycle(kind, *instr, ast::code_entries(*ast_code));
                    lemma_cycles_named_append(*self.ast, old(diagnostics)@, errors);
                }
                match &operation.oper_type {
                    ast::OperationType::BuiltIn(builtin_oper, argument) => {
                        let oper_kind = match builtin_oper {
                            BuiltInOperation::Inc => OperationKind::Inc(argument.content.clone()),
                            BuiltInOperation::Dec => OperationKind::Dec(argument.content.clone()),
                        };
                        let runtime_oper = Operation {
                            kind: oper_kind,
                            next: operation.next_label.content.clone(),
                        };
                        code.insert_instr(
                            Instruction::new(
                                instr.label.content.clone(),
                                InstructionKind::Operation(runtime_oper),
                            ),
                        );
                        proof {
                            lemma_errors_builtin(
                                *self.ast,
                                kind,
                                *instr,
                                ast::code_entries(*ast_code),
                                old(diagnostics)@,
                                diagnostics@,
                                self.compiled(),
                            );
                        }
                    },
                    ast::OperationType::Macro(macro_name, arguments) => {
                        self.precompile_macro_call(
                            caller_name,
                            &instr.label,
                            operation,
                            &OperMacroCallExpansor,
                            macro_name,
                            arguments,
                            code,
                            diagnostics,
                            Ghost(fuel),
                        );
                        proof {
                            if parser::program_wf(*self.ast) {
                                lemma_cycles_named_trans(
                                    *self.ast,
                                    old(diagnostics)@,
                                    mid,
                                    diagnostics@,
                                );
                            }
                            if parser::program_wf(*self.ast) && no_recursion(*self.ast) {
                                lemma_errors_call(
                                    *self.ast,
                                    kind,
                                    *instr,
                                    ast::code_entries(*ast_code),
                                    call_errors(
                                        *self.ast,
                                        *macro_name,
                                        arguments@,
                                        ast::MacroType::Operation,
                                    ),
                                    old(diagnostics)@,
                                    mid,
                                    diagnostics@,
                                    old(self).compiled(),
                                    self.compiled(),
                                );
                            }
                        }
                    },
                }
            },
            ast::InstructionType::Test(test) => {
                validate_label(kind, &test.next_true_label, ast_code, diagnostics);
                validate_label(kind, &test.next_false_label, ast_code, diagnostics);
                proof {
                    assert(diagnostics@ =~= old(diagnostics)@ + errors);
                }
                let ghost mid = diagnostics@;
                proof {
                    lemma_errors_view_add(old(diagnostics)@, errors);
                    lemma_jump_errors_no_cycle(kind, *instr, ast::code_entries(*ast_code));
                    lemma_cycles_named_append(*self.ast, old(diagnostics)@, errors);
                }
                match &test.test_type {
                    ast::TestType::BuiltIn(builtin_test, argument) => {
                        let test_kind = match builtin_test {
                            BuiltInTest::Zero => TestKind::Zero(argument.content.clone()),
                        };
                        let runtime_test = Test {
                            kind: test_kind,
                            next_then: test.next_true_label.content.clone(),
                            next_else: test.next_false_label.content.clone(),
                        };
                        code.insert_instr(
                            Instruction::new(
                                instr.label.content.clone(),
                                InstructionKind::Test(runtime_test),
                            ),
                        );
                        proof {
                            lemma_errors_builtin(
                                *self.ast,
                                kind,
                                *instr,
                                ast::code_entries(*ast_code),
                                old(diagnostics)@,
                                diagnostics@,
                                self.compiled(),
                            );
                        }
                    },
                    ast::TestType::Macro(macro_name, arguments) => {
                        self.precompile_macro_call(
                            caller_name,
                            &instr.label,
                            test,
                            &TestMacroCallExpansor,
                            macro_name,
                            arguments,
                            code,
                            diagnostics,
                            Ghost(fuel),
                        );
                        proof {
                            if parser::program_wf(*self.ast) {
                                lemma_cycles_named_trans(
                                    *self.ast,
                                    old(diagnostics)@,
                                    mid,
                                    diagnostics@,
                                );
                            }
                            if parser::program_wf(*self.ast) && no_recursion(*self.ast) {
                                lemma_errors_call(
                                    *self.ast,
                                    kind,
                                    *instr,
                                    ast::code_entries(*ast_code),
                                    call_errors(
                                        *self.ast,
                                        *macro_name,
                                        arguments@,
                                        ast::MacroType::Test,
                                    ),
                                    old(diagnostics)@,
                                    mid,
                                    diagnostics@,
                                    old(self).compiled(),
                                    self.compiled(),
                                );
                            }
                        }
                    },
                }
            },
        }
    }

    /// The index of the first compiled macro named `name`, if there is one.
    fn find_precompiled(&self, name: &String) -> (result: Option<usize>)
        ensures
            match result {
                Some(i) => first_compiled(self.compiled(), name@) == Some(i as int) && i
                    < self.precompileds@.len(),
                None => first_compiled(self.compiled(), name@) is None,
            },
    {
        let ghost compiled = self.compiled();
        let mut i: usize = 0;
        proof {
            assert(compiled.take(0) =~= Seq::<CompiledView>::empty());
        }
        while i < self.precompileds.len()
            invariant
                i <= self.precompileds.len(),
                compiled == self.compiled(),
                first_compiled(compiled.take(i as int), name@) is None,
            decreases self.precompileds.len() - i,
        {
            proof {
                assert(compiled.take(i + 1).drop_last() =~= compiled.take(i as int));
            }
            if self.precompileds[i].macro_data().name.content == *name {
                proof {
                    assert(first_compiled(compiled.take(i + 1), name@) == Some(i as int));
                    lemma_first_compiled_kept(compiled, compiled.take(i + 1), name@);
                    lemma_first_compiled_found(compiled, name@);
                }
                return Some(i);
            }
            i = i + 1;
        }
        proof {
            assert(compiled.take(i as int) =~= compiled);
        }
        None
    }

    /// The callers waiting from the last that is `name` on, if any is.
    fn waiting_from(&self, name: &String) -> (result: Vec<String>)
        ensures
            (exists|k: int| 0 <= k < self.waiting@.len() && (#[trigger] self.waiting@[k])@ == name@)
                ==> exists|k: int|
                0 <= k < self.waiting@.len() && (#[trigger] self.waiting@[k])@ == name@ && (forall|
                    j: int,
                | k < j < self.waiting@.len() ==> (#[trigger] self.waiting@[j])@ != name@)
                    && names_view(result@) == names_view(self.waiting@.skip(k)),
            !(exists|k: int|
                0 <= k < self.waiting@.len() && (#[trigger] self.waiting@[k])@ == name@) ==> result@.len()
                == 0,
    {
        let mut result: Vec<String> = Vec::new();
        let mut i = self.waiting.len();
        while i > 0
            invariant
                i <= self.waiting@.len(),
                result@.len() == 0,
                forall|j: int| i <= j < self.waiting@.len() ==> (#[trigger] self.waiting@[j])@ != name@,
            decreases i,
        {
            if self.waiting[i - 1] == *name {
                let k = i - 1;
                let mut j = k;
                while j < self.waiting.len()
                    invariant
                        k <= j <= self.waiting@.len(),
                        names_view(result@) == names_view(self.waiting@.subrange(k as int, j as int)),
                    decreases self.waiting.len() - j,
                {
                    let ghost before = result@;
                    let item = self.waiting[j].clone();
                    proof {
                        assert(item@ == self.waiting@[j as int]@);
                    }
                    result.push(item);
                    proof {
                        assert(names_view(result@) =~= names_view(before).push(item@));
                        assert(names_view(result@) =~= names_view(
                            self.waiting@.subrange(k as int, j + 1),
                        ));
                    }
                    j = j + 1;
                }
                proof {
                    assert(self.waiting@.subrange(k as int, j as int) =~= self.waiting@.skip(k as int));
                    assert(self.waiting@[k as int]@ == name@);
                }
                return result;
            }
            i = i - 1;
        }
        result
    }

    /// Compiles a call of the macro `macro_name` made by the instruction
    /// labelled `label` of the body of `caller_name`: expands the macro,
    /// compiling it first where it has not been, or raises an error where it
    /// is of the wrong kind, calls itself, or does not exist.
    #[verifier::spinoff_prover]
    #[verifier::rlimit(100)]
    fn precompile_macro_call<E: MacroCallExpansor>(
        &mut self,
        caller_name: &str,
        label: &'ast ast::Symbol,
        instr_kind: &'ast E::InstructionKind,
        call_expansor: &E,
        macro_name: &'ast ast::Symbol,
        arguments: &'ast Vec<ast::MacroArgument>,
        code: &mut WorkingCode,
        diagnostics: &mut Diagnostics,
        Ghost(fuel): Ghost<nat>,
    )
        requires
            old(self).wf(),
            old(self).bookkept(),
            old(code).wf(),
            old(self).targets_left() <= fuel,
            parser::program_wf(*old(self).ast) ==> chain_ok(
                *old(self).ast,
                old(self).waiting@,
                caller_name@,
            ) && (calls(*old(self).ast, caller_name@, macro_name.content@) || forall|x: Seq<char>|
                declared(*old(self).ast, x) ==> first_compiled(old(self).compiled(), x) is Some)
                && forall|x: Seq<char>|
                declared(*old(self).ast, x) ==> is_target(old(self).target_macros, x)
                    || first_compiled(old(self).compiled(), x) is Some || names_have(
                    old(self).waiting@,
                    x,
                ) || x == caller_name@,
        ensures
            final(self).wf(),
            final(self).bookkept(),
            final(self).waiting@ == old(self).waiting@,
            final(code).wf(),
            extends(final(diagnostics)@, old(diagnostics)@),
            final(self).ast == old(self).ast,
            final(self).targets_left() <= old(self).targets_left(),
            compiled_extends(final(self).compiled(), old(self).compiled()),
            old(self).targets_left() == 0 ==> final(self).precompileds@ == old(
                self,
            ).precompileds@,
            forall|x: Seq<char>|
                is_target(final(self).target_macros, x) ==> is_target(old(self).target_macros, x),
            parser::program_wf(*old(self).ast) ==> forall|x: Seq<char>|
                is_target(old(self).target_macros, x) ==> is_target(final(self).target_macros, x)
                    || first_compiled(final(self).compiled(), x) is Some,
            parser::program_wf(*old(self).ast) ==> forall|k: int|
                old(self).compiled().len() <= k < final(self).compiled().len()
                    ==> is_target(
                    old(self).target_macros,
                    (#[trigger] final(self).compiled()[k]).0.name.content@,
                ),
            parser::program_wf(*old(self).ast) ==> (first_compiled(
                final(self).compiled(),
                macro_name.content@,
            ) is None ==> !is_target(old(self).target_macros, macro_name.content@)),
            parser::program_wf(*old(self).ast) && !recursion_reported(final(diagnostics)@, old(diagnostics)@)
                ==> callees_before(*old(self).ast, old(self).compiled(), final(self).compiled()) && (
            declared(*old(self).ast, macro_name.content@) ==> first_compiled(
                final(self).compiled(),
                macro_name.content@,
            ) is Some),
            parser::program_wf(*old(self).ast) ==> cycles_named(
                *old(self).ast,
                final(diagnostics)@,
                old(diagnostics)@,
            ),
            parser::program_wf(*old(self).ast) ==> final(self).progress() == call_run(
                *old(self).ast,
                old(self).progress(),
                caller_name@,
                *macro_name,
                arguments@,
                call_expansor.spec_macro_type(),
                fuel,
            ).0 && errors_view(final(diagnostics)@) == errors_view(old(diagnostics)@) + call_run(
                *old(self).ast,
                old(self).progress(),
                caller_name@,
                *macro_name,
                arguments@,
                call_expansor.spec_macro_type(),
                fuel,
            ).1,
            parser::program_wf(*old(self).ast) && no_recursion(*old(self).ast)
                ==> final(diagnostics)@.to_multiset() == old(diagnostics)@.to_multiset().add(
                call_errors(
                    *old(self).ast,
                    *macro_name,
                    arguments@,
                    call_expansor.spec_macro_type(),
                ).to_multiset(),
            ).add(
                new_bodies_errors(
                    *old(self).ast,
                    old(self).compiled(),
                    final(self).compiled(),
                ).to_multiset(),
            ),
            parser::program_wf(*old(self).ast) && no_recursion(*old(self).ast) ==> ((final(diagnostics)@.len()
                == old(diagnostics)@.len()) == (call_ok(
                *old(self).ast,
                macro_name.content@,
                arguments@,
                call_expansor.spec_macro_type(),
            ) && new_bodies_ok(*old(self).ast, old(self).compiled(), final(self).compiled()))),
            code_state(*final(code)) == call_step(
                final(self).compiled(),
                code_state(*old(code)),
                macro_name.content@,
                arguments@,
                label.content@,
                (
                    call_expansor.true_label(instr_kind),
                    call_expansor.false_label(instr_kind),
                    call_expansor.invalid_label(instr_kind),
                ),
                call_expansor.spec_macro_type(),
            ),
        decreases self.targets_left(), 0nat,
    {
        let ghost d0 = diagnostics@.len();
        let ghost dd0 = diagnostics@;
        let ghost list0 = self.compiled();
        let ghost checked = parser::program_wf(*self.ast) && no_recursion(*self.ast);
        let ghost wf = parser::program_wf(*self.ast);
        let ghost p0 = self.progress();
        let ghost c = macro_name.content@;
        let ghost call_view = errors_view(
            call_errors(*self.ast, *macro_name, arguments@, call_expansor.spec_macro_type()),
        );
        let ghost expected = call_run(
            *self.ast,
            p0,
            caller_name@,
            *macro_name,
            arguments@,
            call_expansor.spec_macro_type(),
            fuel,
        );
        let ghost mut pre: Seq<ErrorView> = Seq::empty();
        proof {
            lemma_compiled_names(list0, c);
        }
        let found = match self.find_precompiled(&macro_name.content) {
            Some(index) => {
                proof {
                    if wf {
                        lemma_call_run_compiled(
                            *self.ast,
                            p0,
                            caller_name@,
                            *macro_name,
                            arguments@,
                            call_expansor.spec_macro_type(),
                            fuel,
                        );
                        assert(errors_view(dd0) + pre =~= errors_view(dd0));
                        assert(expected.1 =~= pre + call_view);
                    }
                }
                proof {
                    assert(new_bodies_errors(*self.ast, list0, self.compiled()) =~= Seq::<
                        Error,
                    >::empty());
                    assert(dd0 + Seq::<Error>::empty() =~= dd0);
                    vstd::seq_lib::lemma_multiset_commutative(dd0, Seq::<Error>::empty());
                }
                Some(index)
            },
            None => {
                let ghost targets_before = target_items(self.target_macros);
                let ghost head = self.target_macros;
                if targets_swap_remove(&mut self.target_macros, macro_name.content.as_str()) {
                    proof {
                        let i = choose|i: int|
                            0 <= i < targets_before.len() && (#[trigger] targets_before[i])@
                                == macro_name.content@ && target_items(self.target_macros)
                                == targets_before.update(i, targets_before.last()).drop_last();
                        lemma_swap_remove_names(targets_before, i);
                        if parser::program_wf(*self.ast) {
                            lemma_swap_removed(targets_before, i);
                            lemma_swap_remove_distinct(targets_before, i);
                            assert(is_target(head, macro_name.content@));
                            assert(first_compiled(self.compiled(), macro_name.content@) is None);
                            assert forall|x: Seq<char>|
                                is_target(self.target_macros, x) implies first_compiled(
                                self.compiled(),
                                x,
                            ) is None && declared(*self.ast, x) by {
                                assert(is_target(head, x));
                            }
                        }
                    }
                    let caller = String::from_str(caller_name);
                    let ghost waiting_before = self.waiting@;
                    proof {
                        if parser::program_wf(*self.ast) {
                            assert(is_target(old(self).target_macros, macro_name.content@));
                            assert(declared(*self.ast, macro_name.content@));
                            assert(calls(*self.ast, caller_name@, macro_name.content@));
                        }
                    }
                    self.waiting.push(caller);
                    proof {
                        if parser::program_wf(*self.ast) {
                            let w = self.waiting@;
                            assert(w == waiting_before.push(caller));
                            assert forall|j: int| 0 <= j < w.len() implies calls(
                                *self.ast,
                                (#[trigger] w[j])@,
                                names_view(w).push(macro_name.content@)[j + 1],
                            ) by {
                                if j < waiting_before.len() {
                                    assert(w[j] == waiting_before[j]);
                                    assert(names_view(w).push(macro_name.content@)[j + 1]
                                        == names_view(waiting_before).push(caller_name@)[j + 1]);
                                }
                            }
                            assert forall|x: Seq<char>| declared(*self.ast, x) implies is_target(
                                self.target_macros,
                                x,
                            ) || first_compiled(self.compiled(), x) is Some || names_have(
                                self.waiting@,
                                x,
                            ) || x == macro_name.content@ by {
                                if names_have(waiting_before, x) {
                                    let m = choose|m: int|
                                        0 <= m < waiting_before.len() && (
                                        #[trigger] waiting_before[m])@ == x;
                                    assert(w[m] == waiting_before[m]);
                                } else if x == caller_name@ {
                                    assert(w[waiting_before.len() as int] == caller);
                                }
                            }
                        }
                    }
                    let ghost d_before = diagnostics@;
                    let ghost list_before = self.compiled();
                    let ghost p1 = self.progress();
                    proof {
                        if wf {
                            assert(names_view(self.waiting@) =~= p0.2.push(caller_name@));
                            assert(p1 == (p0.0, swap_removed(p0.1, c), p0.2.push(caller_name@)));
                            lemma_call_run_target(
                                *self.ast,
                                p0,
                                caller_name@,
                                *macro_name,
                                arguments@,
                                call_expansor.spec_macro_type(),
                                fuel,
                            );
                        }
                    }
                    self.precompile_macro(macro_name.content.as_str(), diagnostics);
                    proof {
                        assert(list_before == list0);
                        assert(d_before == dd0);
                    }
                    self.waiting.pop();
                    proof {
                        assert(self.waiting@ =~= waiting_before);
                        if wf {
                            let inner = macro_run(*self.ast, p1, c, p1.1.len());
                            pre = inner.1;
                            lemma_compiled_names(self.compiled(), c);
                            assert(self.progress() == expected.0);
                        }
                    }
                    self.find_precompiled(&macro_name.content)
                } else {
                    proof {
                        if parser::program_wf(*self.ast) {
                            assert forall|x: Seq<char>|
                                is_target(self.target_macros, x) implies first_compiled(
                                self.compiled(),
                                x,
                            ) is None by {
                                assert(is_target(head, x));
                            }
                        }
                    }
                    proof {
                        if wf {
                            assert(!p0.1.contains(c)) by {
                                if p0.1.contains(c) {
                                    let k = choose|k: int| 0 <= k < p0.1.len() && p0.1[k] == c;
                                    assert(targets_before[k]@ == c);
                                }
                            }
                        }
                    }
                    self.report_missing(
                        caller_name,
                        macro_name,
                        arguments,
                        Ghost(call_expansor.spec_macro_type()),
                        diagnostics,
                        Ghost(fuel),
                    );
                    proof {
                        if declared(*self.ast, c) {
                            assert(diagnostics@[dd0.len() as int].cause is RecursiveMacro);
                            assert(recursion_reported(diagnostics@, dd0));
                        } else if call_ok(
                            *self.ast,
                            macro_name.content@,
                            arguments@,
                            call_expansor.spec_macro_type(),
                        ) {
                            lemma_call_ok_declared(
                                *self.ast,
                                macro_name.content@,
                                arguments@,
                                call_expansor.spec_macro_type(),
                            );
                        }
                        if wf {
                            assert(self.progress() == p0);
                            pre = expected.1;
                        }
                    }
                    None
                }
            },
        };
        let ghost d1 = diagnostics@.len();
        let ghost dd1 = diagnostics@;
        let ghost list1 = self.compiled();
        proof {
            if wf {
                assert(self.progress() == expected.0);
                assert(errors_view(dd1) == errors_view(dd0) + pre);
                assert(expected.1 == pre + if found is Some {
                    call_view
                } else {
                    Seq::<ErrorView>::empty()
                });
            }
        }
        proof {
            broadcast use vstd::seq_lib::lemma_multiset_commutative;

            if checked {
                if found is Some {
                    assert(dd1.to_multiset() =~= dd0.to_multiset().add(
                        new_bodies_errors(*self.ast, list0, list1).to_multiset(),
                    ));
                    lemma_found_definition(*self.ast, list1, macro_name.content@);
                } else {
                    assert(list1 =~= list0);
                    assert(new_bodies_errors(*self.ast, list0, list1) =~= Seq::<Error>::empty());
                    assert(dd1 =~= dd0 + call_errors(
                        *self.ast,
                        *macro_name,
                        arguments@,
                        call_expansor.spec_macro_type(),
                    ));
                }
            }
        }
        proof {
            if checked && found is Some {
                assert((d1 == d0) == new_bodies_ok(*self.ast, list0, self.compiled()));
                lemma_call_ok_found(
                    *self.ast,
                    self.compiled(),
                    macro_name.content@,
                    arguments@,
                    call_expansor.spec_macro_type(),
                );
            }
        }
        if let Some(index) = found {
            let precompiled = &self.precompileds[index];
            let found_type = precompiled.macro_data().macro_type;
            let expected_type = call_expansor.macro_type();
            if expected_type == found_type {
                assert(only_builtins(self.precompileds@[index as int].spec_program()@));
                assert(self.precompileds@[index as int].spec_program().wf());
                expand_macro(
                    macro_name,
                    precompiled,
                    label,
                    instr_kind,
                    call_expansor,
                    arguments,
                    code,
                    diagnostics,
                );
                proof {
                    let parameters = precompiled.spec_macro_data().parameters@;
                    let n = param_pairs(parameters, arguments@).len();
                    lemma_argument_type_errors_empty(*macro_name, arguments@, n);
                    lemma_argument_errors_no_cycle(*macro_name, parameters.len(), arguments@, n);
                    let count = argument_count_errors(*macro_name, parameters.len(), arguments@.len());
                    let types = argument_type_errors(*macro_name, arguments@, n);
                    lemma_no_cycle_errors_concat(count, types);
                    assert(diagnostics@ =~= dd1 + (count + types));
                    lemma_cycles_named_append(*self.ast, dd1, count + types);
                    if wf {
                        assert(diagnostics@ =~= dd1 + call_errors(
                            *self.ast,
                            *macro_name,
                            arguments@,
                            call_expansor.spec_macro_type(),
                        ));
                        lemma_errors_view_add(
                            dd1,
                            call_errors(
                                *self.ast,
                                *macro_name,
                                arguments@,
                                call_expansor.spec_macro_type(),
                            ),
                        );
                    }
                    if checked {
                        assert(diagnostics@ =~= dd1 + call_errors(
                            *self.ast,
                            *macro_name,
                            arguments@,
                            call_expansor.spec_macro_type(),
                        ));
                    }
                }
            } else {
                let cause = ErrorCause::IncompatibleMacroType(
                    IncompatibleMacroType {
                        macro_name: macro_name.content.clone(),
                        expected_type,
                        found_type,
                    },
                );
                diagnostics.raise(Error::new(cause, macro_name.span));
                proof {
                    let added = seq![diagnostics@.last()];
                    assert(diagnostics@ =~= dd1 + added);
                    lemma_cycles_named_append(*self.ast, dd1, added);
                    if wf {
                        assert(diagnostics@ =~= dd1 + call_errors(
                            *self.ast,
                            *macro_name,
                            arguments@,
                            call_expansor.spec_macro_type(),
                        ));
                        lemma_errors_view_add(
                            dd1,
                            call_errors(
                                *self.ast,
                                *macro_name,
                                arguments@,
                                call_expansor.spec_macro_type(),
                            ),
                        );
                    }
                    if checked {
                        assert(diagnostics@ =~= dd1 + call_errors(
                            *self.ast,
                            *macro_name,
                            arguments@,
                            call_expansor.spec_macro_type(),
                        ));
                    }
                }
            }
        }
        proof {
            if wf {
                assert(self.progress() == expected.0);
                if found is Some {
                    assert(errors_view(diagnostics@) == errors_view(dd1) + call_view);
                    assert(errors_view(diagnostics@) =~= errors_view(dd0) + expected.1);
                } else {
                    assert(errors_view(diagnostics@) =~= errors_view(dd0) + expected.1);
                }
            }
        }
        proof {
            if parser::program_wf(*self.ast) {
                assert(cycles_named(*self.ast, dd1, dd0));
                assert(extends(diagnostics@, dd1));
                if found is Some {
                    assert(cycles_named(*self.ast, diagnostics@, dd1));
                } else {
                    assert(diagnostics@ == dd1);
                }
                lemma_cycles_named_trans(*self.ast, dd0, dd1, diagnostics@);
            }
            if parser::program_wf(*self.ast) && !recursion_reported(diagnostics@, dd0) {
                assert(extends(diagnostics@, dd1));
                lemma_recursion_reported_split(dd0, dd1, diagnostics@);
                assert(self.compiled() == list1);
            }
        }
        proof {
            broadcast use vstd::seq_lib::lemma_multiset_commutative;
            broadcast use vstd::multiset::group_multiset_axioms;

            if checked {
                let call = call_errors(
                    *self.ast,
                    *macro_name,
                    arguments@,
                    call_expansor.spec_macro_type(),
                );
                let added = new_bodies_errors(*self.ast, list0, list1);
                assert(self.compiled() == list1);
                if found is Some {
                    assert(diagnostics@ =~= dd1 + call);
                    assert(diagnostics@.to_multiset() == dd1.to_multiset().add(call.to_multiset()));
                    assert(dd1.to_multiset() == dd0.to_multiset().add(added.to_multiset()));
                } else {
                    assert(diagnostics@ == dd1);
                    assert(added =~= Seq::<Error>::empty());
                    assert(diagnostics@.to_multiset() == dd0.to_multiset().add(call.to_multiset()));
                    assert(dd0 + Seq::<Error>::empty() =~= dd0);
                    vstd::seq_lib::lemma_multiset_commutative(dd0 + call, Seq::<Error>::empty());
                    assert(dd0 + call + Seq::<Error>::empty() =~= dd0 + call);
                }
                assert(diagnostics@.to_multiset() =~= dd0.to_multiset().add(call.to_multiset()).add(
                    added.to_multiset(),
                ));
            }
        }
    }

    /// Raises the error for a call of the macro `macro_name`, made by
    /// `caller_name`, that is neither compiled nor still to compile: that the
    /// call closes a cycle, where the macro is declared, or that it does not
    /// exist.
    #[verifier::spinoff_prover]
    #[verifier::rlimit(60)]
    fn report_missing(
        &self,
        caller_name: &str,
        macro_name: &ast::Symbol,
        arguments: &Vec<ast::MacroArgument>,
        Ghost(kind): Ghost<ast::MacroType>,
        diagnostics: &mut Diagnostics,
        Ghost(fuel): Ghost<nat>,
    )
        requires
            self.wf(),
            self.bookkept(),
            first_compiled(self.compiled(), macro_name.content@) is None,
            !is_target(self.target_macros, macro_name.content@),
            parser::program_wf(*self.ast) ==> chain_ok(*self.ast, self.waiting@, caller_name@) && (
            calls(*self.ast, caller_name@, macro_name.content@) || forall|x: Seq<char>|
                declared(*self.ast, x) ==> first_compiled(self.compiled(), x) is Some) && forall|
                x: Seq<char>,
            |
                declared(*self.ast, x) ==> is_target(self.target_macros, x) || first_compiled(
                    self.compiled(),
                    x,
                ) is Some || names_have(self.waiting@, x) || x == caller_name@,
        ensures
            final(diagnostics)@.len() == old(diagnostics)@.len() + 1,
            extends(final(diagnostics)@, old(diagnostics)@),
            parser::program_wf(*self.ast) ==> cycles_named(
                *self.ast,
                final(diagnostics)@,
                old(diagnostics)@,
            ),
            declared(*self.ast, macro_name.content@) ==> final(diagnostics)@.last().cause is RecursiveMacro,
            !declared(*self.ast, macro_name.content@) ==> final(diagnostics)@ == old(diagnostics)@
                + call_errors(*self.ast, *macro_name, arguments@, kind),
            parser::program_wf(*self.ast) && no_recursion(*self.ast) ==> !declared(
                *self.ast,
                macro_name.content@,
            ),
            parser::program_wf(*self.ast) ==> call_run(
                *self.ast,
                self.progress(),
                caller_name@,
                *macro_name,
                arguments@,
                kind,
                fuel,
            ).0 == self.progress() && errors_view(final(diagnostics)@) == errors_view(
                old(diagnostics)@,
            ) + call_run(
                *self.ast,
                self.progress(),
                caller_name@,
                *macro_name,
                arguments@,
                kind,
                fuel,
            ).1,
    {
        let ghost dd0 = diagnostics@;
        let ghost wf = parser::program_wf(*self.ast);
        let ghost checked = wf && no_recursion(*self.ast);
        let ghost p0 = self.progress();
        let ghost c = macro_name.content@;
        let ghost expected = call_run(
            *self.ast,
            p0,
            caller_name@,
            *macro_name,
            arguments@,
            kind,
            fuel,
        );
        proof {
            lemma_compiled_names(self.compiled(), c);
            if wf {
                assert(!p0.1.contains(c)) by {
                    if p0.1.contains(c) {
                        let k = choose|k: int| 0 <= k < p0.1.len() && p0.1[k] == c;
                        assert(target_items(self.target_macros)[k]@ == c);
                    }
                }
            }
        }
        if macros_contain(&self.ast.macros, macro_name.content.as_str()) {
            proof {
                if checked {
                    let c = macro_name.content@;
                    assert(declared(*self.ast, c));
                    assert(!is_target(self.target_macros, c));
                    assert(calls(*self.ast, caller_name@, c));
                    if c == caller_name@ {
                        lemma_reaches_self(*self.ast, c);
                    } else {
                        let w = self.waiting@;
                        let m = choose|m: int| 0 <= m < w.len() && (#[trigger] w[m])@ == c;
                        lemma_chain_reaches(*self.ast, w, caller_name@, m);
                    }
                    assert(false);
                }
            }
            let mut macro_names = self.waiting_from(&macro_name.content);
            let ghost from = macro_names@;
            let caller = String::from_str(caller_name);
            macro_names.push(caller);
            let ghost cycle = macro_names@;
            proof {
                if parser::program_wf(*self.ast) {
                    let c = macro_name.content@;
                    let w = self.waiting@;
                    assert(declared(*self.ast, c));
                    assert(first_compiled(self.compiled(), c) is None);
                    assert(calls(*self.ast, caller_name@, c));
                    assert(names_view(cycle) =~= names_view(from).push(caller_name@));
                    if exists|k: int| 0 <= k < w.len() && (#[trigger] w[k])@ == c {
                        let k = choose|k: int|
                            0 <= k < w.len() && (#[trigger] w[k])@ == c && (forall|
                                j: int,
                            | k < j < w.len() ==> (#[trigger] w[j])@ != c)
                                && names_view(from) == names_view(w.skip(k));
                        lemma_waiting_cycle(*self.ast, w, caller_name@, c, k);
                    } else {
                        assert(!names_have(w, c));
                        assert(c == caller_name@);
                        assert(names_view(cycle) =~= seq![caller_name@]);
                    }
                    assert(is_call_cycle(*self.ast, names_view(cycle)));
                }
            }
            let ghost names_value = macro_names;
            let cause = ErrorCause::RecursiveMacro(RecursiveMacro { macro_names });
            diagnostics.raise(Error::new(cause, macro_name.span));
            proof {
                if parser::program_wf(*self.ast) {
                    assert(diagnostics@ == dd0.push(diagnostics@.last()));
                    assert(diagnostics@.last().cause matches ErrorCause::RecursiveMacro(
                        r,
                    ) && r.macro_names@ == cycle);
                    assert(cycles_named(*self.ast, diagnostics@, dd0));
                }
                assert(diagnostics@[dd0.len() as int].cause is RecursiveMacro);
                assert(recursion_reported(diagnostics@, dd0));
                if wf {
                    lemma_call_run_cycle(
                        *self.ast,
                        p0,
                        caller_name@,
                        *macro_name,
                        arguments@,
                        kind,
                        fuel,
                    );
                    let w = self.waiting@;
                    assert(names_view(from) == waiting_from_name(p0.2, c)) by {
                        if p0.2.contains(c) {
                            let m = choose|m: int| 0 <= m < p0.2.len() && p0.2[m] == c;
                            assert(w[m]@ == c);
                            let k = choose|k: int|
                                0 <= k < w.len() && (#[trigger] w[k])@ == c && (forall|
                                    j: int,
                                | k < j < w.len() ==> (#[trigger] w[j])@ != c)
                                    && names_view(from) == names_view(w.skip(k));
                            assert forall|j: int| k < j < p0.2.len() implies p0.2[j]
                                != c by {
                                assert(p0.2[j] == w[j]@);
                            }
                            lemma_last_index(p0.2, c, k);
                            assert(names_view(w.skip(k)) =~= p0.2.skip(k));
                        } else {
                            assert(!exists|k: int|
                                0 <= k < w.len() && (#[trigger] w[k])@ == c) by {
                                if exists|k: int|
                                    0 <= k < w.len() && (#[trigger] w[k])@ == c {
                                    let k = choose|k: int|
                                        0 <= k < w.len() && (#[trigger] w[k])@ == c;
                                    assert(p0.2[k] == c);
                                }
                            }
                            assert(names_view(from) =~= Seq::<Seq<char>>::empty());
                        }
                    }
                    assert(diagnostics@.last() == Error {
                        cause: ErrorCause::RecursiveMacro(RecursiveMacro { macro_names: names_value }),
                        span: Some(macro_name.span),
                    });
                    order::lemma_recursion_error_view(names_value, macro_name.span);
                    assert(error_view(diagnostics@.last()) == recursion_error(
                        names_view(cycle),
                        macro_name.span,
                    ));
                                        assert(errors_view(diagnostics@) =~= errors_view(dd0) + seq![error_view(diagnostics@.last())]);
                    assert(expected.1 =~= seq![error_view(diagnostics@.last())]);
                }
            }
        } else {
            let cause = ErrorCause::UndefinedMacro(
                UndefinedMacro { macro_name: macro_name.content.clone() },
            );
            diagnostics.raise(Error::new(cause, macro_name.span));
            proof {
                let added = seq![diagnostics@.last()];
                assert(diagnostics@ =~= dd0 + added);
                lemma_cycles_named_append(*self.ast, dd0, added);
                if wf {
                    lemma_call_run_undeclared(
                        *self.ast,
                        p0,
                        caller_name@,
                        *macro_name,
                        arguments@,
                        kind,
                        fuel,
                    );
                    assert(added =~= call_errors(
                        *self.ast,
                        *macro_name,
                        arguments@,
                        kind,
                    ));
                                        lemma_errors_view_add(dd0, added);
                    assert(expected.1 =~= errors_view(added));
                }
            }
            proof {
                if call_ok(
                    *self.ast,
                    macro_name.content@,
                    arguments@,
                    kind,
                ) {
                    lemma_call_ok_declared(
                        *self.ast,
                        macro_name.content@,
                        arguments@,
                        kind,
                    );
                }
            }
        }
    }
}

/// Expands a call of the compiled macro `inner` made by the instruction
/// labelled `outer_label` into `code`: jumps to `outer_label` are sent to
/// where the expansion starts, and the macro's instructions, relabelled and
/// with parameters replaced by the call's registers, are added.
fn expand_macro<E: MacroCallExpansor>(
    call_macro_name: &ast::Symbol,
    inner: &PreCompiled,
    outer_label: &ast::Symbol,
    outer_instr_kind: &E::InstructionKind,
    call_expansor: &E,
    arguments: &Vec<ast::MacroArgument>,
    code: &mut WorkingCode,
    diagnostics: &mut Diagnostics,
)
    requires
        old(code).wf(),
        only_builtins(inner.spec_program()@),
        inner.spec_program().wf(),
    ensures
        final(code).wf(),
        builtins_view(final(code).spec_program()@) == inserted(
            builtins_view(old(code).spec_program()@),
            expansion(
                builtins_view(inner.spec_program()@),
                inner.spec_macro_data().name.content@,
                outer_label.content@,
                (
                    call_expansor.true_label(outer_instr_kind),
                    call_expansor.false_label(outer_instr_kind),
                    call_expansor.invalid_label(outer_instr_kind),
                ),
                param_pairs(inner.spec_macro_data().parameters@, arguments@),
            ),
        ),
        final(code).spec_expanded_labels() == old(code).spec_expanded_labels().push(
            (
                outer_label.content@,
                expanded_label(
                    builtins_view(inner.spec_program()@),
                    inner.spec_macro_data().name.content@,
                    outer_label.content@,
                    (
                        call_expansor.true_label(outer_instr_kind),
                        call_expansor.false_label(outer_instr_kind),
                        call_expansor.invalid_label(outer_instr_kind),
                    ),
                    view_first_label(builtins_view(inner.spec_program()@)),
                ),
            ),
        ),
        final(diagnostics)@ == old(diagnostics)@ + argument_count_errors(
            *call_macro_name,
            inner.spec_macro_data().parameters@.len(),
            arguments@.len(),
        ) + argument_type_errors(
            *call_macro_name,
            arguments@,
            param_pairs(inner.spec_macro_data().parameters@, arguments@).len(),
        ),
{
    let ghost exits = (
        call_expansor.true_label(outer_instr_kind),
        call_expansor.false_label(outer_instr_kind),
        call_expansor.invalid_label(outer_instr_kind),
    );
    let ghost macro_name = inner.spec_macro_data().name.content@;
    let ghost inner_entries = inner.spec_program()@;
    let first_label = inner.program().first_label();
    proof {
        assert(first_label@ == view_first_label(builtins_view(inner.spec_program()@)));
    }
    let expanded_first = expand_label(
        inner,
        first_label,
        outer_label,
        outer_instr_kind,
        call_expansor,
    );
    code.insert_expansion(outer_label.content.clone(), expanded_first);
    let params = map_params_to_args(
        call_macro_name,
        &inner.macro_data().parameters,
        arguments,
        diagnostics,
    );
    let ghost pairs = pairs_view(params@);
    let ghost added = expansion(
        builtins_view(inner_entries),
        macro_name,
        outer_label.content@,
        exits,
        pairs,
    );
    let ghost start = builtins_view(code.spec_program()@);
    let ghost labels = code.spec_expanded_labels();
    let instructions = inner.program().instructions();
    let mut i: usize = 0;
    proof {
        assert(added.take(0) =~= Seq::<(Seq<char>, BuiltinView)>::empty());
    }
    while i < instructions.len()
        invariant
            code.wf(),
            i <= instructions@.len(),
            only_builtins(inner_entries),
            inner.spec_program().wf(),
            inner_entries == inner.spec_program()@,
            macro_name == inner.spec_macro_data().name.content@,
            exits == (
                call_expansor.true_label(outer_instr_kind),
                call_expansor.false_label(outer_instr_kind),
                call_expansor.invalid_label(outer_instr_kind),
            ),
            pairs == pairs_view(params@),
            added == expansion(
                builtins_view(inner_entries),
                macro_name,
                outer_label.content@,
                exits,
                pairs,
            ),
            instructions@.len() == inner_entries.len(),
            forall|m: int|
                0 <= m < inner_entries.len() ==> *(#[trigger] instructions@[m])
                    == inner_entries[m].1,
            code.spec_expanded_labels() == labels,
            builtins_view(code.spec_program()@) == inserted(start, added.take(i as int)),
        decreases instructions@.len() - i,
    {
        let instr = instructions[i];
        assert(is_builtin(inner_entries[i as int].1.kind));
        let kind = match &instr.kind {
            InstructionKind::Operation(operation) => InstructionKind::Operation(
                Operation {
                    kind: map_operation_kind(&operation.kind, &params),
                    next: expand_label(
                        inner,
                        operation.next.as_str(),
                        outer_label,
                        outer_instr_kind,
                        call_expansor,
                    ),
                },
            ),
            InstructionKind::Test(test) => InstructionKind::Test(
                Test {
                    kind: map_test_kind(&test.kind, &params),
                    next_then: expand_label(
                        inner,
                        test.next_then.as_str(),
                        outer_label,
                        outer_instr_kind,
                        call_expansor,
                    ),
                    next_else: expand_label(
                        inner,
                        test.next_else.as_str(),
                        outer_label,
                        outer_instr_kind,
                        call_expansor,
                    ),
                },
            ),
        };
        let new_label = expand_label(inner, instr.label(), outer_label, outer_instr_kind, call_expansor);
        proof {
            assert(inner_entries[i as int].0@ == inner_entries[i as int].1.label@);
            assert(builtins_view(inner_entries)[i as int] == (
                inner_entries[i as int].0@,
                builtin_view(inner_entries[i as int].1.kind),
            ));
            assert(added[i as int] == (new_label@, builtin_view(kind)));
            assert(added.take(i + 1).drop_last() =~= added.take(i as int));
        }
        code.insert_instr(Instruction::new(new_label, kind));
        i = i + 1;
    }
    proof {
        assert(added.take(i as int) =~= added);
        assert(params@.len() == param_pairs(inner.spec_macro_data().parameters@, arguments@).len());
        assert(pairs =~= param_pairs(inner.spec_macro_data().parameters@, arguments@));
    }
}

/// Where the label `inner_label` of the called macro `inner` leads once the
/// call labelled `outer_label` is expanded: `outer_label.macro.inner_label`
/// for the macro's own labels, and for the others what the kind of the call
/// says.
fn expand_label<E: MacroCallExpansor>(
    inner: &PreCompiled,
    inner_label: &str,
    outer_label: &ast::Symbol,
    outer_instr_kind: &E::InstructionKind,
    call_expansor: &E,
) -> (result: String)
    ensures
        result@ == expanded_label(
            builtins_view(inner.spec_program()@),
            inner.spec_macro_data().name.content@,
            outer_label.content@,
            (
                call_expansor.true_label(outer_instr_kind),
                call_expansor.false_label(outer_instr_kind),
                call_expansor.invalid_label(outer_instr_kind),
            ),
            inner_label@,
        ),
{
    proof {
        lemma_view_has_label(inner.spec_program()@, inner_label@);
    }
    if inner.program().is_label_valid(inner_label) {
        let mut result = outer_label.content.clone();
        result.append(".");
        result.append(inner.macro_data().name.content.as_str());
        result.append(".");
        result.append(inner_label);
        result
    } else if is_true(inner_label) {
        call_expansor.expand_true_label(outer_instr_kind)
    } else if is_false(inner_label) {
        call_expansor.expand_false_label(outer_instr_kind)
    } else {
        call_expansor.expand_invalid_label(outer_instr_kind)
    }
}

/// The parameters of a macro paired with the registers of a call, in order;
/// an error is raised where the numbers differ, and where an argument is a
/// number (its parameter is then paired with `?`).
fn map_params_to_args(
    call_macro_name: &ast::Symbol,
    def_params: &Vec<ast::Symbol>,
    args: &Vec<ast::MacroArgument>,
    diagnostics: &mut Diagnostics,
) -> (result: Vec<(String, String)>)
    ensures
        pairs_view(result@) == param_pairs(def_params@, args@),
        final(diagnostics)@ == old(diagnostics)@ + argument_count_errors(
            *call_macro_name,
            def_params@.len(),
            args@.len(),
        ) + argument_type_errors(
            *call_macro_name,
            args@,
            param_pairs(def_params@, args@).len(),
        ),
{
    if def_params.len() != args.len() {
        let cause = ErrorCause::MismatchedArgsNumber(
            MismatchedArgsNumber {
                macro_name: call_macro_name.content.clone(),
                expected_num: def_params.len(),
                found_num: args.len(),
            },
        );
        diagnostics.raise(Error::new(cause, call_macro_name.span));
    }
    let ghost start = diagnostics@;
    proof {
        assert(start =~= old(diagnostics)@ + argument_count_errors(
            *call_macro_name,
            def_params@.len(),
            args@.len(),
        ));
        assert(start + argument_type_errors(*call_macro_name, args@, 0) =~= start);
    }
    let ghost target = param_pairs(def_params@, args@);
    let mut result: Vec<(String, String)> = Vec::new();
    let mut index: usize = 0;
    while index < def_params.len() && index < args.len()
        invariant
            index <= def_params.len(),
            index <= args.len(),
            target == param_pairs(def_params@, args@),
            pairs_view(result@) == target.take(index as int),
            diagnostics@ == start + argument_type_errors(*call_macro_name, args@, index as nat),
        decreases def_params.len() - index,
    {
        let argument = match &args[index] {
            ast::MacroArgument::Register(register) => {
                proof {
                    assert(argument_type_errors(*call_macro_name, args@, (index + 1) as nat)
                        =~= argument_type_errors(*call_macro_name, args@, index as nat));
                }
                register.content.clone()
            },
            ast::MacroArgument::Number(_) => {
                let cause = ErrorCause::MismatchedArgType(
                    MismatchedArgType {
                        macro_name: call_macro_name.content.clone(),
                        expected_type: ast::MacroArgumentType::Register,
                        found_type: args[index].arg_type(),
                        index,
                    },
                );
                diagnostics.raise(Error::new(cause, call_macro_name.span));
                proof {
                    assert(diagnostics@ =~= start + argument_type_errors(
                        *call_macro_name,
                        args@,
                        (index + 1) as nat,
                    ));
                }
                String::from_str("?")
            },
        };
        let parameter = def_params[index].content.clone();
        proof {
            assert(argument@ == argument_register(args@[index as int]));
            assert(parameter@ == def_params@[index as int].content@);
        }
        let ghost before = result@;
        result.push((parameter, argument));
        proof {
            assert(target[index as int] == (parameter@, argument@));
            assert(pairs_view(result@) =~= pairs_view(before).push((parameter@, argument@)));
            assert(pairs_view(result@) =~= target.take(index + 1));
        }
        index = index + 1;
    }
    proof {
        assert(target.take(index as int) =~= target);
    }
    result
}

/// The register that stands for `register` in the call: the argument paired
/// with it as a parameter (the last such pair), or itself.
fn map_param_to_arg(params: &Vec<(String, String)>, register: &str) -> (result: String)
    ensures
        result@ == renamed(pairs_view(params@), register@),
{
    let name = String::from_str(register);
    let ghost pairs = pairs_view(params@);
    let mut i = params.len();
    proof {
        assert(pairs.take(i as int) =~= pairs);
    }
    while i > 0
        invariant
            i <= params@.len(),
            pairs == pairs_view(params@),
            name@ == register@,
            renamed(pairs, register@) == renamed(pairs.take(i as int), register@),
        decreases i,
    {
        assert(pairs.take(i as int).drop_last() =~= pairs.take(i - 1));
        if params[i - 1].0 == name {
            return params[i - 1].1.clone();
        }
        i = i - 1;
    }
    name
}

/// The operation with its registers replaced by the call's.
fn map_operation_kind(kind: &OperationKind, params: &Vec<(String, String)>) -> (result:
    OperationKind)
    ensures
        match (*kind, result) {
            (OperationKind::Inc(a), OperationKind::Inc(b)) => b@ == renamed(
                pairs_view(params@),
                a@,
            ),
            (OperationKind::Dec(a), OperationKind::Dec(b)) => b@ == renamed(
                pairs_view(params@),
                a@,
            ),
            (OperationKind::Inc(_), _) => false,
            (OperationKind::Dec(_), _) => false,
            _ => true,
        },
{
    let mapper = |register: &str| -> (mapped: String)
        ensures
            mapped@ == renamed(pairs_view(params@), register@),
        { map_param_to_arg(params, register) };
    kind.map_registers(mapper)
}

/// The test with its registers replaced by the call's.
fn map_test_kind(kind: &TestKind, params: &Vec<(String, String)>) -> (result: TestKind)
    ensures
        match (*kind, result) {
            (TestKind::Zero(a), TestKind::Zero(b)) => b@ == renamed(pairs_view(params@), a@),
            (TestKind::Zero(_), _) => false,
            _ => true,
        },
{
    let mapper = |register: &str| -> (mapped: String)
        ensures
            mapped@ == renamed(pairs_view(params@), register@),
        { map_param_to_arg(params, register) };
    kind.map_registers(mapper)
}

} // verus!
