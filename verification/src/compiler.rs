//! The compiler: from Norma source code to a program of built-in
//! instructions, through tokens and a syntax tree, with macros expanded.

pub mod error;
pub mod expansor;
pub mod lexer;
pub mod parser;
pub mod position;

use crate::interpreter::program::{builtins_view, BuiltinView, Program};
use error::Diagnostics;
use expansor::compiled::{expansion_of, no_recursion, program_valid, CompiledView};
use expansor::errors::{cycles_named, program_errors, recursion_reported};
use expansor::order::expansion_errors;
use expansor::expand;
use lexer::generate_tokens;
use parser::{extends, parse};
use parser::grammar::{errors_view, p_program};
use vstd::prelude::*;

verus! {

/// Whether `program` is what expanding the syntax tree that the grammar
/// gives for `tokens` gives, for some order of compiling its macros (see
/// [`expansion_of`]).
pub open spec fn compiles_to(
    tokens: Seq<lexer::token::Token>,
    program: Seq<(Seq<char>, BuiltinView)>,
) -> bool {
    exists|tree: parser::ast::Program, compiled: Seq<CompiledView>|
        #![trigger expansion_of(tree, compiled, program)]
        Some(tree.view_of()) == p_program(tokens).0 && parser::program_wf(tree) && expansion_of(
            tree,
            compiled,
            program,
        )
}

/// Whether `tree` is the syntax tree that the grammar gives for `tokens`
/// (its macros stored under their own names, as the parser gives them).
pub open spec fn tree_of(tokens: Seq<lexer::token::Token>, tree: parser::ast::Program) -> bool {
    Some(tree.view_of()) == p_program(tokens).0 && parser::program_wf(tree)
}

/// Whether compiling, where reading tokens found `lexed` errors, gives
/// `result` as it should for the syntax tree `tree` of `tokens`: the program
/// is an expansion of the tree; there is a program exactly when reading the
/// tokens and parsing found no error, no macro of the tree leads back to
/// itself through the macros it calls, and every body of the tree is well
/// made; the errors that follow those of reading and parsing are
/// `expansion_errors(tree)`, as plain values and in order; where no macro
/// leads back to itself, they are those of the bodies of the tree (see
/// [`program_errors`]); where one does, an error says so; and each error
/// that says so names macros of the tree that call each other in a cycle.
pub open spec fn outcome_for(
    tokens: Seq<lexer::token::Token>,
    tree: parser::ast::Program,
    lexed: nat,
    result: Result<Program, Diagnostics>,
) -> bool {
    &&& result matches Ok(program) ==> exists|compiled: Seq<CompiledView>|
        #[trigger] expansion_of(tree, compiled, builtins_view(program@))
    &&& result is Ok <==> (lexed == 0 && p_program(tokens).1.len() == 0 && no_recursion(tree)
        && program_valid(tree))
    &&& !no_recursion(tree) ==> (result matches Err(diagnostics) && recursion_reported(
        diagnostics@,
        Seq::empty(),
    ))
    &&& match result {
        Ok(_) => expansion_errors(tree).len() == 0,
        Err(diagnostics) => errors_view(
            diagnostics@.skip((lexed + p_program(tokens).1.len()) as int),
        ) == expansion_errors(tree),
    }
    &&& result matches Err(diagnostics) ==> cycles_named(
        tree,
        diagnostics@,
        diagnostics@.take((lexed + p_program(tokens).1.len()) as int),
    )
    &&& no_recursion(tree) ==> match result {
        Ok(_) => program_errors(tree).len() == 0,
        Err(diagnostics) => diagnostics@.skip((lexed + p_program(tokens).1.len()) as int).to_multiset()
            == program_errors(tree).to_multiset(),
    }
}

/// Whether `result` is what compiling the source code `source` gives: a
/// program of built-in instructions (`inc`, `dec` and `zero` only), or the
/// errors found. There is a program exactly when no error was found; the
/// errors of reading tokens come first, then those that the grammar gives
/// for the tokens, then, where the grammar gives a syntax tree, those of
/// expanding its macros. The program is the expansion of that syntax tree.
pub open spec fn compile_result(source: Seq<char>, result: Result<Program, Diagnostics>) -> bool {
    let lexed = lexer::lex(source, 0, position::start_position());
    &&& result matches Ok(program) ==> program.wf()
        && crate::interpreter::program::only_builtins(program@)
    &&& result is Ok ==> lexed.1.len() == 0
    &&& result matches Err(diagnostics) ==> diagnostics@.len() > 0
    &&& result matches Err(diagnostics) ==> diagnostics@.len() >= lexed.1.len()
        && diagnostics@.subrange(0, lexed.1.len() as int) == lexed.1
    &&& exists|tokens: Seq<lexer::token::Token>|
        #![trigger p_program(tokens)]
        tokens.map_values(|token: lexer::token::Token| token.view_of()) == lexed.0 && (
        p_program(tokens).0 is Some ==> exists|tree: parser::ast::Program|
            #[trigger] tree_of(tokens, tree) && outcome_for(tokens, tree, lexed.1.len(), result))
            && (p_program(tokens).0 is None ==> (result matches Err(diagnostics)
            && diagnostics@.len() == lexed.1.len() + p_program(tokens).1.len())) && match result {
            Ok(program) => p_program(tokens).0 is Some && p_program(tokens).1.len() == 0
                && compiles_to(tokens, builtins_view(program@)),
            Err(diagnostics) => {
                let start = lexed.1.len();
                let parsed = p_program(tokens).1;
                &&& diagnostics@.len() >= start + parsed.len()
                &&& errors_view(diagnostics@.subrange(start as int, (start + parsed.len()) as int))
                    == parsed
            },
        }
}

/// Compiles `source` into a program of built-in instructions, or gives the
/// errors found (see [`compile_result`]).
pub fn compile(source: &str) -> (result: Result<Program, Diagnostics>)
    requires
        4 * source@.len() + 4 <= usize::MAX,
    ensures
        compile_result(source@, result),
{
    let mut diagnostics = Diagnostics::new();
    let tokens = generate_tokens(source, &mut diagnostics);
    let ghost lexed = diagnostics@;
    proof {
        let all = lexer::lex(source@, 0, position::start_position());
        lexer::lemma_lex_numbers(source@, 0, position::start_position());
        assert(lexed =~= all.1);
        assert forall|i: int|
            0 <= i < tokens@.len() && (#[trigger] tokens@[i]).token_type
                == lexer::token::TokenType::Number implies crate::natural::lenient_numeral(
            tokens@[i].content@,
        ) by {
            assert(tokens@.map_values(|token: lexer::token::Token| token.view_of())[i]
                == tokens@[i].view_of());
            crate::natural::lemma_digits_numeral(tokens@[i].content@);
        }
    }
    let ghost token_seq = tokens@;
    let ast = parse(tokens, &mut diagnostics);
    let ghost after_parse = diagnostics@;
    let ghost tree = ast;
    let maybe_program = match ast {
        Some(ast) => expand(&ast, &mut diagnostics),
        None => None,
    };
    let ghost after_expand = diagnostics@;
    proof {
        if maybe_program is Some {
            let program = maybe_program->0;
            let t = tree->0;
            let compiled = choose|compiled: Seq<CompiledView>|
                expansion_of(t, compiled, builtins_view(program@));
            assert(expansion_of(t, compiled, builtins_view(program@)));
            assert(compiles_to(token_seq, builtins_view(program@)));
        }
    }
    proof {
        assert forall|k: int| 0 <= k < lexed.len() implies diagnostics@[k] == lexed[k] by {}
        assert(diagnostics@.subrange(0, lexed.len() as int) =~= lexed);
        let parsed = p_program(token_seq).1;
        let start = lexed.len() as int;
        assert(errors_view(after_parse).len() == after_parse.len());
        assert(errors_view(lexed).len() == lexed.len());
        assert(after_parse.len() == start + parsed.len());
        assert(extends(diagnostics@, after_parse));
        assert(diagnostics@.subrange(start, start + parsed.len()) =~= after_parse.subrange(
            start,
            start + parsed.len(),
        ));
        assert(errors_view(after_parse.subrange(start, start + parsed.len())) =~= parsed) by {
            assert forall|k: int| 0 <= k < parsed.len() implies errors_view(
                after_parse.subrange(start, start + parsed.len()),
            )[k] == parsed[k] by {
                assert(errors_view(after_parse)[start + k] == (errors_view(lexed) + parsed)[start
                    + k]);
            }
        }
    }
    let result = match maybe_program {
        Some(program) => {
            if diagnostics.is_ok() {
                Ok(program)
            } else {
                Err(diagnostics)
            }
        },
        None => Err(diagnostics),
    };
    proof {
        if p_program(token_seq).0 is Some {
            let t = tree->0;
            assert(tree_of(token_seq, t));
            if result is Ok {
                let program = result->Ok_0;
                let compiled = choose|compiled: Seq<CompiledView>|
                    expansion_of(t, compiled, builtins_view(program@));
                assert(expansion_of(t, compiled, builtins_view(program@)));
            }
            {
                assert(maybe_program is Some);
                assert(after_parse.len() == lexed.len() + p_program(token_seq).1.len());
                assert((after_expand == after_parse) == (no_recursion(t) && program_valid(t)));
                assert(result is Ok <==> after_expand.len() == 0);
                if after_expand.len() == 0 {
                    assert(after_parse.len() == 0);
                    assert(after_expand =~= after_parse);
                }
                if lexed.len() == 0 && p_program(token_seq).1.len() == 0 && no_recursion(t)
                    && program_valid(t) {
                    assert(after_expand =~= after_parse);
                }
                assert(result is Ok <==> (lexed.len() == 0 && p_program(token_seq).1.len() == 0
                    && no_recursion(t) && program_valid(t)));
            }
            {
                let k = after_parse.len() as int;
                let added = after_expand.skip(k);
                assert(after_expand =~= after_parse + added);
                expansor::order::lemma_errors_view_add(after_parse, added);
                let before = errors_view(after_parse);
                assert(errors_view(after_expand) == before + expansion_errors(t));
                assert((before + errors_view(added)).skip(before.len() as int) =~= errors_view(
                    added,
                ));
                assert((before + expansion_errors(t)).skip(before.len() as int) =~= expansion_errors(
                    t,
                ));
                assert(errors_view(added) =~= expansion_errors(t));
                if result is Ok {
                    assert(after_expand.len() == 0);
                }
            }
            if !no_recursion(t) {
                let i = choose|i: int|
                    after_parse.len() <= i < after_expand.len() && (#[trigger] after_expand[i]).cause is RecursiveMacro;
                assert(after_expand[i].cause is RecursiveMacro);
            }
            if no_recursion(t) {
                broadcast use vstd::seq_lib::lemma_multiset_commutative;
                broadcast use vstd::multiset::group_multiset_axioms;

                let k = after_parse.len() as int;
                let added = after_expand.skip(k);
                assert(after_expand =~= after_parse + added);
                assert(after_expand.to_multiset() == after_parse.to_multiset().add(
                    program_errors(t).to_multiset(),
                ));
                assert(after_expand.to_multiset() == after_parse.to_multiset().add(
                    added.to_multiset(),
                ));
                assert forall|e: error::Error| added.to_multiset().count(e) == program_errors(
                    t,
                ).to_multiset().count(e) by {
                    assert(after_expand.to_multiset().count(e) == after_parse.to_multiset().count(e)
                        + added.to_multiset().count(e));
                    assert(after_expand.to_multiset().count(e) == after_parse.to_multiset().count(e)
                        + program_errors(t).to_multiset().count(e));
                }
                assert(added.to_multiset() =~= program_errors(t).to_multiset());
                if result is Ok {
                    broadcast use vstd::seq_lib::group_to_multiset_ensures;

                    assert(after_expand.len() == 0);
                    assert(added.len() == 0);
                    assert(program_errors(t).to_multiset().len() == program_errors(t).len());
                    assert(added.to_multiset().len() == 0);
                } else {
                    assert(result->Err_0@ == after_expand);
                    assert(lexer::lex(source@, 0, position::start_position()).1.len() + p_program(
                        token_seq,
                    ).1.len() == k);
                }
            }
            assert(outcome_for(
                token_seq,
                t,
                lexer::lex(source@, 0, position::start_position()).1.len(),
                result,
            ));
        }
    }
    result
}

} // verus!
