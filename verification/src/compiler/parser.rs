//! Parsing tokens into the syntax tree of a program.
//!
//! The parser reports each token of an unexpected kind and carries on where
//! it can; it gives up, with an error, only when the tokens run out where
//! more are needed.

pub mod ast;
pub mod error;
pub mod grammar;

use crate::compiler::error::{Diagnostics, Error, ErrorCause};
use crate::compiler::lexer::token::{BuiltInOperation, BuiltInTest, Token, TokenType};
use crate::natural::{lenient_numeral, Natural};
use ast::{
    code_contains,
    code_entries,
    code_insert,
    code_new,
    macro_entries,
    macros_contain,
    macros_insert,
    macros_new,
    macros_view,
    Instruction,
    InstructionType,
    Macro,
    MacroArgument,
    MacroType,
    Main,
    Operation,
    OperationType,
    Program,
    Symbol,
    Test,
    TestType,
};
use error::{
    InvalidLabel,
    LabelAlreadyDeclared,
    MacroAlreadyDeclared,
    MainAlreadyDeclared,
    MainNotDeclared,
    UnexpectedEndOfInput,
    UnexpectedToken,
};
use grammar::{
    after_prefix,
    p_params,
    p_params_loop,
    errs,
    p_args,
    p_args_loop,
    errors_view,
    error_view,
    p_builtin_arg,
    p_check,
    p_expect,
    p_label,
    p_macro_arg,
    p_register,
    unexpected,
    Parsed,
};
use indexmap::IndexMap;
use vstd::prelude::*;
use vstd::string::StringExecFns;

verus! {

/// Whether every number token holds a decimal numeral (the lexer makes them
/// of ASCII digits alone).
pub open spec fn numbers_well_formed(tokens: Seq<Token>) -> bool {
    forall|i: int|
        0 <= i < tokens.len() && (#[trigger] tokens[i]).token_type == TokenType::Number
            ==> lenient_numeral(tokens[i].content@)
}

/// Whether the labels of a body are distinct.
pub open spec fn code_labels_distinct(entries: Seq<(String, Instruction)>) -> bool {
    forall|i: int, j: int|
        0 <= i < j < entries.len() ==> (#[trigger] entries[i]).0@ != (#[trigger] entries[j]).0@
}

/// Whether the names of the macros are distinct.
pub open spec fn macro_names_distinct(entries: Seq<(String, Macro)>) -> bool {
    forall|i: int, j: int|
        0 <= i < j < entries.len() ==> (#[trigger] entries[i]).0@ != (#[trigger] entries[j]).0@
}

/// Whether each body of a syntax tree has no label twice and no macro name
/// is used twice, with each entry's key its instruction's label or its
/// macro's name.
pub open spec fn program_wf(program: Program) -> bool {
    &&& code_labels_distinct(program.main.entries())
    &&& macro_names_distinct(program.macro_list())
    &&& forall|i: int|
        0 <= i < program.macro_list().len() ==> code_labels_distinct(
            (#[trigger] program.macro_list()[i]).1.entries(),
        )
    &&& forall|i: int|
        0 <= i < program.macro_list().len() ==> (#[trigger] program.macro_list()[i]).0@
            == program.macro_list()[i].1.name.content@
}

/// Parses `tokens` into the syntax tree of a program. Errors go to
/// `diagnostics`; there is no tree where the tokens ran out early or no
/// `main` was declared, and an error says so. The tree and the errors are
/// those that the grammar (`grammar::p_program`) gives for the tokens.
pub fn parse(tokens: Vec<Token>, diagnostics: &mut Diagnostics) -> (result: Option<Program>)
    requires
        numbers_well_formed(tokens@),
    ensures
        extends(final(diagnostics)@, old(diagnostics)@),
        result.is_none() ==> final(diagnostics)@.len() > old(diagnostics)@.len(),
        result matches Some(program) ==> program_wf(program),
        match result {
            Some(program) => Some(program.view_of()),
            None => None,
        } == grammar::p_program(tokens@).0,
        errors_view(final(diagnostics)@) == errors_view(old(diagnostics)@) + grammar::p_program(
            tokens@,
        ).1,
{
    let mut parser = Parser::new(tokens);
    parser.parse_program(diagnostics)
}

/// Why parsing stopped: the tokens ran out where more were needed.
#[derive(Debug, Clone, Copy, PartialEq, Eq, Structural)]
pub struct Abort;

/// Tokens and the index of the one to parse next.
#[derive(Debug)]
struct Parser {
    tokens: Vec<Token>,
    curr_token: usize,
}

/// `diagnostics` is `before` with zero or more errors added at the end.
pub open spec fn extends(diagnostics: Seq<Error>, before: Seq<Error>) -> bool {
    &&& diagnostics.len() >= before.len()
    &&& forall|k: int| 0 <= k < before.len() ==> #[trigger] diagnostics[k] == before[k]
}

proof fn lemma_extends_trans(a: Seq<Error>, b: Seq<Error>, c: Seq<Error>)
    requires
        extends(b, a),
        extends(c, b),
    ensures
        extends(c, a),
{
}

proof fn lemma_extends_push(a: Seq<Error>, e: Error)
    ensures
        extends(a.push(e), a),
{
}

proof fn lemma_extends_refl(a: Seq<Error>)
    ensures
        extends(a, a),
{
}

/// Whether `result`, the index `index` and the errors `after` (raised
/// after `before`) are what `parsed` says; `view` is the value of a result
/// that did not give up.
pub open spec fn follows<T>(
    parsed: Parsed<T>,
    view: Option<T>,
    index: int,
    before: Seq<Error>,
    after: Seq<Error>,
) -> bool {
    match parsed {
        Parsed::Done(value, next, errors) => view == Some(value) && index == next && errors_view(
            after,
        ) == errors_view(before) + errors,
        Parsed::Aborted(errors) => view is None && errors_view(after) == errors_view(before)
            + errors,
    }
}

/// A parsed symbol, if any, as plain values.
pub open spec fn symbol_result_view(result: Result<Option<Symbol>, Abort>) -> Option<
    Option<ast::SymbolView>,
> {
    match result {
        Ok(Some(symbol)) => Some(Some(symbol.view_of())),
        Ok(None) => Some(None),
        Err(_) => None,
    }
}

/// The body of `main`, if read, as plain values.
pub open spec fn main_view(main: Option<Main>) -> Option<ast::CodeView> {
    match main {
        Some(main) => Some(ast::code_view(main.code)),
        None => None,
    }
}

/// Where a part of the program gives up, so does the whole, with the errors
/// raised so far.
proof fn lemma_program_aborted(
    before: Seq<grammar::ErrorView>,
    es: Seq<grammar::ErrorView>,
    more: Seq<grammar::ErrorView>,
)
    ensures
        before + es + more == before + (es + more),
{
    assert(before + es + more =~= before + (es + more));
}

/// The errors as plain values after one more.
proof fn lemma_errors_view_push(errors: Seq<Error>, error: Error)
    ensures
        errors_view(errors.push(error)) == errors_view(errors).push(error_view(error)),
{
    assert(errors_view(errors.push(error)) =~= errors_view(errors).push(error_view(error)));
}

impl Parser {
    /// The parser's consistency: the index is within the tokens, and number
    /// tokens hold digits.
    spec fn wf(&self) -> bool {
        &&& self.curr_token <= self.tokens.len()
        &&& numbers_well_formed(self.tokens@)
    }

    fn new(tokens: Vec<Token>) -> (parser: Parser)
        requires
            numbers_well_formed(tokens@),
        ensures
            parser.wf(),
            parser.curr_token == 0,
            parser.tokens == tokens,
    {
        Parser { tokens, curr_token: 0 }
    }

    /// The token to parse next, if any is left.
    fn current(&self) -> (result: Option<&Token>)
        requires
            self.wf(),
        ensures
            self.curr_token < self.tokens.len() ==> result == Some(&self.tokens@[self.curr_token as int]),
            self.curr_token >= self.tokens.len() ==> result.is_none(),
    {
        if self.curr_token < self.tokens.len() {
            Some(&self.tokens[self.curr_token])
        } else {
            None
        }
    }

    /// The token to parse next; where none is left, raises the error for
    /// the end of the input and gives up.
    fn require_current(&self, diagnostics: &mut Diagnostics) -> (result: Result<&Token, Abort>)
        requires
            self.wf(),
        ensures
            extends(final(diagnostics)@, old(diagnostics)@),
            match result {
                Ok(token) => self.curr_token < self.tokens.len() && *token
                    == self.tokens@[self.curr_token as int] && final(diagnostics)@ == old(
                    diagnostics,
                )@,
                Err(_) => final(diagnostics)@.len() > old(diagnostics)@.len() && self.curr_token
                    >= self.tokens.len() && errors_view(final(diagnostics)@) == errors_view(
                    old(diagnostics)@,
                ) + seq![grammar::end_of_input()],
            },
    {
        proof {
            lemma_extends_refl(diagnostics@);
        }
        match self.current() {
            Some(token) => Ok(token),
            None => {
                let error = Error::with_no_span(
                    ErrorCause::UnexpectedEndOfInput(UnexpectedEndOfInput),
                );
                proof {
                    lemma_extends_push(diagnostics@, error);
                    lemma_errors_view_push(diagnostics@, error);
                }
                diagnostics.raise(error);
                Err(Abort)
            },
        }
    }

    /// Moves to the next token.
    fn next(&mut self)
        requires
            old(self).wf(),
            old(self).curr_token < old(self).tokens.len(),
        ensures
            final(self).wf(),
            final(self).tokens == old(self).tokens,
            final(self).curr_token == old(self).curr_token + 1,
    {
        self.curr_token = self.curr_token + 1;
    }

    /// Raises an error for a token of an unexpected kind.
    fn unexpected(
        &self,
        expected_types: Vec<TokenType>,
        token_index: usize,
        diagnostics: &mut Diagnostics,
    )
        requires
            token_index < self.tokens.len(),
        ensures
            extends(final(diagnostics)@, old(diagnostics)@),
            final(diagnostics)@.len() == old(diagnostics)@.len() + 1,
            errors_view(final(diagnostics)@) == errors_view(old(diagnostics)@).push(
                unexpected(expected_types@, self.tokens@[token_index as int].span),
            ),
    {
        let span = self.tokens[token_index].span;
        let error = Error::new(ErrorCause::UnexpectedToken(UnexpectedToken { expected_types }), span);
        proof {
            lemma_extends_push(diagnostics@, error);
            lemma_errors_view_push(diagnostics@, error);
        }
        diagnostics.raise(error);
    }

    /// Moves past the current token if it is of kind `expected_type`, and
    /// otherwise raises an error (and stays).
    fn expect(&mut self, expected_type: TokenType, diagnostics: &mut Diagnostics) -> (result: Result<
        (),
        Abort,
    >)
        requires
            old(self).wf(),
        ensures
            final(self).wf(),
            final(self).tokens == old(self).tokens,
            final(self).curr_token >= old(self).curr_token,
            extends(final(diagnostics)@, old(diagnostics)@),
            result is Err ==> final(diagnostics)@.len() > old(diagnostics)@.len(),
            follows(
                p_expect(old(self).tokens@, old(self).curr_token as int, expected_type),
                match result {
                    Ok(()) => Some(()),
                    Err(_) => None,
                },
                final(self).curr_token as int,
                old(diagnostics)@,
                final(diagnostics)@,
            ),
    {
        proof {
            reveal(grammar::p_expect);
        }
        let index = self.curr_token;
        let token_type = self.require_current(diagnostics)?.token_type;
        if token_type == expected_type {
            self.next();
            proof {
                assert(errors_view(diagnostics@) =~= errors_view(old(diagnostics)@) + Seq::empty());
            }
        } else {
            self.unexpected(vec![expected_type], index, diagnostics);
            proof {
                assert(errors_view(diagnostics@) =~= errors_view(old(diagnostics)@) + seq![
                    unexpected(seq![expected_type], self.tokens@[index as int].span),
                ]);
            }
        }
        Ok(())
    }

    /// Moves past the current token and returns `true` if it is of kind
    /// `expected_type`; returns `false` otherwise.
    fn check_expect(&mut self, expected_type: TokenType, diagnostics: &mut Diagnostics) -> (result:
        Result<bool, Abort>)
        requires
            old(self).wf(),
        ensures
            final(self).wf(),
            final(self).tokens == old(self).tokens,
            extends(final(diagnostics)@, old(diagnostics)@),
            result is Err ==> final(diagnostics)@.len() > old(diagnostics)@.len(),
            result is Ok ==> final(diagnostics)@ == old(diagnostics)@,
            result == Ok::<bool, Abort>(true) ==> final(self).curr_token == old(self).curr_token + 1,
            result == Ok::<bool, Abort>(false) ==> final(self).curr_token == old(self).curr_token
                && old(self).curr_token < old(self).tokens.len(),
            result is Err ==> final(self).curr_token == old(self).curr_token,
            follows(
                p_check(old(self).tokens@, old(self).curr_token as int, expected_type),
                match result {
                    Ok(b) => Some(b),
                    Err(_) => None,
                },
                final(self).curr_token as int,
                old(diagnostics)@,
                final(diagnostics)@,
            ),
    {
        proof {
            reveal(grammar::p_check);
        }
        let token_type = self.require_current(diagnostics)?.token_type;
        proof {
            assert(errors_view(diagnostics@) =~= errors_view(old(diagnostics)@) + Seq::empty());
        }
        if token_type == expected_type {
            self.next();
            Ok(true)
        } else {
            Ok(false)
        }
    }

    /// Parses a whole program, from the first token.
    #[verifier::spinoff_prover]
    #[verifier::rlimit(60)]
    fn parse_program(&mut self, diagnostics: &mut Diagnostics) -> (result: Option<Program>)
        requires
            old(self).wf(),
            old(self).curr_token == 0,
        ensures
            extends(final(diagnostics)@, old(diagnostics)@),
            result.is_none() ==> final(diagnostics)@.len() > old(diagnostics)@.len(),
            result matches Some(program) ==> program_wf(program),
            result.is_some() == grammar::p_program(old(self).tokens@).0.is_some(),
            result matches Some(program) ==> Some(program.view_of()) == grammar::p_program(
                old(self).tokens@,
            ).0,
            errors_view(final(diagnostics)@) == errors_view(old(diagnostics)@) + grammar::p_program(
                old(self).tokens@,
            ).1,
    {
        proof {
            reveal(grammar::p_program);
        }
        let ghost ts = self.tokens@;
        let ghost whole = grammar::p_program_loop(ts, 0, None, Seq::empty());
        let mut macros = macros_new();
        let mut main_option: Option<Main> = None;
        let mut main_declared = false;
        let ghost mut es: Seq<grammar::ErrorView> = Seq::empty();
        proof {
            lemma_extends_refl(diagnostics@);
            grammar::lemma_after_errors_empty(whole);
            assert(errors_view(diagnostics@) =~= errors_view(old(diagnostics)@) + es);
            assert(macros_view(macros) =~= Seq::<(Seq<char>, ast::MacroView)>::empty());
        }
        while self.curr_token < self.tokens.len()
            invariant
                self.wf(),
                self.tokens@ == ts,
                ts == old(self).tokens@,
                whole == grammar::p_program_loop(ts, 0, None, Seq::empty()),
                extends(diagnostics@, old(diagnostics)@),
                errors_view(diagnostics@) == errors_view(old(diagnostics)@) + es,
                whole == grammar::after_errors(
                    es,
                    grammar::p_program_loop(
                        ts,
                        self.curr_token as int,
                        main_view(main_option),
                        macros_view(macros),
                    ),
                ),
                main_declared == main_option.is_some(),
                macro_names_distinct(macro_entries(macros)),
                forall|i: int|
                    0 <= i < macro_entries(macros).len() ==> code_labels_distinct(
                        (#[trigger] macro_entries(macros)[i]).1.entries(),
                    ),
                forall|i: int|
                    0 <= i < macro_entries(macros).len() ==> (#[trigger] macro_entries(
                        macros,
                    )[i]).0@ == macro_entries(macros)[i].1.name.content@,
                main_option matches Some(main) ==> code_labels_distinct(main.entries()),
            decreases self.tokens.len() - self.curr_token,
        {
            let ghost before = diagnostics@;
            let ghost mv = main_view(main_option);
            let ghost mcv = macros_view(macros);
            let index = self.curr_token;
            let token_type = self.tokens[index].token_type;
            let token_span = self.tokens[index].span;
            proof {
                reveal(grammar::p_program_loop);
                reveal(grammar::p_program);
            }
            let ghost step_errors: Seq<grammar::ErrorView>;
            match token_type {
                TokenType::Main => {
                    let ghost q = grammar::p_main(ts, index as int);
                    if !main_declared {
                        match self.parse_main(diagnostics) {
                            Ok(main) => {
                                main_option = Some(main);
                                main_declared = true;
                                proof {
                                    step_errors = errs(q);
                                }
                            },
                            Err(_) => {
                                proof {
                                    lemma_program_aborted(
                                        errors_view(old(diagnostics)@),
                                        es,
                                        errs(q),
                                    );
                                }
                                return None;
                            },
                        }
                    } else {
                        let error = Error::new(
                            ErrorCause::MainAlreadyDeclared(MainAlreadyDeclared),
                            token_span,
                        );
                        proof {
                            lemma_extends_push(diagnostics@, error);
                            lemma_errors_view_push(diagnostics@, error);
                        }
                        diagnostics.raise(error);
                        let ghost middle = diagnostics@;
                        let parsed = self.parse_main(diagnostics);
                        proof {
                            lemma_extends_trans(before, middle, diagnostics@);
                            step_errors = seq![error_view(error)] + errs(q);
                            assert(errors_view(diagnostics@) =~= errors_view(before)
                                + step_errors);
                        }
                        if parsed.is_err() {
                            proof {
                                lemma_program_aborted(
                                    errors_view(old(diagnostics)@),
                                    es,
                                    step_errors,
                                );
                            }
                            return None;
                        }
                    }
                },
                TokenType::Operation | TokenType::Test => {
                    let macro_type = if token_type == TokenType::Operation {
                        MacroType::Operation
                    } else {
                        MacroType::Test
                    };
                    let ghost q = grammar::p_macro_def(ts, index as int, macro_type);
                    match self.parse_macro_def(macro_type, diagnostics) {
                        Ok(Some(macro_def)) => {
                            let ghost middle = diagnostics@;
                            let ghost added = grammar::add_macro(mcv, macro_def.view_of());
                            self.insert_macro_def(&mut macros, macro_def, diagnostics);
                            proof {
                                lemma_extends_trans(before, middle, diagnostics@);
                                step_errors = errs(q) + added.1;
                                assert(errors_view(diagnostics@) =~= errors_view(before)
                                    + step_errors);
                            }
                        },
                        Ok(None) => {
                            proof {
                                step_errors = errs(q);
                            }
                        },
                        Err(_) => {
                            proof {
                                lemma_program_aborted(errors_view(old(diagnostics)@), es, errs(q));
                            }
                            return None;
                        },
                    }
                },
                _ => {
                    self.unexpected(
                        vec![TokenType::Main, TokenType::Operation, TokenType::Test],
                        index,
                        diagnostics,
                    );
                    self.next();
                    proof {
                        step_errors = seq![
                            unexpected(
                                seq![TokenType::Main, TokenType::Operation, TokenType::Test],
                                token_span,
                            ),
                        ];
                        assert(errors_view(diagnostics@) =~= errors_view(before) + step_errors);
                    }
                },
            }
            proof {
                lemma_extends_trans(old(diagnostics)@, before, diagnostics@);
                let rest = grammar::p_program_loop(
                    ts,
                    self.curr_token as int,
                    main_view(main_option),
                    macros_view(macros),
                );
                assert(grammar::p_program_loop(ts, index as int, mv, mcv) == grammar::after_errors(
                    step_errors,
                    rest,
                ));
                grammar::lemma_after_errors(es, step_errors, rest);
                es = es + step_errors;
                assert(errors_view(diagnostics@) =~= errors_view(old(diagnostics)@) + es);
            }
        }
        proof {
            reveal(grammar::p_program_loop);
            assert(es + Seq::empty() =~= es);
        }
        match main_option {
            Some(main) => Some(Program { main, macros }),
            None => {
                let error = Error::with_no_span(ErrorCause::MainNotDeclared(MainNotDeclared));
                proof {
                    lemma_extends_push(diagnostics@, error);
                    lemma_errors_view_push(diagnostics@, error);
                    lemma_extends_trans(old(diagnostics)@, diagnostics@, diagnostics@.push(error));
                }
                diagnostics.raise(error);
                proof {
                    assert(errors_view(diagnostics@) =~= errors_view(old(diagnostics)@) + (es
                        + seq![error_view(error)]));
                }
                None
            },
        }
    }

    /// Adds a macro definition to `macros`, or raises an error where a macro
    /// of that name is there already.
    fn insert_macro_def(
        &self,
        macros: &mut IndexMap<String, Macro>,
        macro_def: Macro,
        diagnostics: &mut Diagnostics,
    )
        requires
            macro_names_distinct(macro_entries(*old(macros))),
            forall|i: int|
                0 <= i < macro_entries(*old(macros)).len() ==> code_labels_distinct(
                    (#[trigger] macro_entries(*old(macros))[i]).1.entries(),
                ),
            forall|i: int|
                0 <= i < macro_entries(*old(macros)).len() ==> (#[trigger] macro_entries(
                    *old(macros),
                )[i]).0@ == macro_entries(*old(macros))[i].1.name.content@,
            code_labels_distinct(macro_def.entries()),
        ensures
            extends(final(diagnostics)@, old(diagnostics)@),
            macro_names_distinct(macro_entries(*final(macros))),
            forall|i: int|
                0 <= i < macro_entries(*final(macros)).len() ==> code_labels_distinct(
                    (#[trigger] macro_entries(*final(macros))[i]).1.entries(),
                ),
            forall|i: int|
                0 <= i < macro_entries(*final(macros)).len() ==> (#[trigger] macro_entries(
                    *final(macros),
                )[i]).0@ == macro_entries(*final(macros))[i].1.name.content@,
            ast::macros_view(*final(macros)) == grammar::add_macro(
                ast::macros_view(*old(macros)),
                macro_def.view_of(),
            ).0,
            errors_view(final(diagnostics)@) == errors_view(old(diagnostics)@) + grammar::add_macro(
                ast::macros_view(*old(macros)),
                macro_def.view_of(),
            ).1,
    {
        let ghost old_view = ast::macros_view(*macros);
        let ghost definition = macro_def.view_of();
        let macro_name = macro_def.name.content.clone();
        if !macros_contain(macros, macro_name.as_str()) {
            let ghost before = macro_entries(*macros);
            proof {
                assert(!grammar::macros_view_have(old_view, definition.1.0)) by {
                    if grammar::macros_view_have(old_view, definition.1.0) {
                        let k = choose|k: int|
                            0 <= k < old_view.len() && (#[trigger] old_view[k]).0
                                == definition.1.0;
                        assert(before[k].0@ == macro_name@);
                    }
                }
            }
            macros_insert(macros, macro_name, macro_def);
            proof {
                assert(ast::macros_view(*macros) =~= old_view.push((definition.1.0, definition)));
                assert(errors_view(diagnostics@) =~= errors_view(old(diagnostics)@) + Seq::empty());
                lemma_extends_refl(diagnostics@);
                let after = macro_entries(*macros);
                assert forall|i: int, j: int|
                    0 <= i < j < after.len() implies (#[trigger] after[i]).0@ != (
                    #[trigger] after[j]).0@ by {
                    if j == before.len() {
                        assert(before[i] == after[i]);
                    }
                }
                assert forall|i: int| 0 <= i < after.len() implies code_labels_distinct(
                    (#[trigger] after[i]).1.entries(),
                ) by {
                    if i < before.len() {
                        assert(before[i] == after[i]);
                    }
                }
                assert forall|i: int| 0 <= i < after.len() implies (#[trigger] after[i]).0@
                    == after[i].1.name.content@ by {
                    if i < before.len() {
                        assert(before[i] == after[i]);
                    }
                }
            }
        } else {
            let ghost name_view = macro_name@;
            let error = Error::new(
                ErrorCause::MacroAlreadyDeclared(MacroAlreadyDeclared { macro_name }),
                macro_def.name.span,
            );
            proof {
                lemma_extends_push(diagnostics@, error);
                lemma_errors_view_push(diagnostics@, error);
                let entries = macro_entries(*macros);
                let k = choose|k: int|
                    0 <= k < entries.len() && (#[trigger] entries[k]).0@ == name_view;
                assert(old_view[k].0 == name_view);
                assert(grammar::macros_view_have(old_view, definition.1.0));
            }
            diagnostics.raise(error);
        }
    }

    /// Parses `main` and its body.
    fn parse_main(&mut self, diagnostics: &mut Diagnostics) -> (result: Result<Main, Abort>)
        requires
            old(self).wf(),
            old(self).curr_token < old(self).tokens.len(),
        ensures
            final(self).wf(),
            final(self).tokens == old(self).tokens,
            final(self).curr_token > old(self).curr_token,
            extends(final(diagnostics)@, old(diagnostics)@),
            result is Err ==> final(diagnostics)@.len() > old(diagnostics)@.len(),
            result matches Ok(main) ==> code_labels_distinct(main.entries()),
            follows(
                grammar::p_main(old(self).tokens@, old(self).curr_token as int),
                match result {
                    Ok(main) => Some(ast::code_view(main.code)),
                    Err(_) => None,
                },
                final(self).curr_token as int,
                old(diagnostics)@,
                final(diagnostics)@,
            ),
    {
        proof {
            reveal(grammar::p_main);
        }
        self.next();
        let code = self.parse_func_body(diagnostics)?;
        Ok(Main { code })
    }

    /// Parses a body: instructions between curly brackets.
    fn parse_func_body(&mut self, diagnostics: &mut Diagnostics) -> (result: Result<
        IndexMap<String, Instruction>,
        Abort,
    >)
        requires
            old(self).wf(),
        ensures
            final(self).wf(),
            final(self).tokens == old(self).tokens,
            final(self).curr_token >= old(self).curr_token,
            extends(final(diagnostics)@, old(diagnostics)@),
            result is Err ==> final(diagnostics)@.len() > old(diagnostics)@.len(),
            result matches Ok(code) ==> code_labels_distinct(code_entries(code)),
            follows(
                grammar::p_body(old(self).tokens@, old(self).curr_token as int),
                match result {
                    Ok(code) => Some(ast::code_view(code)),
                    Err(_) => None,
                },
                final(self).curr_token as int,
                old(diagnostics)@,
                final(diagnostics)@,
            ),
    {
        proof {
            reveal(grammar::p_body);
            reveal(grammar::p_body_loop);
        }
        let ghost ts = self.tokens@;
        let ghost p0 = p_expect(ts, self.curr_token as int, TokenType::OpenCurly);
        self.expect(TokenType::OpenCurly, diagnostics)?;
        let ghost d0 = diagnostics@;
        let ghost i0 = self.curr_token as int;
        let mut code = code_new();
        let ghost mut es: Seq<grammar::ErrorView> = Seq::empty();
        proof {
            assert(ast::code_view(code) =~= Seq::<(Seq<char>, ast::InstructionView)>::empty());
            assert(errors_view(d0) =~= errors_view(d0) + es);
            grammar::lemma_after_errors_empty(grammar::p_body_loop(ts, i0, ast::code_view(code)));
        }
        loop
            invariant_except_break
                grammar::p_body_loop(ts, i0, Seq::empty()) == grammar::after_errors(
                    es,
                    grammar::p_body_loop(ts, self.curr_token as int, ast::code_view(code)),
                ),
            invariant
                self.wf(),
                self.tokens == old(self).tokens,
                self.curr_token >= old(self).curr_token,
                extends(diagnostics@, old(diagnostics)@),
                code_labels_distinct(code_entries(code)),
                ts == self.tokens@,
                p0 == p_expect(ts, old(self).curr_token as int, TokenType::OpenCurly),
                p0 matches Parsed::Done(_, j, _) && j == i0,
                errors_view(d0) == errors_view(old(diagnostics)@) + errs(p0),
                errors_view(diagnostics@) == errors_view(d0) + es,
            ensures
                self.wf(),
                self.tokens == old(self).tokens,
                self.curr_token >= old(self).curr_token,
                extends(diagnostics@, old(diagnostics)@),
                code_labels_distinct(code_entries(code)),
                errors_view(d0) == errors_view(old(diagnostics)@) + errs(p0),
                errors_view(diagnostics@) == errors_view(d0) + es,
                grammar::p_body_loop(ts, i0, Seq::empty()) == Parsed::Done(
                    ast::code_view(code),
                    self.curr_token as int,
                    es,
                ),
            decreases self.tokens.len() - self.curr_token,
        {
            proof {
                reveal(grammar::p_body_loop);
                reveal(grammar::p_body);
                reveal(grammar::p_check);
                reveal(grammar::p_expect);
            }
            let ghost before = diagnostics@;
            let ghost cv = ast::code_view(code);
            let index = self.curr_token;
            let token_type = match self.require_current(diagnostics) {
                Ok(token) => token.token_type,
                Err(abort) => {
                    proof {
                        assert(errors_view(diagnostics@) =~= errors_view(old(diagnostics)@) + (
                        errs(p0) + (es + seq![grammar::end_of_input()])));
                    }
                    return Err(abort);
                },
            };
            let token_span = self.tokens[index].span;
            if token_type == TokenType::CloseCurly {
                self.next();
                proof {
                    assert(es + Seq::empty() =~= es);
                }
                break;
            }
            let ghost q1 = grammar::p_instr(ts, index as int);
            let parsed = match self.parse_instr(diagnostics) {
                Ok(parsed) => parsed,
                Err(abort) => {
                    proof {
                        assert(errors_view(diagnostics@) =~= errors_view(old(diagnostics)@) + (
                        errs(p0) + (es + errs(q1))));
                    }
                    return Err(abort);
                },
            };
            let ghost e2: Seq<grammar::ErrorView>;
            if let Some(instr) = parsed {
                let label_name = instr.label.content.clone();
                let ghost instruction_view = instr.view_of();
                if !code_contains(&code, label_name.as_str()) {
                    let ghost old_code = code_entries(code);
                    proof {
                        assert(!grammar::code_view_has(cv, label_name@)) by {
                            if grammar::code_view_has(cv, label_name@) {
                                let k = choose|k: int| 0 <= k < cv.len() && (#[trigger] cv[k]).0
                                    == label_name@;
                                assert(old_code[k].0@ == label_name@);
                            }
                        }
                    }
                    code_insert(&mut code, label_name, instr);
                    proof {
                        let after = code_entries(code);
                        assert forall|i: int, j: int|
                            0 <= i < j < after.len() implies (#[trigger] after[i]).0@ != (
                            #[trigger] after[j]).0@ by {
                            if j == old_code.len() {
                                assert(old_code[i] == after[i]);
                            }
                        }
                        assert(ast::code_view(code) =~= cv.push(
                            (instruction_view.0.0, instruction_view),
                        ));
                        e2 = Seq::empty();
                    }
                } else {
                    let ghost label_view = label_name@;
                    let error = Error::new(
                        ErrorCause::LabelAlreadyDeclared(LabelAlreadyDeclared { label_name }),
                        token_span,
                    );
                    proof {
                        lemma_extends_push(diagnostics@, error);
                        lemma_extends_trans(before, diagnostics@, diagnostics@.push(error));
                        lemma_errors_view_push(diagnostics@, error);
                        let entries = code_entries(code);
                        let k = choose|k: int|
                            0 <= k < entries.len() && (#[trigger] entries[k]).0@ == label_view;
                        assert(cv[k].0 == label_view);
                        assert(grammar::code_view_has(cv, instruction_view.0.0));
                        e2 = seq![grammar::label_twice_error(label_view, token_span)];
                    }
                    diagnostics.raise(error);
                }
            } else {
                proof {
                    e2 = Seq::empty();
                }
            }
            if self.curr_token == index {
                self.next();
            }
            proof {
                lemma_extends_trans(old(diagnostics)@, before, diagnostics@);
                assert(errors_view(diagnostics@) =~= errors_view(before) + (errs(q1) + e2));
                assert(grammar::p_body_loop(ts, index as int, cv) == grammar::after_errors(
                    errs(q1) + e2,
                    grammar::p_body_loop(ts, self.curr_token as int, ast::code_view(code)),
                ));
                grammar::lemma_after_errors(
                    es,
                    errs(q1) + e2,
                    grammar::p_body_loop(ts, self.curr_token as int, ast::code_view(code)),
                );
                es = es + (errs(q1) + e2);
                assert(errors_view(diagnostics@) =~= errors_view(d0) + es);
            }
        }
        proof {
            assert(errors_view(diagnostics@) =~= errors_view(old(diagnostics)@) + (errs(p0) + es));
        }
        Ok(code)
    }

    /// Parses a macro definition: its name, parameters and body.
    fn parse_macro_def(&mut self, macro_type: MacroType, diagnostics: &mut Diagnostics) -> (result:
        Result<Option<Macro>, Abort>)
        requires
            old(self).wf(),
            old(self).curr_token < old(self).tokens.len(),
        ensures
            final(self).wf(),
            final(self).tokens == old(self).tokens,
            final(self).curr_token > old(self).curr_token,
            extends(final(diagnostics)@, old(diagnostics)@),
            result is Err ==> final(diagnostics)@.len() > old(diagnostics)@.len(),
            result matches Ok(Some(m)) ==> code_labels_distinct(m.entries()) && m.macro_type
                == macro_type,
            follows(
                grammar::p_macro_def(old(self).tokens@, old(self).curr_token as int, macro_type),
                match result {
                    Ok(Some(m)) => Some(Some(m.view_of())),
                    Ok(None) => Some(None),
                    Err(_) => None,
                },
                final(self).curr_token as int,
                old(diagnostics)@,
                final(diagnostics)@,
            ),
    {
        proof {
            reveal(grammar::p_macro_def);
        }
        let ghost ts = self.tokens@;
        self.next();
        let ghost d0 = diagnostics@;
        let ghost q1 = p_register(ts, self.curr_token as int);
        let name_option = self.parse_macro_name(diagnostics)?;
        let ghost d1 = diagnostics@;
        let ghost q2 = p_params(ts, self.curr_token as int);
        let parameters = match self.parse_macro_def_params(diagnostics) {
            Ok(parameters) => parameters,
            Err(abort) => {
                proof {
                    assert(errors_view(diagnostics@) =~= errors_view(d0) + (errs(q1) + errs(q2)));
                }
                return Err(abort);
            },
        };
        let ghost d2 = diagnostics@;
        let ghost q3 = grammar::p_body(ts, self.curr_token as int);
        let instr = match self.parse_func_body(diagnostics) {
            Ok(instr) => instr,
            Err(abort) => {
                proof {
                    assert(errors_view(diagnostics@) =~= errors_view(d0) + (errs(q1) + errs(q2)
                        + errs(q3)));
                }
                return Err(abort);
            },
        };
        proof {
            lemma_extends_trans(d0, d1, d2);
            lemma_extends_trans(d0, d2, diagnostics@);
            assert(errors_view(diagnostics@) =~= errors_view(d0) + (errs(q1) + errs(q2) + errs(q3)));
        }
        match name_option {
            Some(name) => Ok(Some(Macro { macro_type, name, parameters, instr })),
            None => Ok(None),
        }
    }

    /// Parses the name of a macro.
    fn parse_macro_name(&mut self, diagnostics: &mut Diagnostics) -> (result: Result<
        Option<Symbol>,
        Abort,
    >)
        requires
            old(self).wf(),
        ensures
            final(self).wf(),
            final(self).tokens == old(self).tokens,
            final(self).curr_token >= old(self).curr_token,
            extends(final(diagnostics)@, old(diagnostics)@),
            result is Err ==> final(diagnostics)@.len() > old(diagnostics)@.len(),
            follows(
                p_register(old(self).tokens@, old(self).curr_token as int),
                symbol_result_view(result),
                final(self).curr_token as int,
                old(diagnostics)@,
                final(diagnostics)@,
            ),
    {
        self.parse_register(diagnostics)
    }

    /// Parses the parameters of a macro definition: registers between round
    /// brackets, separated by commas.
    #[verifier::spinoff_prover]
    #[verifier::rlimit(40)]
    fn parse_macro_def_params(&mut self, diagnostics: &mut Diagnostics) -> (result: Result<
        Vec<Symbol>,
        Abort,
    >)
        requires
            old(self).wf(),
        ensures
            final(self).wf(),
            final(self).tokens == old(self).tokens,
            final(self).curr_token >= old(self).curr_token,
            extends(final(diagnostics)@, old(diagnostics)@),
            result is Err ==> final(diagnostics)@.len() > old(diagnostics)@.len(),
            follows(
                p_params(old(self).tokens@, old(self).curr_token as int),
                match result {
                    Ok(parameters) => Some(ast::symbols_view(parameters@)),
                    Err(_) => None,
                },
                final(self).curr_token as int,
                old(diagnostics)@,
                final(diagnostics)@,
            ),
    {
        proof {
            reveal(grammar::p_params);
            reveal(grammar::p_params_loop);
        }
        let ghost ts = self.tokens@;
        let ghost p0 = p_expect(ts, self.curr_token as int, TokenType::OpenParen);
        match self.expect(TokenType::OpenParen, diagnostics) {
            Ok(()) => {},
            Err(abort) => {
                return Err(abort);
            },
        }
        let ghost d0 = diagnostics@;
        let ghost i0 = self.curr_token as int;
        let mut arguments: Vec<Symbol> = Vec::new();
        let mut needs_comma = false;
        let ghost mut es: Seq<grammar::ErrorView> = Seq::empty();
        proof {
            assert(ast::symbols_view(arguments@) =~= Seq::<ast::SymbolView>::empty());
            assert(errors_view(d0) =~= errors_view(d0) + es);
            assert(p_params_loop(ts, i0, false) =~~= after_prefix(
                Seq::<ast::SymbolView>::empty(),
                es,
                p_params_loop(ts, i0, false),
            ));
        }
        loop
            invariant_except_break
                p_params_loop(ts, i0, false) == after_prefix(
                    ast::symbols_view(arguments@),
                    es,
                    p_params_loop(ts, self.curr_token as int, needs_comma),
                ),
            invariant
                self.wf(),
                self.tokens == old(self).tokens,
                self.curr_token >= old(self).curr_token,
                extends(diagnostics@, old(diagnostics)@),
                ts == self.tokens@,
                p0 == p_expect(ts, old(self).curr_token as int, TokenType::OpenParen),
                p0 matches Parsed::Done(_, j, _) && j == i0,
                errors_view(d0) == errors_view(old(diagnostics)@) + errs(p0),
                errors_view(diagnostics@) == errors_view(d0) + es,
            ensures
                self.wf(),
                self.tokens == old(self).tokens,
                self.curr_token >= old(self).curr_token,
                extends(diagnostics@, old(diagnostics)@),
                errors_view(d0) == errors_view(old(diagnostics)@) + errs(p0),
                errors_view(diagnostics@) == errors_view(d0) + es,
                p_params_loop(ts, i0, false) == Parsed::Done(
                    ast::symbols_view(arguments@),
                    self.curr_token as int,
                    es,
                ),
            decreases self.tokens.len() - self.curr_token,
        {
            proof {
                reveal(grammar::p_params_loop);
                reveal(grammar::p_params);
                reveal(grammar::p_check);
                reveal(grammar::p_expect);
            }
            let ghost before = diagnostics@;
            let ghost acc = ast::symbols_view(arguments@);
            let ghost nc = needs_comma;
            let index = self.curr_token;
            let closed = match self.check_expect(TokenType::CloseParen, diagnostics) {
                Ok(closed) => closed,
                Err(abort) => {
                    proof {
                        assert(errors_view(diagnostics@) =~= errors_view(old(diagnostics)@) + (
                        errs(p0) + (es + seq![grammar::end_of_input()])));
                    }
                    return Err(abort);
                },
            };
            if closed {
                proof {
                    assert(es + Seq::empty() =~= es);
                    assert(acc + Seq::empty() =~= acc);
                }
                break;
            }
            let ghost ce = grammar::comma_errors(ts, index as int, nc);
            if needs_comma {
                self.unexpected(vec![TokenType::Comma, TokenType::CloseParen], index, diagnostics);
            }
            proof {
                assert(errors_view(diagnostics@) =~= errors_view(before) + ce);
            }
            let ghost q2 = p_register(ts, index as int);
            let parsed = match self.parse_register(diagnostics) {
                Ok(parsed) => parsed,
                Err(abort) => {
                    proof {
                        assert(errors_view(diagnostics@) =~= errors_view(old(diagnostics)@) + (
                        errs(p0) + (es + (ce + errs(q2)))));
                    }
                    return Err(abort);
                },
            };
            let ghost items: Seq<ast::SymbolView>;
            let ghost iteration_errors: Seq<grammar::ErrorView>;
            match parsed {
                Some(argument) => {
                    let ghost q3 = p_check(ts, self.curr_token as int, TokenType::Comma);
                    arguments.push(argument);
                    let comma = match self.check_expect(TokenType::Comma, diagnostics) {
                        Ok(comma) => comma,
                        Err(abort) => {
                            proof {
                                assert(errors_view(diagnostics@) =~= errors_view(old(diagnostics)@)
                                    + (errs(p0) + (es + (ce + errs(q2) + errs(q3)))));
                            }
                            return Err(abort);
                        },
                    };
                    needs_comma = !comma;
                    proof {
                        items = seq![argument.view_of()];
                        iteration_errors = ce + errs(q2) + errs(q3);
                        assert(ast::symbols_view(arguments@) =~= acc + items);
                    }
                },
                None => {
                    proof {
                        items = Seq::empty();
                        iteration_errors = ce + errs(q2);
                        assert(ast::symbols_view(arguments@) =~= acc + items);
                    }
                },
            }
            if self.curr_token == index {
                self.next();
            }
            proof {
                assert(errors_view(diagnostics@) =~= errors_view(before) + iteration_errors);
                assert(p_params_loop(ts, index as int, nc) == after_prefix(
                    items,
                    iteration_errors,
                    p_params_loop(ts, self.curr_token as int, needs_comma),
                ));
                grammar::lemma_after_prefix(
                    acc,
                    es,
                    items,
                    iteration_errors,
                    p_params_loop(ts, self.curr_token as int, needs_comma),
                );
                es = es + iteration_errors;
                assert(errors_view(diagnostics@) =~= errors_view(d0) + es);
            }
        }
        proof {
            assert(errors_view(diagnostics@) =~= errors_view(old(diagnostics)@) + (errs(p0) + es));
        }
        Ok(arguments)
    }

    /// Parses an instruction: a label, a colon, and an operation or a test.
    fn parse_instr(&mut self, diagnostics: &mut Diagnostics) -> (result: Result<
        Option<Instruction>,
        Abort,
    >)
        requires
            old(self).wf(),
        ensures
            final(self).wf(),
            final(self).tokens == old(self).tokens,
            final(self).curr_token >= old(self).curr_token,
            extends(final(diagnostics)@, old(diagnostics)@),
            result is Err ==> final(diagnostics)@.len() > old(diagnostics)@.len(),
            follows(
                grammar::p_instr(old(self).tokens@, old(self).curr_token as int),
                match result {
                    Ok(Some(instruction)) => Some(Some(instruction.view_of())),
                    Ok(None) => Some(None),
                    Err(_) => None,
                },
                final(self).curr_token as int,
                old(diagnostics)@,
                final(diagnostics)@,
            ),
    {
        proof {
            reveal(grammar::p_instr);
        }
        let ghost ts = self.tokens@;
        let ghost d0 = diagnostics@;
        let ghost q1 = p_label(ts, self.curr_token as int);
        let label_option = self.parse_label(diagnostics)?;
        let ghost d1 = diagnostics@;
        let ghost q2 = p_expect(ts, self.curr_token as int, TokenType::Colon);
        match self.expect(TokenType::Colon, diagnostics) {
            Ok(()) => {},
            Err(abort) => {
                proof {
                    assert(errors_view(diagnostics@) =~= errors_view(d0) + (errs(q1) + errs(q2)));
                }
                return Err(abort);
            },
        }
        let ghost d2 = diagnostics@;
        let ghost q3 = grammar::p_instr_type(ts, self.curr_token as int);
        let type_option = match self.parse_instr_type(diagnostics) {
            Ok(type_option) => type_option,
            Err(abort) => {
                proof {
                    assert(errors_view(diagnostics@) =~= errors_view(d0) + (errs(q1) + errs(q2)
                        + errs(q3)));
                }
                return Err(abort);
            },
        };
        proof {
            lemma_extends_trans(d0, d1, d2);
            lemma_extends_trans(d0, d2, diagnostics@);
        }
        match (label_option, type_option) {
            (Some(label), Some(instruction_type)) => {
                if is_boolean_label(&label.content) {
                    let error = Error::new(ErrorCause::InvalidLabel(InvalidLabel), label.span);
                    proof {
                        lemma_extends_push(diagnostics@, error);
                        lemma_extends_trans(d0, diagnostics@, diagnostics@.push(error));
                        lemma_errors_view_push(diagnostics@, error);
                    }
                    diagnostics.raise(error);
                }
                proof {
                    assert(errors_view(diagnostics@) =~= errors_view(d0) + (errs(q1) + errs(q2)
                        + errs(q3) + grammar::invalid_label_errors(label.view_of())));
                }
                Ok(Some(Instruction { label, instruction_type }))
            },
            _ => {
                proof {
                    assert(errors_view(diagnostics@) =~= errors_view(d0) + (errs(q1) + errs(q2)
                        + errs(q3)));
                }
                Ok(None)
            },
        }
    }

    /// Parses the kind of an instruction: `do` and an operation, or `if` and
    /// a test.
    fn parse_instr_type(&mut self, diagnostics: &mut Diagnostics) -> (result: Result<
        Option<InstructionType>,
        Abort,
    >)
        requires
            old(self).wf(),
        ensures
            final(self).wf(),
            final(self).tokens == old(self).tokens,
            final(self).curr_token >= old(self).curr_token,
            extends(final(diagnostics)@, old(diagnostics)@),
            result is Err ==> final(diagnostics)@.len() > old(diagnostics)@.len(),
            follows(
                grammar::p_instr_type(old(self).tokens@, old(self).curr_token as int),
                match result {
                    Ok(Some(instruction_type)) => Some(Some(instruction_type.view_of())),
                    Ok(None) => Some(None),
                    Err(_) => None,
                },
                final(self).curr_token as int,
                old(diagnostics)@,
                final(diagnostics)@,
            ),
    {
        proof {
            reveal(grammar::p_instr_type);
        }
        let index = self.curr_token;
        let token_type = self.require_current(diagnostics)?.token_type;
        if token_type == TokenType::Do {
            let operation = self.parse_instr_op(diagnostics)?;
            match operation {
                Some(operation) => Ok(Some(InstructionType::Operation(operation))),
                None => Ok(None),
            }
        } else if token_type == TokenType::If {
            let test = self.parse_instr_test(diagnostics)?;
            match test {
                Some(test) => Ok(Some(InstructionType::Test(test))),
                None => Ok(None),
            }
        } else {
            self.unexpected(vec![TokenType::Do, TokenType::If], index, diagnostics);
            proof {
                assert(errors_view(diagnostics@) =~= errors_view(old(diagnostics)@) + seq![
                    unexpected(seq![TokenType::Do, TokenType::If], self.tokens@[index as int].span),
                ]);
            }
            Ok(None)
        }
    }

    /// Parses an operation instruction after its label: `do`, the operation,
    /// `goto` and the next label.
    fn parse_instr_op(&mut self, diagnostics: &mut Diagnostics) -> (result: Result<
        Option<Operation>,
        Abort,
    >)
        requires
            old(self).wf(),
            old(self).curr_token < old(self).tokens.len(),
        ensures
            final(self).wf(),
            final(self).tokens == old(self).tokens,
            final(self).curr_token > old(self).curr_token,
            extends(final(diagnostics)@, old(diagnostics)@),
            result is Err ==> final(diagnostics)@.len() > old(diagnostics)@.len(),
            follows(
                grammar::p_instr_op(old(self).tokens@, old(self).curr_token as int),
                match result {
                    Ok(Some(operation)) => Some(
                        Some(
                            ast::InstructionTypeView::Operation(
                                operation.oper_type.view_of(),
                                operation.next_label.view_of(),
                            ),
                        ),
                    ),
                    Ok(None) => Some(None),
                    Err(_) => None,
                },
                final(self).curr_token as int,
                old(diagnostics)@,
                final(diagnostics)@,
            ),
    {
        proof {
            reveal(grammar::p_instr_op);
        }
        let ghost ts = self.tokens@;
        self.next();
        let ghost d0 = diagnostics@;
        let ghost q1 = grammar::p_operation_type(ts, self.curr_token as int);
        let oper_type = self.parse_operation_type(diagnostics)?;
        let ghost d1 = diagnostics@;
        let ghost q2 = p_expect(ts, self.curr_token as int, TokenType::Goto);
        match self.expect(TokenType::Goto, diagnostics) {
            Ok(()) => {},
            Err(abort) => {
                proof {
                    assert(errors_view(diagnostics@) =~= errors_view(d0) + (errs(q1) + errs(q2)));
                }
                return Err(abort);
            },
        }
        let ghost d2 = diagnostics@;
        let ghost q3 = p_label(ts, self.curr_token as int);
        let next_label = match self.parse_label(diagnostics) {
            Ok(next_label) => next_label,
            Err(abort) => {
                proof {
                    assert(errors_view(diagnostics@) =~= errors_view(d0) + (errs(q1) + errs(q2)
                        + errs(q3)));
                }
                return Err(abort);
            },
        };
        proof {
            lemma_extends_trans(d0, d1, d2);
            lemma_extends_trans(d0, d2, diagnostics@);
            assert(errors_view(diagnostics@) =~= errors_view(d0) + (errs(q1) + errs(q2) + errs(q3)));
        }
        match (oper_type, next_label) {
            (Some(oper_type), Some(next_label)) => Ok(Some(Operation { oper_type, next_label })),
            _ => Ok(None),
        }
    }

    /// Parses what an operation instruction runs: a macro call or a built-in
    /// operation. In place of anything else, reports it, skips it, and reads
    /// the argument that follows.
    fn parse_operation_type(&mut self, diagnostics: &mut Diagnostics) -> (result: Result<
        Option<OperationType>,
        Abort,
    >)
        requires
            old(self).wf(),
        ensures
            final(self).wf(),
            final(self).tokens == old(self).tokens,
            final(self).curr_token >= old(self).curr_token,
            extends(final(diagnostics)@, old(diagnostics)@),
            result is Err ==> final(diagnostics)@.len() > old(diagnostics)@.len(),
            follows(
                grammar::p_operation_type(old(self).tokens@, old(self).curr_token as int),
                match result {
                    Ok(Some(oper_type)) => Some(Some(oper_type.view_of())),
                    Ok(None) => Some(None),
                    Err(_) => None,
                },
                final(self).curr_token as int,
                old(diagnostics)@,
                final(diagnostics)@,
            ),
    {
        proof {
            reveal(grammar::p_operation_type);
        }
        let ghost ts = self.tokens@;
        let index = self.curr_token;
        let token_type = self.require_current(diagnostics)?.token_type;
        match token_type {
            TokenType::Identifier => {
                let macro_name = self.symbol_at(index);
                self.next();
                let arguments = self.parse_macro_args(diagnostics)?;
                Ok(Some(OperationType::Macro(macro_name, arguments)))
            },
            TokenType::BuiltInOper(oper) => {
                self.next();
                let argument = self.parse_builtin_arg(diagnostics)?;
                match argument {
                    Some(argument) => Ok(Some(OperationType::BuiltIn(oper, argument))),
                    None => Ok(None),
                }
            },
            _ => {
                let ghost d0 = diagnostics@;
                let ghost e0 = seq![
                    unexpected(
                        seq![
                            TokenType::BuiltInOper(BuiltInOperation::Inc),
                            TokenType::BuiltInOper(BuiltInOperation::Dec),
                            TokenType::Identifier,
                        ],
                        ts[index as int].span,
                    ),
                ];
                self.unexpected(
                    vec![
                        TokenType::BuiltInOper(BuiltInOperation::Inc),
                        TokenType::BuiltInOper(BuiltInOperation::Dec),
                        TokenType::Identifier,
                    ],
                    index,
                    diagnostics,
                );
                self.next();
                let ghost d1 = diagnostics@;
                let ghost q = p_builtin_arg(ts, index + 1);
                match self.parse_builtin_arg(diagnostics) {
                    Ok(_) => {},
                    Err(abort) => {
                        proof {
                            assert(errors_view(diagnostics@) =~= errors_view(d0) + (e0 + errs(q)));
                        }
                        return Err(abort);
                    },
                }
                proof {
                    lemma_extends_trans(d0, d1, diagnostics@);
                    assert(errors_view(diagnostics@) =~= errors_view(d0) + (e0 + errs(q)));
                }
                Ok(None)
            },
        }
    }

    /// Parses a test instruction after its label: `if`, the test, `then goto`
    /// and a label, `else goto` and a label.
    #[verifier::spinoff_prover]
    #[verifier::rlimit(40)]
    fn parse_instr_test(&mut self, diagnostics: &mut Diagnostics) -> (result: Result<
        Option<Test>,
        Abort,
    >)
        requires
            old(self).wf(),
            old(self).curr_token < old(self).tokens.len(),
        ensures
            final(self).wf(),
            final(self).tokens == old(self).tokens,
            final(self).curr_token > old(self).curr_token,
            extends(final(diagnostics)@, old(diagnostics)@),
            result is Err ==> final(diagnostics)@.len() > old(diagnostics)@.len(),
            follows(
                grammar::p_instr_test(old(self).tokens@, old(self).curr_token as int),
                match result {
                    Ok(Some(test)) => Some(
                        Some(
                            ast::InstructionTypeView::Test(
                                test.test_type.view_of(),
                                test.next_true_label.view_of(),
                                test.next_false_label.view_of(),
                            ),
                        ),
                    ),
                    Ok(None) => Some(None),
                    Err(_) => None,
                },
                final(self).curr_token as int,
                old(diagnostics)@,
                final(diagnostics)@,
            ),
    {
        proof {
            reveal(grammar::p_instr_test);
        }
        let ghost ts = self.tokens@;
        self.next();
        let ghost d0 = diagnostics@;
        let ghost q1 = grammar::p_test_type(ts, self.curr_token as int);
        let test_type = self.parse_test_type(diagnostics)?;
        let ghost d1 = diagnostics@;
        let ghost q2 = grammar::p_goto_label(ts, self.curr_token as int, TokenType::Then);
        let then_label = match self.parse_goto_label(TokenType::Then, diagnostics) {
            Ok(label) => label,
            Err(abort) => {
                proof {
                    assert(errors_view(diagnostics@) =~= errors_view(d0) + (errs(q1) + errs(q2)));
                }
                return Err(abort);
            },
        };
        let ghost d2 = diagnostics@;
        let ghost q3 = grammar::p_goto_label(ts, self.curr_token as int, TokenType::Else);
        let else_label = match self.parse_goto_label(TokenType::Else, diagnostics) {
            Ok(label) => label,
            Err(abort) => {
                proof {
                    assert(errors_view(diagnostics@) =~= errors_view(d0) + (errs(q1) + errs(q2)
                        + errs(q3)));
                }
                return Err(abort);
            },
        };
        proof {
            lemma_extends_trans(d0, d1, d2);
            lemma_extends_trans(d0, d2, diagnostics@);
            assert(errors_view(diagnostics@) =~= errors_view(d0) + (errs(q1) + errs(q2) + errs(q3)));
        }
        match (test_type, then_label, else_label) {
            (Some(test_type), Some(next_true_label), Some(next_false_label)) => Ok(
                Some(Test { test_type, next_true_label, next_false_label }),
            ),
            _ => Ok(None),
        }
    }

    /// Parses a jump of a test: the keyword `keyword`, `goto` and a label.
    fn parse_goto_label(&mut self, keyword: TokenType, diagnostics: &mut Diagnostics) -> (result:
        Result<Option<Symbol>, Abort>)
        requires
            old(self).wf(),
        ensures
            final(self).wf(),
            final(self).tokens == old(self).tokens,
            final(self).curr_token >= old(self).curr_token,
            extends(final(diagnostics)@, old(diagnostics)@),
            result is Err ==> final(diagnostics)@.len() > old(diagnostics)@.len(),
            follows(
                grammar::p_goto_label(old(self).tokens@, old(self).curr_token as int, keyword),
                symbol_result_view(result),
                final(self).curr_token as int,
                old(diagnostics)@,
                final(diagnostics)@,
            ),
    {
        proof {
            reveal(grammar::p_goto_label);
        }
        let ghost ts = self.tokens@;
        let ghost d0 = diagnostics@;
        let ghost q1 = p_expect(ts, self.curr_token as int, keyword);
        self.expect(keyword, diagnostics)?;
        let ghost d1 = diagnostics@;
        let ghost q2 = p_expect(ts, self.curr_token as int, TokenType::Goto);
        match self.expect(TokenType::Goto, diagnostics) {
            Ok(()) => {},
            Err(abort) => {
                proof {
                    assert(errors_view(diagnostics@) =~= errors_view(d0) + (errs(q1) + errs(q2)));
                }
                return Err(abort);
            },
        }
        let ghost d2 = diagnostics@;
        let ghost q3 = p_label(ts, self.curr_token as int);
        let label = match self.parse_label(diagnostics) {
            Ok(label) => label,
            Err(abort) => {
                proof {
                    assert(errors_view(diagnostics@) =~= errors_view(d0) + (errs(q1) + errs(q2)
                        + errs(q3)));
                }
                return Err(abort);
            },
        };
        proof {
            lemma_extends_trans(d0, d1, d2);
            lemma_extends_trans(d0, d2, diagnostics@);
            assert(errors_view(diagnostics@) =~= errors_view(d0) + (errs(q1) + errs(q2) + errs(q3)));
        }
        Ok(label)
    }

    /// Parses what a test instruction checks: a macro call or a built-in
    /// test. In place of anything else, reports it, skips it, and reads
    /// the argument that follows.
    fn parse_test_type(&mut self, diagnostics: &mut Diagnostics) -> (result: Result<
        Option<TestType>,
        Abort,
    >)
        requires
            old(self).wf(),
        ensures
            final(self).wf(),
            final(self).tokens == old(self).tokens,
            final(self).curr_token >= old(self).curr_token,
            extends(final(diagnostics)@, old(diagnostics)@),
            result is Err ==> final(diagnostics)@.len() > old(diagnostics)@.len(),
            follows(
                grammar::p_test_type(old(self).tokens@, old(self).curr_token as int),
                match result {
                    Ok(Some(test_type)) => Some(Some(test_type.view_of())),
                    Ok(None) => Some(None),
                    Err(_) => None,
                },
                final(self).curr_token as int,
                old(diagnostics)@,
                final(diagnostics)@,
            ),
    {
        proof {
            reveal(grammar::p_test_type);
        }
        let ghost ts = self.tokens@;
        let index = self.curr_token;
        let token_type = self.require_current(diagnostics)?.token_type;
        match token_type {
            TokenType::Identifier => {
                let macro_name = self.symbol_at(index);
                self.next();
                let arguments = self.parse_macro_args(diagnostics)?;
                Ok(Some(TestType::Macro(macro_name, arguments)))
            },
            TokenType::BuiltInTest(test) => {
                self.next();
                let argument = self.parse_builtin_arg(diagnostics)?;
                match argument {
                    Some(argument) => Ok(Some(TestType::BuiltIn(test, argument))),
                    None => Ok(None),
                }
            },
            _ => {
                let ghost d0 = diagnostics@;
                let ghost e0 = seq![
                    unexpected(
                        seq![TokenType::BuiltInTest(BuiltInTest::Zero), TokenType::Identifier],
                        ts[index as int].span,
                    ),
                ];
                self.unexpected(
                    vec![TokenType::BuiltInTest(BuiltInTest::Zero), TokenType::Identifier],
                    index,
                    diagnostics,
                );
                self.next();
                let ghost d1 = diagnostics@;
                let ghost q = p_builtin_arg(ts, index + 1);
                match self.parse_builtin_arg(diagnostics) {
                    Ok(_) => {},
                    Err(abort) => {
                        proof {
                            assert(errors_view(diagnostics@) =~= errors_view(d0) + (e0 + errs(q)));
                        }
                        return Err(abort);
                    },
                }
                proof {
                    lemma_extends_trans(d0, d1, diagnostics@);
                    assert(errors_view(diagnostics@) =~= errors_view(d0) + (e0 + errs(q)));
                }
                Ok(None)
            },
        }
    }

    /// Parses the register of a built-in operation or test, between round
    /// brackets or not.
    fn parse_builtin_arg(&mut self, diagnostics: &mut Diagnostics) -> (result: Result<
        Option<Symbol>,
        Abort,
    >)
        requires
            old(self).wf(),
        ensures
            final(self).wf(),
            final(self).tokens == old(self).tokens,
            final(self).curr_token >= old(self).curr_token,
            extends(final(diagnostics)@, old(diagnostics)@),
            result is Err ==> final(diagnostics)@.len() > old(diagnostics)@.len(),
            follows(
                p_builtin_arg(old(self).tokens@, old(self).curr_token as int),
                symbol_result_view(result),
                final(self).curr_token as int,
                old(diagnostics)@,
                final(diagnostics)@,
            ),
    {
        proof {
            reveal(grammar::p_builtin_arg);
        }
        let ghost d0 = diagnostics@;
        let ghost ts = self.tokens@;
        let ghost p1 = p_check(ts, self.curr_token as int, TokenType::OpenParen);
        let has_parens = self.check_expect(TokenType::OpenParen, diagnostics)?;
        let ghost p2 = p_register(ts, self.curr_token as int);
        let parameter = match self.parse_register(diagnostics) {
            Ok(parameter) => parameter,
            Err(abort) => {
                proof {
                    assert(errors_view(diagnostics@) =~= errors_view(d0) + (errs(p1) + errs(p2)));
                }
                return Err(abort);
            },
        };
        let ghost d2 = diagnostics@;
        if has_parens {
            let ghost p3 = p_expect(ts, self.curr_token as int, TokenType::CloseParen);
            match self.expect(TokenType::CloseParen, diagnostics) {
                Ok(()) => {},
                Err(abort) => {
                    proof {
                        lemma_extends_trans(d0, d2, diagnostics@);
                        assert(errors_view(diagnostics@) =~= errors_view(d0) + (errs(p1) + errs(p2)
                            + errs(p3)));
                    }
                    return Err(abort);
                },
            }
            proof {
                lemma_extends_trans(d0, d2, diagnostics@);
                assert(errors_view(diagnostics@) =~= errors_view(d0) + (errs(p1) + errs(p2) + errs(
                    p3,
                )));
            }
        } else {
            proof {
                assert(errors_view(diagnostics@) =~= errors_view(d0) + (errs(p1) + errs(p2)));
            }
        }
        Ok(parameter)
    }

    /// Parses the arguments of a macro call: registers or numbers between
    /// round brackets, separated by commas.
    fn parse_macro_args(&mut self, diagnostics: &mut Diagnostics) -> (result: Result<
        Vec<MacroArgument>,
        Abort,
    >)
        requires
            old(self).wf(),
        ensures
            final(self).wf(),
            final(self).tokens == old(self).tokens,
            final(self).curr_token >= old(self).curr_token,
            extends(final(diagnostics)@, old(diagnostics)@),
            result is Err ==> final(diagnostics)@.len() > old(diagnostics)@.len(),
            follows(
                p_args(old(self).tokens@, old(self).curr_token as int),
                match result {
                    Ok(arguments) => Some(ast::arguments_view(arguments@)),
                    Err(_) => None,
                },
                final(self).curr_token as int,
                old(diagnostics)@,
                final(diagnostics)@,
            ),
    {
        proof {
            reveal(grammar::p_args);
            reveal(grammar::p_args_loop);
        }
        let ghost ts = self.tokens@;
        let ghost p0 = p_expect(ts, self.curr_token as int, TokenType::OpenParen);
        match self.expect(TokenType::OpenParen, diagnostics) {
            Ok(()) => {},
            Err(abort) => {
                return Err(abort);
            },
        }
        let ghost d0 = diagnostics@;
        let ghost i0 = self.curr_token as int;
        let mut arguments: Vec<MacroArgument> = Vec::new();
        let mut needs_comma = false;
        let ghost mut es: Seq<grammar::ErrorView> = Seq::empty();
        proof {
            assert(ast::arguments_view(arguments@) =~= Seq::<ast::ArgumentView>::empty());
            assert(errors_view(d0) =~= errors_view(d0) + es);
            assert(p_args_loop(ts, i0, false) =~~= after_prefix(
                Seq::<ast::ArgumentView>::empty(),
                es,
                p_args_loop(ts, i0, false),
            ));
        }
        loop
            invariant_except_break
                p_args_loop(ts, i0, false) == after_prefix(
                    ast::arguments_view(arguments@),
                    es,
                    p_args_loop(ts, self.curr_token as int, needs_comma),
                ),
            invariant
                self.wf(),
                self.tokens == old(self).tokens,
                self.curr_token >= old(self).curr_token,
                extends(diagnostics@, old(diagnostics)@),
                ts == self.tokens@,
                p0 == p_expect(ts, old(self).curr_token as int, TokenType::OpenParen),
                p0 matches Parsed::Done(_, j, _) && j == i0,
                errors_view(d0) == errors_view(old(diagnostics)@) + errs(p0),
                errors_view(diagnostics@) == errors_view(d0) + es,
            ensures
                self.wf(),
                self.tokens == old(self).tokens,
                self.curr_token >= old(self).curr_token,
                extends(diagnostics@, old(diagnostics)@),
                errors_view(d0) == errors_view(old(diagnostics)@) + errs(p0),
                errors_view(diagnostics@) == errors_view(d0) + es,
                p_args_loop(ts, i0, false) == Parsed::Done(
                    ast::arguments_view(arguments@),
                    self.curr_token as int,
                    es,
                ),
            decreases self.tokens.len() - self.curr_token,
        {
            proof {
                reveal(grammar::p_args_loop);
                reveal(grammar::p_args);
                reveal(grammar::p_check);
                reveal(grammar::p_expect);
            }
            let ghost before = diagnostics@;
            let ghost acc = ast::arguments_view(arguments@);
            let ghost nc = needs_comma;
            let index = self.curr_token;
            let closed = match self.check_expect(TokenType::CloseParen, diagnostics) {
                Ok(closed) => closed,
                Err(abort) => {
                    proof {
                        assert(errors_view(diagnostics@) =~= errors_view(old(diagnostics)@) + (
                        errs(p0) + (es + seq![grammar::end_of_input()])));
                    }
                    return Err(abort);
                },
            };
            if closed {
                proof {
                    assert(es + Seq::empty() =~= es);
                    assert(acc + Seq::empty() =~= acc);
                }
                break;
            }
            let ghost ce = grammar::comma_errors(ts, index as int, nc);
            if needs_comma {
                self.unexpected(vec![TokenType::Comma, TokenType::CloseParen], index, diagnostics);
            }
            proof {
                assert(errors_view(diagnostics@) =~= errors_view(before) + ce);
            }
            let ghost q2 = p_macro_arg(ts, index as int);
            let parsed = match self.parse_macro_arg(diagnostics) {
                Ok(parsed) => parsed,
                Err(abort) => {
                    proof {
                        assert(errors_view(diagnostics@) =~= errors_view(old(diagnostics)@) + (
                        errs(p0) + (es + (ce + errs(q2)))));
                    }
                    return Err(abort);
                },
            };
            let ghost items: Seq<ast::ArgumentView>;
            let ghost iteration_errors: Seq<grammar::ErrorView>;
            match parsed {
                Some(argument) => {
                    let ghost q3 = p_check(ts, self.curr_token as int, TokenType::Comma);
                    arguments.push(argument);
                    let comma = match self.check_expect(TokenType::Comma, diagnostics) {
                        Ok(comma) => comma,
                        Err(abort) => {
                            proof {
                                assert(errors_view(diagnostics@) =~= errors_view(old(diagnostics)@)
                                    + (errs(p0) + (es + (ce + errs(q2) + errs(q3)))));
                            }
                            return Err(abort);
                        },
                    };
                    needs_comma = !comma;
                    proof {
                        items = seq![argument.view_of()];
                        iteration_errors = ce + errs(q2) + errs(q3);
                        assert(ast::arguments_view(arguments@) =~= acc + items);
                    }
                },
                None => {
                    proof {
                        items = Seq::empty();
                        iteration_errors = ce + errs(q2);
                        assert(ast::arguments_view(arguments@) =~= acc + items);
                    }
                },
            }
            if self.curr_token == index {
                self.next();
            }
            proof {
                assert(errors_view(diagnostics@) =~= errors_view(before) + iteration_errors);
                assert(p_args_loop(ts, index as int, nc) == after_prefix(
                    items,
                    iteration_errors,
                    p_args_loop(ts, self.curr_token as int, needs_comma),
                ));
                grammar::lemma_after_prefix(
                    acc,
                    es,
                    items,
                    iteration_errors,
                    p_args_loop(ts, self.curr_token as int, needs_comma),
                );
                es = es + iteration_errors;
                assert(errors_view(diagnostics@) =~= errors_view(d0) + es);
            }
        }
        proof {
            assert(errors_view(diagnostics@) =~= errors_view(old(diagnostics)@) + (errs(p0) + es));
        }
        Ok(arguments)
    }

    /// Parses one argument of a macro call: a register or a number.
    fn parse_macro_arg(&mut self, diagnostics: &mut Diagnostics) -> (result: Result<
        Option<MacroArgument>,
        Abort,
    >)
        requires
            old(self).wf(),
        ensures
            final(self).wf(),
            final(self).tokens == old(self).tokens,
            final(self).curr_token >= old(self).curr_token,
            extends(final(diagnostics)@, old(diagnostics)@),
            result is Err ==> final(diagnostics)@.len() > old(diagnostics)@.len(),
            follows(
                p_macro_arg(old(self).tokens@, old(self).curr_token as int),
                match result {
                    Ok(Some(argument)) => Some(Some(argument.view_of())),
                    Ok(None) => Some(None),
                    Err(_) => None,
                },
                final(self).curr_token as int,
                old(diagnostics)@,
                final(diagnostics)@,
            ),
    {
        proof {
            reveal(grammar::p_macro_arg);
        }
        let index = self.curr_token;
        let token_type = self.require_current(diagnostics)?.token_type;
        match token_type {
            TokenType::Identifier => {
                let symbol = self.symbol_at(index);
                self.next();
                proof {
                    assert(errors_view(diagnostics@) =~= errors_view(old(diagnostics)@)
                        + Seq::empty());
                }
                Ok(Some(MacroArgument::Register(symbol)))
            },
            TokenType::Number => {
                let constant = match Natural::parse(self.tokens[index].content.as_str()) {
                    Ok(constant) => constant,
                    Err(_) => {
                        proof {
                            assert(self.tokens@[index as int].token_type == TokenType::Number);
                        }
                        Natural::zero()
                    },
                };
                self.next();
                proof {
                    assert(errors_view(diagnostics@) =~= errors_view(old(diagnostics)@)
                        + Seq::empty());
                }
                Ok(Some(MacroArgument::Number(constant)))
            },
            _ => {
                self.unexpected(vec![TokenType::Identifier, TokenType::Number], index, diagnostics);
                proof {
                    assert(errors_view(diagnostics@) =~= errors_view(old(diagnostics)@) + seq![
                        unexpected(
                            seq![TokenType::Identifier, TokenType::Number],
                            self.tokens@[index as int].span,
                        ),
                    ]);
                }
                Ok(None)
            },
        }
    }

    /// Parses a register name.
    fn parse_register(&mut self, diagnostics: &mut Diagnostics) -> (result: Result<
        Option<Symbol>,
        Abort,
    >)
        requires
            old(self).wf(),
        ensures
            final(self).wf(),
            final(self).tokens == old(self).tokens,
            final(self).curr_token >= old(self).curr_token,
            extends(final(diagnostics)@, old(diagnostics)@),
            result is Err ==> final(diagnostics)@.len() > old(diagnostics)@.len(),
            follows(
                p_register(old(self).tokens@, old(self).curr_token as int),
                symbol_result_view(result),
                final(self).curr_token as int,
                old(diagnostics)@,
                final(diagnostics)@,
            ),
    {
        proof {
            reveal(grammar::p_register);
        }
        let index = self.curr_token;
        let token_type = self.require_current(diagnostics)?.token_type;
        if token_type == TokenType::Identifier {
            let symbol = self.symbol_at(index);
            self.next();
            proof {
                assert(errors_view(diagnostics@) =~= errors_view(old(diagnostics)@) + Seq::empty());
            }
            Ok(Some(symbol))
        } else {
            self.unexpected(vec![TokenType::Identifier], index, diagnostics);
            proof {
                assert(errors_view(diagnostics@) =~= errors_view(old(diagnostics)@) + seq![
                    unexpected(seq![TokenType::Identifier], self.tokens@[index as int].span),
                ]);
            }
            Ok(None)
        }
    }

    /// Parses the label of an instruction, or one that an instruction goes
    /// to: an identifier or a number.
    fn parse_label(&mut self, diagnostics: &mut Diagnostics) -> (result: Result<
        Option<Symbol>,
        Abort,
    >)
        requires
            old(self).wf(),
        ensures
            final(self).wf(),
            final(self).tokens == old(self).tokens,
            final(self).curr_token >= old(self).curr_token,
            extends(final(diagnostics)@, old(diagnostics)@),
            result is Err ==> final(diagnostics)@.len() > old(diagnostics)@.len(),
            follows(
                p_label(old(self).tokens@, old(self).curr_token as int),
                symbol_result_view(result),
                final(self).curr_token as int,
                old(diagnostics)@,
                final(diagnostics)@,
            ),
    {
        proof {
            reveal(grammar::p_label);
        }
        let index = self.curr_token;
        let token_type = self.require_current(diagnostics)?.token_type;
        match token_type {
            TokenType::Number | TokenType::Identifier => {
                let label = self.symbol_at(index);
                self.next();
                proof {
                    assert(errors_view(diagnostics@) =~= errors_view(old(diagnostics)@)
                        + Seq::empty());
                }
                Ok(Some(label))
            },
            _ => {
                self.unexpected(vec![TokenType::Identifier, TokenType::Number], index, diagnostics);
                proof {
                    assert(errors_view(diagnostics@) =~= errors_view(old(diagnostics)@) + seq![
                        unexpected(
                            seq![TokenType::Identifier, TokenType::Number],
                            self.tokens@[index as int].span,
                        ),
                    ]);
                }
                Ok(None)
            },
        }
    }

    /// The symbol of the token at `index`.
    fn symbol_at(&self, index: usize) -> (result: Symbol)
        requires
            index < self.tokens.len(),
        ensures
            result.content@ == self.tokens@[index as int].content@,
            result.span == self.tokens@[index as int].span,
    {
        Symbol { content: self.tokens[index].content.clone(), span: self.tokens[index].span }
    }
}

/// Whether a label reads `true` or `false`, which no instruction may have.
fn is_boolean_label(label: &String) -> (result: bool)
    ensures
        result == (label@ == "true"@ || label@ == "false"@),
{
    *label == String::from_str("true") || *label == String::from_str("false")
}

} // verus!
