//! What parsing gives, as plain values: for each part of the syntax, the
//! tree it reads from the tokens at an index, the index it stops at, and the
//! errors it raises (or that it gives up, where the tokens run out).

use crate::compiler::error::{quoted_list, Error};
use crate::compiler::lexer::token::{BuiltInOperation, BuiltInTest, Token, TokenType};
use crate::compiler::parser::ast::{
    ArgumentView,
    CodeView,
    InstructionTypeView,
    InstructionView,
    MacroType,
    MacroView,
    OperationTypeView,
    ProgramView,
    SymbolView,
    TestTypeView,
};
use crate::compiler::position::Span;
use crate::natural::numeral_value;
use vstd::prelude::*;

verus! {

/// An error as plain values: its message and its span.
pub type ErrorView = (Seq<char>, Option<Span>);

/// An error as plain values.
pub open spec fn error_view(error: Error) -> ErrorView {
    (error.cause.spec_message(), error.span)
}

/// Errors as plain values.
pub open spec fn errors_view(errors: Seq<Error>) -> Seq<ErrorView> {
    errors.map_values(|error: Error| error_view(error))
}

/// What reading a part of the syntax gives: the part, the index after it,
/// and the errors raised; or only the errors, where the tokens ran out.
pub enum Parsed<T> {
    Done(T, int, Seq<ErrorView>),
    Aborted(Seq<ErrorView>),
}

/// The errors that reading a part raised.
pub open spec fn errs<T>(parsed: Parsed<T>) -> Seq<ErrorView> {
    match parsed {
        Parsed::Done(_, _, errors) => errors,
        Parsed::Aborted(errors) => errors,
    }
}

/// The index that reading a part stopped at.
pub open spec fn stop<T>(parsed: Parsed<T>) -> int {
    match parsed {
        Parsed::Done(_, next, _) => next,
        Parsed::Aborted(_) => 0,
    }
}

/// A list that `items` and `errors` come before: the list read after them,
/// with them in front.
pub open spec fn after_prefix<T>(items: Seq<T>, errors: Seq<ErrorView>, rest: Parsed<Seq<T>>) -> Parsed<
    Seq<T>,
> {
    match rest {
        Parsed::Done(list, next, more) => Parsed::Done(items + list, next, errors + more),
        Parsed::Aborted(more) => Parsed::Aborted(errors + more),
    }
}

/// Putting two prefixes in front of a list, one after the other, is
/// putting them in front together.
pub proof fn lemma_after_prefix<T>(
    items1: Seq<T>,
    errors1: Seq<ErrorView>,
    items2: Seq<T>,
    errors2: Seq<ErrorView>,
    rest: Parsed<Seq<T>>,
)
    ensures
        after_prefix(items1, errors1, after_prefix(items2, errors2, rest)) == after_prefix(
            items1 + items2,
            errors1 + errors2,
            rest,
        ),
{
    match rest {
        Parsed::Done(list, next, more) => {
            assert(items1 + (items2 + list) =~= items1 + items2 + list);
            assert(errors1 + (errors2 + more) =~= errors1 + errors2 + more);
        },
        Parsed::Aborted(more) => {
            assert(errors1 + (errors2 + more) =~= errors1 + errors2 + more);
        },
    }
}

/// What reading goes on to give, after the errors `errors`.
pub open spec fn after_errors<T>(errors: Seq<ErrorView>, rest: Parsed<T>) -> Parsed<T> {
    match rest {
        Parsed::Done(value, next, more) => Parsed::Done(value, next, errors + more),
        Parsed::Aborted(more) => Parsed::Aborted(errors + more),
    }
}

/// Errors raised one after the other come together.
pub proof fn lemma_after_errors<T>(errors1: Seq<ErrorView>, errors2: Seq<ErrorView>, rest: Parsed<T>)
    ensures
        after_errors(errors1, after_errors(errors2, rest)) == after_errors(errors1 + errors2, rest),
{
    match rest {
        Parsed::Done(value, next, more) => {
            assert(errors1 + (errors2 + more) =~= errors1 + errors2 + more);
        },
        Parsed::Aborted(more) => {
            assert(errors1 + (errors2 + more) =~= errors1 + errors2 + more);
        },
    }
}

/// No errors before make no difference.
pub proof fn lemma_after_errors_empty<T>(rest: Parsed<T>)
    ensures
        after_errors(Seq::empty(), rest) == rest,
{
    match rest {
        Parsed::Done(value, next, more) => {
            assert(Seq::<ErrorView>::empty() + more =~= more);
        },
        Parsed::Aborted(more) => {
            assert(Seq::<ErrorView>::empty() + more =~= more);
        },
    }
}

/// The error for a token of none of the kinds `types`.
pub open spec fn unexpected(types: Seq<TokenType>, span: Span) -> ErrorView {
    (
        "Token inesperado encontrado, esperava-se um "@ + quoted_list(
            types.map_values(|token_type: TokenType| token_type.spec_text()),
            " ou "@,
        ),
        Some(span),
    )
}

/// The error for tokens that ran out.
pub open spec fn end_of_input() -> ErrorView {
    ("Fim inesperado do código"@, None)
}

/// The symbol that the token `token` is read as.
pub open spec fn symbol_of(token: Token) -> SymbolView {
    (token.content@, token.span)
}

/// The index to go on from, after a part that started at `start` stopped
/// at `stop`: the next token where the part took none.
pub open spec fn moved_on(start: int, stop: int) -> int {
    if stop > start {
        stop
    } else {
        start + 1
    }
}

/// The token at `i` must be of kind `expected`: it is skipped if it is, and
/// reported (and kept) if it is not.
#[verifier::opaque]
pub open spec fn p_expect(ts: Seq<Token>, i: int, expected: TokenType) -> Parsed<()> {
    if i < 0 || i >= ts.len() {
        Parsed::Aborted(seq![end_of_input()])
    } else if ts[i].token_type == expected {
        Parsed::Done((), i + 1, Seq::empty())
    } else {
        Parsed::Done((), i, seq![unexpected(seq![expected], ts[i].span)])
    }
}

/// Whether the token at `i` is of kind `expected`, skipping it if it is.
#[verifier::opaque]
pub open spec fn p_check(ts: Seq<Token>, i: int, expected: TokenType) -> Parsed<bool> {
    if i < 0 || i >= ts.len() {
        Parsed::Aborted(seq![end_of_input()])
    } else if ts[i].token_type == expected {
        Parsed::Done(true, i + 1, Seq::empty())
    } else {
        Parsed::Done(false, i, Seq::empty())
    }
}

/// A register: an identifier.
#[verifier::opaque]
pub open spec fn p_register(ts: Seq<Token>, i: int) -> Parsed<Option<SymbolView>> {
    if i < 0 || i >= ts.len() {
        Parsed::Aborted(seq![end_of_input()])
    } else if ts[i].token_type == TokenType::Identifier {
        Parsed::Done(Some(symbol_of(ts[i])), i + 1, Seq::empty())
    } else {
        Parsed::Done(None, i, seq![unexpected(seq![TokenType::Identifier], ts[i].span)])
    }
}

/// A label: an identifier or a number.
#[verifier::opaque]
pub open spec fn p_label(ts: Seq<Token>, i: int) -> Parsed<Option<SymbolView>> {
    if i < 0 || i >= ts.len() {
        Parsed::Aborted(seq![end_of_input()])
    } else if ts[i].token_type == TokenType::Identifier || ts[i].token_type == TokenType::Number {
        Parsed::Done(Some(symbol_of(ts[i])), i + 1, Seq::empty())
    } else {
        Parsed::Done(
            None,
            i,
            seq![unexpected(seq![TokenType::Identifier, TokenType::Number], ts[i].span)],
        )
    }
}

/// An argument of a macro call: a register or a number.
#[verifier::opaque]
pub open spec fn p_macro_arg(ts: Seq<Token>, i: int) -> Parsed<Option<ArgumentView>> {
    if i < 0 || i >= ts.len() {
        Parsed::Aborted(seq![end_of_input()])
    } else if ts[i].token_type == TokenType::Identifier {
        Parsed::Done(Some(ArgumentView::Register(symbol_of(ts[i]))), i + 1, Seq::empty())
    } else if ts[i].token_type == TokenType::Number {
        Parsed::Done(
            Some(ArgumentView::Number(numeral_value(ts[i].content@))),
            i + 1,
            Seq::empty(),
        )
    } else {
        Parsed::Done(
            None,
            i,
            seq![unexpected(seq![TokenType::Identifier, TokenType::Number], ts[i].span)],
        )
    }
}

/// The register of a built-in, between round brackets or not.
#[verifier::opaque]
pub open spec fn p_builtin_arg(ts: Seq<Token>, i: int) -> Parsed<Option<SymbolView>> {
    match p_check(ts, i, TokenType::OpenParen) {
        Parsed::Aborted(e) => Parsed::Aborted(e),
        Parsed::Done(parens, i1, e1) => match p_register(ts, i1) {
            Parsed::Aborted(e2) => Parsed::Aborted(e1 + e2),
            Parsed::Done(register, i2, e2) => if parens {
                match p_expect(ts, i2, TokenType::CloseParen) {
                    Parsed::Aborted(e3) => Parsed::Aborted(e1 + e2 + e3),
                    Parsed::Done(_, i3, e3) => Parsed::Done(register, i3, e1 + e2 + e3),
                }
            } else {
                Parsed::Done(register, i2, e1 + e2)
            },
        },
    }
}

/// The error for a missing comma before the token at `i`, if one is needed.
pub open spec fn comma_errors(ts: Seq<Token>, i: int, needs_comma: bool) -> Seq<ErrorView> {
    if needs_comma {
        seq![unexpected(seq![TokenType::Comma, TokenType::CloseParen], ts[i].span)]
    } else {
        Seq::empty()
    }
}

/// The arguments of a macro call from `i` on, up to and including the
/// closing round bracket.
#[verifier::opaque]
pub open spec fn p_args_loop(ts: Seq<Token>, i: int, needs_comma: bool) -> Parsed<
    Seq<ArgumentView>,
>
    decreases ts.len() - i,
{
    match p_check(ts, i, TokenType::CloseParen) {
        Parsed::Aborted(e) => Parsed::Aborted(e),
        Parsed::Done(true, i1, e1) => Parsed::Done(Seq::empty(), i1, e1),
        Parsed::Done(false, _, _) => {
            let e1 = comma_errors(ts, i, needs_comma);
            match p_macro_arg(ts, i) {
                Parsed::Aborted(e2) => Parsed::Aborted(e1 + e2),
                Parsed::Done(Some(argument), i2, e2) => match p_check(ts, i2, TokenType::Comma) {
                    Parsed::Aborted(e3) => Parsed::Aborted(e1 + e2 + e3),
                    Parsed::Done(comma, i3, e3) => {
                        let next = moved_on(i, i3);
                        if 0 <= i < next <= ts.len() {
                            match p_args_loop(ts, next, !comma) {
                                Parsed::Aborted(e4) => Parsed::Aborted(e1 + e2 + e3 + e4),
                                Parsed::Done(rest, i4, e4) => Parsed::Done(
                                    seq![argument] + rest,
                                    i4,
                                    e1 + e2 + e3 + e4,
                                ),
                            }
                        } else {
                            Parsed::Aborted(Seq::empty())
                        }
                    },
                },
                Parsed::Done(None, i2, e2) => {
                    let next = moved_on(i, i2);
                    if 0 <= i < next <= ts.len() {
                        match p_args_loop(ts, next, needs_comma) {
                            Parsed::Aborted(e4) => Parsed::Aborted(e1 + e2 + e4),
                            Parsed::Done(rest, i4, e4) => Parsed::Done(rest, i4, e1 + e2 + e4),
                        }
                    } else {
                        Parsed::Aborted(Seq::empty())
                    }
                },
            }
        },
    }
}

/// The arguments of a macro call: round brackets around arguments separated
/// by commas.
#[verifier::opaque]
pub open spec fn p_args(ts: Seq<Token>, i: int) -> Parsed<Seq<ArgumentView>> {
    match p_expect(ts, i, TokenType::OpenParen) {
        Parsed::Aborted(e) => Parsed::Aborted(e),
        Parsed::Done(_, i1, e1) => match p_args_loop(ts, i1, false) {
            Parsed::Aborted(e2) => Parsed::Aborted(e1 + e2),
            Parsed::Done(arguments, i2, e2) => Parsed::Done(arguments, i2, e1 + e2),
        },
    }
}

/// The parameters of a macro definition from `i` on, up to and including
/// the closing round bracket.
#[verifier::opaque]
pub open spec fn p_params_loop(ts: Seq<Token>, i: int, needs_comma: bool) -> Parsed<
    Seq<SymbolView>,
>
    decreases ts.len() - i,
{
    match p_check(ts, i, TokenType::CloseParen) {
        Parsed::Aborted(e) => Parsed::Aborted(e),
        Parsed::Done(true, i1, e1) => Parsed::Done(Seq::empty(), i1, e1),
        Parsed::Done(false, _, _) => {
            let e1 = comma_errors(ts, i, needs_comma);
            match p_register(ts, i) {
                Parsed::Aborted(e2) => Parsed::Aborted(e1 + e2),
                Parsed::Done(Some(parameter), i2, e2) => match p_check(ts, i2, TokenType::Comma) {
                    Parsed::Aborted(e3) => Parsed::Aborted(e1 + e2 + e3),
                    Parsed::Done(comma, i3, e3) => {
                        let next = moved_on(i, i3);
                        if 0 <= i < next <= ts.len() {
                            match p_params_loop(ts, next, !comma) {
                                Parsed::Aborted(e4) => Parsed::Aborted(e1 + e2 + e3 + e4),
                                Parsed::Done(rest, i4, e4) => Parsed::Done(
                                    seq![parameter] + rest,
                                    i4,
                                    e1 + e2 + e3 + e4,
                                ),
                            }
                        } else {
                            Parsed::Aborted(Seq::empty())
                        }
                    },
                },
                Parsed::Done(None, i2, e2) => {
                    let next = moved_on(i, i2);
                    if 0 <= i < next <= ts.len() {
                        match p_params_loop(ts, next, needs_comma) {
                            Parsed::Aborted(e4) => Parsed::Aborted(e1 + e2 + e4),
                            Parsed::Done(rest, i4, e4) => Parsed::Done(rest, i4, e1 + e2 + e4),
                        }
                    } else {
                        Parsed::Aborted(Seq::empty())
                    }
                },
            }
        },
    }
}

/// The parameters of a macro definition: round brackets around registers
/// separated by commas.
#[verifier::opaque]
pub open spec fn p_params(ts: Seq<Token>, i: int) -> Parsed<Seq<SymbolView>> {
    match p_expect(ts, i, TokenType::OpenParen) {
        Parsed::Aborted(e) => Parsed::Aborted(e),
        Parsed::Done(_, i1, e1) => match p_params_loop(ts, i1, false) {
            Parsed::Aborted(e2) => Parsed::Aborted(e1 + e2),
            Parsed::Done(parameters, i2, e2) => Parsed::Done(parameters, i2, e1 + e2),
        },
    }
}

/// What an operation instruction runs: a macro call, or a built-in
/// operation and its register. Any other token is reported and skipped, and
/// a register is read after it.
#[verifier::opaque]
pub open spec fn p_operation_type(ts: Seq<Token>, i: int) -> Parsed<Option<OperationTypeView>> {
    if i < 0 || i >= ts.len() {
        Parsed::Aborted(seq![end_of_input()])
    } else {
        match ts[i].token_type {
            TokenType::Identifier => match p_args(ts, i + 1) {
                Parsed::Aborted(e) => Parsed::Aborted(e),
                Parsed::Done(arguments, i1, e1) => Parsed::Done(
                    Some(OperationTypeView::Macro(symbol_of(ts[i]), arguments)),
                    i1,
                    e1,
                ),
            },
            TokenType::BuiltInOper(oper) => match p_builtin_arg(ts, i + 1) {
                Parsed::Aborted(e) => Parsed::Aborted(e),
                Parsed::Done(Some(register), i1, e1) => Parsed::Done(
                    Some(OperationTypeView::BuiltIn(oper, register)),
                    i1,
                    e1,
                ),
                Parsed::Done(None, i1, e1) => Parsed::Done(None, i1, e1),
            },
            _ => {
                let e0 = seq![
                    unexpected(
                        seq![
                            TokenType::BuiltInOper(BuiltInOperation::Inc),
                            TokenType::BuiltInOper(BuiltInOperation::Dec),
                            TokenType::Identifier,
                        ],
                        ts[i].span,
                    ),
                ];
                match p_builtin_arg(ts, i + 1) {
                    Parsed::Aborted(e) => Parsed::Aborted(e0 + e),
                    Parsed::Done(_, i1, e1) => Parsed::Done(None, i1, e0 + e1),
                }
            },
        }
    }
}

/// What a test instruction checks: a macro call, or a built-in test and its
/// register. Any other token is reported and skipped, and a register is
/// read after it.
#[verifier::opaque]
pub open spec fn p_test_type(ts: Seq<Token>, i: int) -> Parsed<Option<TestTypeView>> {
    if i < 0 || i >= ts.len() {
        Parsed::Aborted(seq![end_of_input()])
    } else {
        match ts[i].token_type {
            TokenType::Identifier => match p_args(ts, i + 1) {
                Parsed::Aborted(e) => Parsed::Aborted(e),
                Parsed::Done(arguments, i1, e1) => Parsed::Done(
                    Some(TestTypeView::Macro(symbol_of(ts[i]), arguments)),
                    i1,
                    e1,
                ),
            },
            TokenType::BuiltInTest(test) => match p_builtin_arg(ts, i + 1) {
                Parsed::Aborted(e) => Parsed::Aborted(e),
                Parsed::Done(Some(register), i1, e1) => Parsed::Done(
                    Some(TestTypeView::BuiltIn(test, register)),
                    i1,
                    e1,
                ),
                Parsed::Done(None, i1, e1) => Parsed::Done(None, i1, e1),
            },
            _ => {
                let e0 = seq![
                    unexpected(
                        seq![TokenType::BuiltInTest(BuiltInTest::Zero), TokenType::Identifier],
                        ts[i].span,
                    ),
                ];
                match p_builtin_arg(ts, i + 1) {
                    Parsed::Aborted(e) => Parsed::Aborted(e0 + e),
                    Parsed::Done(_, i1, e1) => Parsed::Done(None, i1, e0 + e1),
                }
            },
        }
    }
}

/// An operation instruction after its label, from the `do` at `i`: the
/// operation, `goto` and the next label.
#[verifier::opaque]
pub open spec fn p_instr_op(ts: Seq<Token>, i: int) -> Parsed<Option<InstructionTypeView>> {
    match p_operation_type(ts, i + 1) {
        Parsed::Aborted(e) => Parsed::Aborted(e),
        Parsed::Done(oper_type, i1, e1) => match p_expect(ts, i1, TokenType::Goto) {
            Parsed::Aborted(e2) => Parsed::Aborted(e1 + e2),
            Parsed::Done(_, i2, e2) => match p_label(ts, i2) {
                Parsed::Aborted(e3) => Parsed::Aborted(e1 + e2 + e3),
                Parsed::Done(next, i3, e3) => Parsed::Done(
                    if oper_type is Some && next is Some {
                        Some(InstructionTypeView::Operation(oper_type->0, next->0))
                    } else {
                        None
                    },
                    i3,
                    e1 + e2 + e3,
                ),
            },
        },
    }
}

/// A jump of a test: the keyword `keyword`, `goto` and a label.
#[verifier::opaque]
pub open spec fn p_goto_label(ts: Seq<Token>, i: int, keyword: TokenType) -> Parsed<
    Option<SymbolView>,
> {
    match p_expect(ts, i, keyword) {
        Parsed::Aborted(e) => Parsed::Aborted(e),
        Parsed::Done(_, i1, e1) => match p_expect(ts, i1, TokenType::Goto) {
            Parsed::Aborted(e2) => Parsed::Aborted(e1 + e2),
            Parsed::Done(_, i2, e2) => match p_label(ts, i2) {
                Parsed::Aborted(e3) => Parsed::Aborted(e1 + e2 + e3),
                Parsed::Done(label, i3, e3) => Parsed::Done(label, i3, e1 + e2 + e3),
            },
        },
    }
}

/// A test instruction after its label, from the `if` at `i`: the test,
/// `then goto` and a label, `else goto` and a label.
#[verifier::opaque]
pub open spec fn p_instr_test(ts: Seq<Token>, i: int) -> Parsed<Option<InstructionTypeView>> {
    match p_test_type(ts, i + 1) {
        Parsed::Aborted(e) => Parsed::Aborted(e),
        Parsed::Done(test_type, i1, e1) => match p_goto_label(ts, i1, TokenType::Then) {
            Parsed::Aborted(e2) => Parsed::Aborted(e1 + e2),
            Parsed::Done(then_label, i2, e2) => match p_goto_label(ts, i2, TokenType::Else) {
                Parsed::Aborted(e3) => Parsed::Aborted(e1 + e2 + e3),
                Parsed::Done(else_label, i3, e3) => Parsed::Done(
                    if test_type is Some && then_label is Some && else_label is Some {
                        Some(
                            InstructionTypeView::Test(test_type->0, then_label->0, else_label->0),
                        )
                    } else {
                        None
                    },
                    i3,
                    e1 + e2 + e3,
                ),
            },
        },
    }
}

/// What an instruction does: `do` and an operation, or `if` and a test.
#[verifier::opaque]
pub open spec fn p_instr_type(ts: Seq<Token>, i: int) -> Parsed<Option<InstructionTypeView>> {
    if i < 0 || i >= ts.len() {
        Parsed::Aborted(seq![end_of_input()])
    } else if ts[i].token_type == TokenType::Do {
        p_instr_op(ts, i)
    } else if ts[i].token_type == TokenType::If {
        p_instr_test(ts, i)
    } else {
        Parsed::Done(None, i, seq![unexpected(seq![TokenType::Do, TokenType::If], ts[i].span)])
    }
}

/// The error for an instruction labelled `true` or `false`.
pub open spec fn invalid_label_errors(label: SymbolView) -> Seq<ErrorView> {
    if label.0 == "true"@ || label.0 == "false"@ {
        seq![("Nome de label não pode ser \"true\" nem \"false\""@, Some(label.1))]
    } else {
        Seq::empty()
    }
}

/// An instruction: a label, a colon, and what it does.
#[verifier::opaque]
pub open spec fn p_instr(ts: Seq<Token>, i: int) -> Parsed<Option<InstructionView>> {
    match p_label(ts, i) {
        Parsed::Aborted(e) => Parsed::Aborted(e),
        Parsed::Done(label, i1, e1) => match p_expect(ts, i1, TokenType::Colon) {
            Parsed::Aborted(e2) => Parsed::Aborted(e1 + e2),
            Parsed::Done(_, i2, e2) => match p_instr_type(ts, i2) {
                Parsed::Aborted(e3) => Parsed::Aborted(e1 + e2 + e3),
                Parsed::Done(instruction_type, i3, e3) => if label is Some
                    && instruction_type is Some {
                    Parsed::Done(
                        Some((label->0, instruction_type->0)),
                        i3,
                        e1 + e2 + e3 + invalid_label_errors(label->0),
                    )
                } else {
                    Parsed::Done(None, i3, e1 + e2 + e3)
                },
            },
        },
    }
}

/// Whether some entry of `code` has the label `label`.
pub open spec fn code_view_has(code: CodeView, label: Seq<char>) -> bool {
    exists|k: int| 0 <= k < code.len() && (#[trigger] code[k]).0 == label
}

/// The error for a label used twice, reported at `span`.
pub open spec fn label_twice_error(label: Seq<char>, span: Span) -> ErrorView {
    ("Macro \""@ + label + "\" já foi declarada neste programa"@, Some(span))
}

/// The instructions of a body from `i` on, added to `code`, up to and
/// including the closing curly bracket. A label used a second time is
/// reported at the start of its instruction, and that instruction dropped.
#[verifier::opaque]
pub open spec fn p_body_loop(ts: Seq<Token>, i: int, code: CodeView) -> Parsed<CodeView>
    decreases ts.len() - i,
{
    if i < 0 || i >= ts.len() {
        Parsed::Aborted(seq![end_of_input()])
    } else if ts[i].token_type == TokenType::CloseCurly {
        Parsed::Done(code, i + 1, Seq::empty())
    } else {
        match p_instr(ts, i) {
            Parsed::Aborted(e) => Parsed::Aborted(e),
            Parsed::Done(instruction, i1, e1) => {
                let (new_code, e2) = match instruction {
                    Some(instruction) => if code_view_has(code, instruction.0.0) {
                        (code, seq![label_twice_error(instruction.0.0, ts[i].span)])
                    } else {
                        (code.push((instruction.0.0, instruction)), Seq::empty())
                    },
                    None => (code, Seq::empty()),
                };
                let next = moved_on(i, i1);
                if next <= ts.len() {
                    match p_body_loop(ts, next, new_code) {
                        Parsed::Aborted(e3) => Parsed::Aborted(e1 + e2 + e3),
                        Parsed::Done(final_code, i3, e3) => Parsed::Done(final_code, i3, e1 + e2 + e3),
                    }
                } else {
                    Parsed::Aborted(Seq::empty())
                }
            },
        }
    }
}

/// A body: instructions between curly brackets.
#[verifier::opaque]
pub open spec fn p_body(ts: Seq<Token>, i: int) -> Parsed<CodeView> {
    match p_expect(ts, i, TokenType::OpenCurly) {
        Parsed::Aborted(e) => Parsed::Aborted(e),
        Parsed::Done(_, i1, e1) => match p_body_loop(ts, i1, Seq::empty()) {
            Parsed::Aborted(e2) => Parsed::Aborted(e1 + e2),
            Parsed::Done(code, i2, e2) => Parsed::Done(code, i2, e1 + e2),
        },
    }
}

/// `main` and its body, from the `main` at `i`.
#[verifier::opaque]
pub open spec fn p_main(ts: Seq<Token>, i: int) -> Parsed<CodeView> {
    p_body(ts, i + 1)
}

/// A macro definition of kind `kind`, from its keyword at `i`: a name,
/// parameters and a body.
#[verifier::opaque]
pub open spec fn p_macro_def(ts: Seq<Token>, i: int, kind: MacroType) -> Parsed<Option<MacroView>> {
    match p_register(ts, i + 1) {
        Parsed::Aborted(e) => Parsed::Aborted(e),
        Parsed::Done(name, i1, e1) => match p_params(ts, i1) {
            Parsed::Aborted(e2) => Parsed::Aborted(e1 + e2),
            Parsed::Done(parameters, i2, e2) => match p_body(ts, i2) {
                Parsed::Aborted(e3) => Parsed::Aborted(e1 + e2 + e3),
                Parsed::Done(code, i3, e3) => Parsed::Done(
                    match name {
                        Some(name) => Some((kind, name, parameters, code)),
                        None => None,
                    },
                    i3,
                    e1 + e2 + e3,
                ),
            },
        },
    }
}

/// Whether some macro of `macros` is named `name`.
pub open spec fn macros_view_have(macros: Seq<(Seq<char>, MacroView)>, name: Seq<char>) -> bool {
    exists|k: int| 0 <= k < macros.len() && (#[trigger] macros[k]).0 == name
}

/// The macros after the definition `definition`: added, or reported where
/// a macro of its name is there already.
pub open spec fn add_macro(macros: Seq<(Seq<char>, MacroView)>, definition: MacroView) -> (
    Seq<(Seq<char>, MacroView)>,
    Seq<ErrorView>,
) {
    let name = definition.1;
    if macros_view_have(macros, name.0) {
        (macros, seq![("Macro \""@ + name.0 + "\" já foi declarada neste programa"@, Some(name.1))])
    } else {
        (macros.push((name.0, definition)), Seq::empty())
    }
}

/// What the program's parts from `i` on give, after `main` (if read) and
/// `macros`.
#[verifier::opaque]
pub open spec fn p_program_loop(
    ts: Seq<Token>,
    i: int,
    main: Option<CodeView>,
    macros: Seq<(Seq<char>, MacroView)>,
) -> Parsed<(Option<CodeView>, Seq<(Seq<char>, MacroView)>)>
    decreases ts.len() - i,
{
    if i < 0 || i >= ts.len() {
        Parsed::Done((main, macros), i, Seq::empty())
    } else {
        let step: Parsed<(Option<CodeView>, Seq<(Seq<char>, MacroView)>)> = match ts[i].token_type {
            TokenType::Main => match p_main(ts, i) {
                Parsed::Aborted(e) => if main is None {
                    Parsed::Aborted(e)
                } else {
                    Parsed::Aborted(
                        seq![("Main já foi declarada neste programa"@, Some(ts[i].span))] + e,
                    )
                },
                Parsed::Done(code, i1, e1) => if main is None {
                    Parsed::Done((Some(code), macros), i1, e1)
                } else {
                    Parsed::Done(
                        (main, macros),
                        i1,
                        seq![("Main já foi declarada neste programa"@, Some(ts[i].span))] + e1,
                    )
                },
            },
            TokenType::Operation => match p_macro_def(ts, i, MacroType::Operation) {
                Parsed::Aborted(e) => Parsed::Aborted(e),
                Parsed::Done(Some(definition), i1, e1) => Parsed::Done(
                    (main, add_macro(macros, definition).0),
                    i1,
                    e1 + add_macro(macros, definition).1,
                ),
                Parsed::Done(None, i1, e1) => Parsed::Done((main, macros), i1, e1),
            },
            TokenType::Test => match p_macro_def(ts, i, MacroType::Test) {
                Parsed::Aborted(e) => Parsed::Aborted(e),
                Parsed::Done(Some(definition), i1, e1) => Parsed::Done(
                    (main, add_macro(macros, definition).0),
                    i1,
                    e1 + add_macro(macros, definition).1,
                ),
                Parsed::Done(None, i1, e1) => Parsed::Done((main, macros), i1, e1),
            },
            _ => Parsed::Done(
                (main, macros),
                i + 1,
                seq![
                    unexpected(
                        seq![TokenType::Main, TokenType::Operation, TokenType::Test],
                        ts[i].span,
                    ),
                ],
            ),
        };
        match step {
            Parsed::Aborted(e) => Parsed::Aborted(e),
            Parsed::Done((main1, macros1), i1, e1) => if i < i1 <= ts.len() {
                match p_program_loop(ts, i1, main1, macros1) {
                    Parsed::Aborted(e2) => Parsed::Aborted(e1 + e2),
                    Parsed::Done(result, i2, e2) => Parsed::Done(result, i2, e1 + e2),
                }
            } else {
                Parsed::Aborted(Seq::empty())
            },
        }
    }
}

/// What parsing `ts` gives: the program, where the tokens did not run out
/// early and `main` was declared, and the errors raised.
#[verifier::opaque]
pub open spec fn p_program(ts: Seq<Token>) -> (Option<ProgramView>, Seq<ErrorView>) {
    match p_program_loop(ts, 0, None, Seq::empty()) {
        Parsed::Aborted(e) => (None, e),
        Parsed::Done((Some(main), macros), _, e) => (Some((main, macros)), e),
        Parsed::Done((None, _), _, e) => (
            None,
            e + seq![("Main não foi declarada neste programa"@, None)],
        ),
    }
}

} // verus!
