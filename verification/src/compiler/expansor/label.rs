//! The labels `true` and `false`, which test macros end at, and the checks
//! of the labels that each kind of body may jump to.

use crate::compiler::error::{Diagnostics, Error, ErrorCause};
use crate::compiler::expansor::error::{
    InvalidLabelForMain,
    InvalidLabelForOperMacro,
    InvalidLabelForTestMacro,
};
use crate::compiler::parser::ast::{self, code_contains, code_entries, code_has};
use indexmap::IndexMap;
use vstd::prelude::*;
use vstd::string::StringExecFns;

verus! {

/// Whether `label` is `true`.
pub fn is_true(label: &str) -> (result: bool)
    ensures
        result == (label@ == "true"@),
{
    String::from_str(label) == String::from_str("true")
}

/// Whether `label` is `false`.
pub fn is_false(label: &str) -> (result: bool)
    ensures
        result == (label@ == "false"@),
{
    String::from_str(label) == String::from_str("false")
}

/// The errors that checking `label` as a jump of a body of kind `kind` gives:
/// `main` and operation macros may not jump to `true` or `false`; a test
/// macro may jump only to them and to its own labels.
pub open spec fn label_errors(
    kind: Option<ast::MacroType>,
    label: ast::Symbol,
    code: Seq<(String, ast::Instruction)>,
) -> Seq<Error> {
    let boolean = label.content@ == "true"@ || label.content@ == "false"@;
    match kind {
        None => if boolean {
            seq![
                Error {
                    cause: ErrorCause::InvalidLabelForMain(
                        InvalidLabelForMain { label: label.content },
                    ),
                    span: Some(label.span),
                },
            ]
        } else {
            Seq::empty()
        },
        Some(ast::MacroType::Operation) => if boolean {
            seq![
                Error {
                    cause: ErrorCause::InvalidLabelForOperMacro(
                        InvalidLabelForOperMacro { label: label.content },
                    ),
                    span: Some(label.span),
                },
            ]
        } else {
            Seq::empty()
        },
        Some(ast::MacroType::Test) => if !boolean && !code_has(code, label.content@) {
            seq![
                Error {
                    cause: ErrorCause::InvalidLabelForTestMacro(
                        InvalidLabelForTestMacro { label: label.content },
                    ),
                    span: Some(label.span),
                },
            ]
        } else {
            Seq::empty()
        },
    }
}

/// Checks `label` as a jump of a body of kind `kind` (`None` for `main`)
/// whose instructions are `code`, raising an error where it may not jump
/// there.
pub fn validate_label(
    kind: Option<ast::MacroType>,
    label: &ast::Symbol,
    code: &IndexMap<String, ast::Instruction>,
    diagnostics: &mut Diagnostics,
)
    ensures
        final(diagnostics)@ == old(diagnostics)@ + label_errors(kind, *label, code_entries(*code)),
{
    match kind {
        None => validate_for_main(label, code, diagnostics),
        Some(ast::MacroType::Operation) => validate_for_oper_macro(label, code, diagnostics),
        Some(ast::MacroType::Test) => validate_for_test_macro(label, code, diagnostics),
    }
}

/// Checks `label` as a jump of `main`, whose instructions are `code`:
/// `main` may not jump to `true` or `false`.
pub fn validate_for_main(
    label: &ast::Symbol,
    code: &IndexMap<String, ast::Instruction>,
    diagnostics: &mut Diagnostics,
)
    ensures
        final(diagnostics)@ == old(diagnostics)@ + label_errors(None, *label, code_entries(*code)),
{
    if is_true(label.content.as_str()) || is_false(label.content.as_str()) {
        let cause = ErrorCause::InvalidLabelForMain(
            InvalidLabelForMain { label: label.content.clone() },
        );
        diagnostics.raise(Error::new(cause, label.span));
    }
    proof {
        assert(diagnostics@ =~= old(diagnostics)@ + label_errors(None, *label, code_entries(*code)));
    }
}

/// Checks `label` as a jump of an operation macro, whose instructions are
/// `code`: it may not jump to `true` or `false`.
pub fn validate_for_oper_macro(
    label: &ast::Symbol,
    code: &IndexMap<String, ast::Instruction>,
    diagnostics: &mut Diagnostics,
)
    ensures
        final(diagnostics)@ == old(diagnostics)@ + label_errors(
            Some(ast::MacroType::Operation),
            *label,
            code_entries(*code),
        ),
{
    if is_true(label.content.as_str()) || is_false(label.content.as_str()) {
        let cause = ErrorCause::InvalidLabelForOperMacro(
            InvalidLabelForOperMacro { label: label.content.clone() },
        );
        diagnostics.raise(Error::new(cause, label.span));
    }
    proof {
        assert(diagnostics@ =~= old(diagnostics)@ + label_errors(
            Some(ast::MacroType::Operation),
            *label,
            code_entries(*code),
        ));
    }
}

/// Checks `label` as a jump of a test macro, whose instructions are `code`:
/// it may jump only to `true`, `false` and its own labels.
pub fn validate_for_test_macro(
    label: &ast::Symbol,
    code: &IndexMap<String, ast::Instruction>,
    diagnostics: &mut Diagnostics,
)
    ensures
        final(diagnostics)@ == old(diagnostics)@ + label_errors(
            Some(ast::MacroType::Test),
            *label,
            code_entries(*code),
        ),
{
    let boolean = is_true(label.content.as_str()) || is_false(label.content.as_str());
    if !boolean && !code_contains(code, label.content.as_str()) {
        let cause = ErrorCause::InvalidLabelForTestMacro(
            InvalidLabelForTestMacro { label: label.content.clone() },
        );
        diagnostics.raise(Error::new(cause, label.span));
    }
    proof {
        assert(diagnostics@ =~= old(diagnostics)@ + label_errors(
            Some(ast::MacroType::Test),
            *label,
            code_entries(*code),
        ));
    }
}

} // verus!
