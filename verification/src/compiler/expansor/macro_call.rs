//! Where the labels `true`, `false` and those outside a macro lead, once the
//! macro is expanded into the instruction that called it.

use crate::compiler::parser::ast;
use vstd::prelude::*;
use vstd::string::StringExecFns;

verus! {

/// How the labels of a called macro that are not its own are expanded, for
/// one kind of calling instruction.
pub trait MacroCallExpansor {
    /// The kind of instruction that makes the call.
    type InstructionKind;

    /// Where `true` leads, as plain values.
    spec fn true_label(&self, outer_instr_kind: &Self::InstructionKind) -> Seq<char>;

    /// Where `false` leads, as plain values.
    spec fn false_label(&self, outer_instr_kind: &Self::InstructionKind) -> Seq<char>;

    /// Where the other labels lead, as plain values.
    spec fn invalid_label(&self, outer_instr_kind: &Self::InstructionKind) -> Seq<char>;

    /// The kind of macro that this kind of instruction calls.
    spec fn spec_macro_type(&self) -> ast::MacroType;

    /// Where `true` leads.
    fn expand_true_label(&self, outer_instr_kind: &Self::InstructionKind) -> (result: String)
        ensures
            result@ == self.true_label(outer_instr_kind),
    ;

    /// Where `false` leads.
    fn expand_false_label(&self, outer_instr_kind: &Self::InstructionKind) -> (result: String)
        ensures
            result@ == self.false_label(outer_instr_kind),
    ;

    /// Where a label that is neither the macro's own, `true` nor `false`
    /// leads.
    fn expand_invalid_label(&self, outer_instr_kind: &Self::InstructionKind) -> (result: String)
        ensures
            result@ == self.invalid_label(outer_instr_kind),
    ;

    /// The kind of macro that this kind of instruction calls.
    fn macro_type(&self) -> (result: ast::MacroType)
        ensures
            result == self.spec_macro_type(),
    ;
}

/// Expansion of calls made by operation instructions: `true` and `false` are
/// kept, and any other label leaves to the label after the call.
#[derive(Clone, Debug, Copy, Default)]
pub struct OperMacroCallExpansor;

impl MacroCallExpansor for OperMacroCallExpansor {
    type InstructionKind = ast::Operation;

    open spec fn true_label(&self, outer_instr_kind: &ast::Operation) -> Seq<char> {
        "true"@
    }

    open spec fn false_label(&self, outer_instr_kind: &ast::Operation) -> Seq<char> {
        "false"@
    }

    open spec fn invalid_label(&self, outer_instr_kind: &ast::Operation) -> Seq<char> {
        outer_instr_kind.next_label.content@
    }

    open spec fn spec_macro_type(&self) -> ast::MacroType {
        ast::MacroType::Operation
    }

    fn expand_true_label(&self, _outer_instr_kind: &ast::Operation) -> (result: String) {
        String::from_str("true")
    }

    fn expand_false_label(&self, _outer_instr_kind: &ast::Operation) -> (result: String) {
        String::from_str("false")
    }

    fn expand_invalid_label(&self, outer_instr_kind: &ast::Operation) -> (result: String) {
        outer_instr_kind.next_label.content.clone()
    }

    fn macro_type(&self) -> (result: ast::MacroType) {
        ast::MacroType::Operation
    }
}

/// Expansion of calls made by test instructions: `true` leads to the label
/// after `then`, `false` to the one after `else`, and any other label to
/// `?`, a label that no program has.
#[derive(Clone, Debug, Copy, Default)]
pub struct TestMacroCallExpansor;

impl MacroCallExpansor for TestMacroCallExpansor {
    type InstructionKind = ast::Test;

    open spec fn true_label(&self, outer_instr_kind: &ast::Test) -> Seq<char> {
        outer_instr_kind.next_true_label.content@
    }

    open spec fn false_label(&self, outer_instr_kind: &ast::Test) -> Seq<char> {
        outer_instr_kind.next_false_label.content@
    }

    open spec fn invalid_label(&self, outer_instr_kind: &ast::Test) -> Seq<char> {
        "?"@
    }

    open spec fn spec_macro_type(&self) -> ast::MacroType {
        ast::MacroType::Test
    }

    fn expand_true_label(&self, outer_instr_kind: &ast::Test) -> (result: String) {
        outer_instr_kind.next_true_label.content.clone()
    }

    fn expand_false_label(&self, outer_instr_kind: &ast::Test) -> (result: String) {
        outer_instr_kind.next_false_label.content.clone()
    }

    fn expand_invalid_label(&self, _outer_instr_kind: &ast::Test) -> (result: String) {
        String::from_str("?")
    }

    fn macro_type(&self) -> (result: ast::MacroType) {
        ast::MacroType::Test
    }
}

} // verus!
