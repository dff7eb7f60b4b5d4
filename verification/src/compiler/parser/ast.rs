//! The syntax tree of a Norma program: a `main` and the macro definitions,
//! each a body of labelled instructions.

use crate::compiler::{
    lexer::token::{BuiltInOperation, BuiltInTest},
    position::Span,
};
use crate::natural::Natural;
use indexmap::IndexMap;
use vstd::prelude::*;
use vstd::string::StringExecFns;

verus! {

/// A word of the source code and where it was read.
#[derive(Clone, Debug, PartialEq, Eq)]
pub struct Symbol {
    pub content: String,
    pub span: Span,
}

/// A labelled instruction of a body.
#[derive(Clone, Debug, PartialEq, Eq)]
pub struct Instruction {
    pub label: Symbol,
    pub instruction_type: InstructionType,
}

/// What an operation instruction runs: a built-in operation on a register,
/// or an operation macro with its arguments.
#[derive(Clone, Debug, PartialEq, Eq)]
pub enum OperationType {
    BuiltIn(BuiltInOperation, Symbol),
    Macro(Symbol, Vec<MacroArgument>),
}

/// What a test instruction checks: a built-in test on a register, or a
/// test macro with its arguments.
#[derive(Clone, Debug, PartialEq, Eq)]
pub enum TestType {
    BuiltIn(BuiltInTest, Symbol),
    Macro(Symbol, Vec<MacroArgument>),
}

/// An operation or a test.
#[derive(Clone, Debug, PartialEq, Eq)]
pub enum InstructionType {
    Operation(Operation),
    Test(Test),
}

/// An operation and the label it goes to next.
#[derive(Clone, Debug, PartialEq, Eq)]
pub struct Operation {
    pub oper_type: OperationType,
    pub next_label: Symbol,
}

/// A test and the labels it goes to when it holds and when it does not.
#[derive(Clone, Debug, PartialEq, Eq)]
pub struct Test {
    pub test_type: TestType,
    pub next_true_label: Symbol,
    pub next_false_label: Symbol,
}

/// A macro definition.
#[derive(Debug, PartialEq, Eq)]
pub struct Macro {
    pub macro_type: MacroType,
    pub name: Symbol,
    pub parameters: Vec<Symbol>,
    pub instr: IndexMap<String, Instruction>,
}

/// Whether a macro is an operation or a test.
#[derive(Copy, Clone, Debug, PartialEq, Eq, Structural, PartialOrd, Ord, Hash)]
pub enum MacroType {
    Operation,
    Test,
}

/// An argument of a macro call: a register or a number.
#[derive(Clone, Debug, PartialEq, Eq)]
pub enum MacroArgument {
    Register(Symbol),
    Number(Natural),
}

/// The body of `main`.
#[derive(Debug, PartialEq, Eq)]
pub struct Main {
    pub code: IndexMap<String, Instruction>,
}

/// A whole program: `main` and the macros, by name, in the order they were
/// declared.
#[derive(Debug, PartialEq, Eq)]
pub struct Program {
    pub main: Main,
    pub macros: IndexMap<String, Macro>,
}

/// The kinds of macro argument.
#[derive(Copy, Clone, Debug, PartialEq, Eq, Structural)]
pub enum MacroArgumentType {
    Register,
    Number,
}

impl MacroType {
    /// How the kind reads in messages.
    pub open spec fn spec_text(self) -> Seq<char> {
        match self {
            MacroType::Operation => "Operation"@,
            MacroType::Test => "Test"@,
        }
    }

    /// How the kind reads in messages.
    pub fn text(&self) -> (result: String)
        ensures
            result@ == self.spec_text(),
    {
        match self {
            MacroType::Operation => String::from_str("Operation"),
            MacroType::Test => String::from_str("Test"),
        }
    }
}

impl MacroArgumentType {
    /// How the kind reads in messages.
    pub open spec fn spec_text(self) -> Seq<char> {
        match self {
            MacroArgumentType::Register => "registrador"@,
            MacroArgumentType::Number => "número"@,
        }
    }

    /// How the kind reads in messages.
    pub fn text(&self) -> (result: String)
        ensures
            result@ == self.spec_text(),
    {
        match self {
            MacroArgumentType::Register => String::from_str("registrador"),
            MacroArgumentType::Number => String::from_str("número"),
        }
    }
}

impl MacroArgument {
    /// The kind of the argument.
    pub open spec fn spec_arg_type(self) -> MacroArgumentType {
        match self {
            MacroArgument::Register(_) => MacroArgumentType::Register,
            MacroArgument::Number(_) => MacroArgumentType::Number,
        }
    }

    /// The kind of the argument.
    pub fn arg_type(&self) -> (result: MacroArgumentType)
        ensures
            result == self.spec_arg_type(),
    {
        match self {
            MacroArgument::Register(_) => MacroArgumentType::Register,
            MacroArgument::Number(_) => MacroArgumentType::Number,
        }
    }
}

/// A symbol as plain values: its text and its span.
pub type SymbolView = (Seq<char>, Span);

/// A macro argument as plain values.
pub enum ArgumentView {
    Register(SymbolView),
    Number(nat),
}

/// What an operation instruction runs, as plain values.
pub enum OperationTypeView {
    BuiltIn(BuiltInOperation, SymbolView),
    Macro(SymbolView, Seq<ArgumentView>),
}

/// What a test instruction checks, as plain values.
pub enum TestTypeView {
    BuiltIn(BuiltInTest, SymbolView),
    Macro(SymbolView, Seq<ArgumentView>),
}

/// An operation with its next label, or a test with its two labels, as
/// plain values.
pub enum InstructionTypeView {
    Operation(OperationTypeView, SymbolView),
    Test(TestTypeView, SymbolView, SymbolView),
}

/// An instruction as plain values: its label and what it does.
pub type InstructionView = (SymbolView, InstructionTypeView);

/// A body as plain values: each label with its instruction, in order.
pub type CodeView = Seq<(Seq<char>, InstructionView)>;

/// A macro definition as plain values: its kind, name, parameters and body.
pub type MacroView = (MacroType, SymbolView, Seq<SymbolView>, CodeView);

/// A program as plain values: the body of `main`, and each macro name with
/// its definition, in order.
pub type ProgramView = (CodeView, Seq<(Seq<char>, MacroView)>);

impl Symbol {
    /// The symbol as plain values.
    pub open spec fn view_of(self) -> SymbolView {
        (self.content@, self.span)
    }
}

impl MacroArgument {
    /// The argument as plain values.
    pub open spec fn view_of(self) -> ArgumentView {
        match self {
            MacroArgument::Register(symbol) => ArgumentView::Register(symbol.view_of()),
            MacroArgument::Number(n) => ArgumentView::Number(n@),
        }
    }
}

/// Macro arguments as plain values.
pub open spec fn arguments_view(arguments: Seq<MacroArgument>) -> Seq<ArgumentView> {
    arguments.map_values(|argument: MacroArgument| argument.view_of())
}

/// Symbols as plain values.
pub open spec fn symbols_view(symbols: Seq<Symbol>) -> Seq<SymbolView> {
    symbols.map_values(|symbol: Symbol| symbol.view_of())
}

impl OperationType {
    /// What the operation runs, as plain values.
    pub open spec fn view_of(self) -> OperationTypeView {
        match self {
            OperationType::BuiltIn(oper, symbol) => OperationTypeView::BuiltIn(
                oper,
                symbol.view_of(),
            ),
            OperationType::Macro(name, arguments) => OperationTypeView::Macro(
                name.view_of(),
                arguments_view(arguments@),
            ),
        }
    }
}

impl TestType {
    /// What the test checks, as plain values.
    pub open spec fn view_of(self) -> TestTypeView {
        match self {
            TestType::BuiltIn(test, symbol) => TestTypeView::BuiltIn(test, symbol.view_of()),
            TestType::Macro(name, arguments) => TestTypeView::Macro(
                name.view_of(),
                arguments_view(arguments@),
            ),
        }
    }
}

impl InstructionType {
    /// What the instruction does, as plain values.
    pub open spec fn view_of(self) -> InstructionTypeView {
        match self {
            InstructionType::Operation(operation) => InstructionTypeView::Operation(
                operation.oper_type.view_of(),
                operation.next_label.view_of(),
            ),
            InstructionType::Test(test) => InstructionTypeView::Test(
                test.test_type.view_of(),
                test.next_true_label.view_of(),
                test.next_false_label.view_of(),
            ),
        }
    }
}

impl Instruction {
    /// The instruction as plain values.
    pub open spec fn view_of(self) -> InstructionView {
        (self.label.view_of(), self.instruction_type.view_of())
    }
}

/// A body as plain values.
pub open spec fn code_view(map: IndexMap<String, Instruction>) -> CodeView {
    code_entries(map).map_values(
        |entry: (String, Instruction)| (entry.0@, entry.1.view_of()),
    )
}

impl Macro {
    /// The definition as plain values.
    pub open spec fn view_of(self) -> MacroView {
        (self.macro_type, self.name.view_of(), symbols_view(self.parameters@), code_view(self.instr))
    }
}

/// The macros as plain values.
pub open spec fn macros_view(map: IndexMap<String, Macro>) -> Seq<(Seq<char>, MacroView)> {
    macro_entries(map).map_values(|entry: (String, Macro)| (entry.0@, entry.1.view_of()))
}

impl Program {
    /// The program as plain values.
    pub open spec fn view_of(self) -> ProgramView {
        (code_view(self.main.code), macros_view(self.macros))
    }
}

/// What the map of a body holds: its labels with their instructions, in the
/// order they were inserted.
pub uninterp spec fn code_entries(map: IndexMap<String, Instruction>) -> Seq<(String, Instruction)>;

/// What the map of macros holds: the macro names with their definitions, in
/// the order they were inserted.
pub uninterp spec fn macro_entries(map: IndexMap<String, Macro>) -> Seq<(String, Macro)>;

/// Whether some entry of a body has the label `label`.
pub open spec fn code_has(entries: Seq<(String, Instruction)>, label: Seq<char>) -> bool {
    exists|i: int| 0 <= i < entries.len() && (#[trigger] entries[i]).0@ == label
}

/// Whether some macro entry has the name `name`.
pub open spec fn macros_have(entries: Seq<(String, Macro)>, name: Seq<char>) -> bool {
    exists|i: int| 0 <= i < entries.len() && (#[trigger] entries[i]).0@ == name
}

/// `IndexMap::new`, for a body.
///
/// Trusted: a new map holds no entry.
#[verifier::external_body]
pub(crate) fn code_new() -> (result: IndexMap<String, Instruction>)
    ensures
        code_entries(result) == Seq::<(String, Instruction)>::empty(),
{
    IndexMap::new()
}

/// `IndexMap::insert` of a label that a body does not hold yet.
///
/// Trusted: as the documentation of `insert` says, a key that is not in the
/// map is inserted last in order.
#[verifier::external_body]
pub(crate) fn code_insert(map: &mut IndexMap<String, Instruction>, label: String, instruction: Instruction)
    requires
        !code_has(code_entries(*old(map)), label@),
    ensures
        code_entries(*final(map)) == code_entries(*old(map)).push((label, instruction)),
{
    map.insert(label, instruction);
}

/// `IndexMap::contains_key`, for a body.
///
/// Trusted: whether some key equals `label`.
#[verifier::external_body]
pub(crate) fn code_contains(map: &IndexMap<String, Instruction>, label: &str) -> (result: bool)
    ensures
        result == code_has(code_entries(*map), label@),
{
    map.contains_key(label)
}

/// `IndexMap::len`, for a body.
///
/// Trusted: the number of entries.
#[verifier::external_body]
pub(crate) fn code_len(map: &IndexMap<String, Instruction>) -> (result: usize)
    ensures
        result == code_entries(*map).len(),
{
    map.len()
}

/// `IndexMap::get_index`, for a body.
///
/// Trusted: the entry at position `index` in insertion order, if the map is
/// that long.
#[verifier::external_body]
pub(crate) fn code_get_index<'a>(map: &'a IndexMap<String, Instruction>, index: usize) -> (result:
    Option<(&'a String, &'a Instruction)>)
    ensures
        index < code_entries(*map).len() ==> result == Some(
            (&code_entries(*map)[index as int].0, &code_entries(*map)[index as int].1),
        ),
        index >= code_entries(*map).len() ==> result.is_none(),
{
    map.get_index(index)
}

/// `IndexMap::new`, for the macros.
///
/// Trusted: a new map holds no entry.
#[verifier::external_body]
pub(crate) fn macros_new() -> (result: IndexMap<String, Macro>)
    ensures
        macro_entries(result) == Seq::<(String, Macro)>::empty(),
{
    IndexMap::new()
}

/// `IndexMap::insert` of a macro name that the map does not hold yet.
///
/// Trusted: as the documentation of `insert` says, a key that is not in the
/// map is inserted last in order.
#[verifier::external_body]
pub(crate) fn macros_insert(map: &mut IndexMap<String, Macro>, name: String, definition: Macro)
    requires
        !macros_have(macro_entries(*old(map)), name@),
    ensures
        macro_entries(*final(map)) == macro_entries(*old(map)).push((name, definition)),
{
    map.insert(name, definition);
}

/// `IndexMap::contains_key`, for the macros.
///
/// Trusted: whether some key equals `name`.
#[verifier::external_body]
pub(crate) fn macros_contain(map: &IndexMap<String, Macro>, name: &str) -> (result: bool)
    ensures
        result == macros_have(macro_entries(*map), name@),
{
    map.contains_key(name)
}

/// `IndexMap::get`, for the macros.
///
/// Trusted: the definition stored under a key equal to `name`, and none
/// exactly when no key equals it.
#[verifier::external_body]
pub(crate) fn macros_get<'a>(map: &'a IndexMap<String, Macro>, name: &str) -> (result: Option<
    &'a Macro,
>)
    ensures
        match result {
            Some(definition) => exists|i: int|
                0 <= i < macro_entries(*map).len() && (#[trigger] macro_entries(*map)[i]).0@
                    == name@ && macro_entries(*map)[i].1 == *definition,
            None => !macros_have(macro_entries(*map), name@),
        },
{
    map.get(name)
}

/// `IndexMap::len`, for the macros.
///
/// Trusted: the number of entries.
#[verifier::external_body]
pub(crate) fn macros_len(map: &IndexMap<String, Macro>) -> (result: usize)
    ensures
        result == macro_entries(*map).len(),
{
    map.len()
}

/// `IndexMap::get_index`, for the macros.
///
/// Trusted: the entry at position `index` in insertion order, if the map is
/// that long.
#[verifier::external_body]
pub(crate) fn macros_get_index<'a>(map: &'a IndexMap<String, Macro>, index: usize) -> (result:
    Option<(&'a String, &'a Macro)>)
    ensures
        index < macro_entries(*map).len() ==> result == Some(
            (&macro_entries(*map)[index as int].0, &macro_entries(*map)[index as int].1),
        ),
        index >= macro_entries(*map).len() ==> result.is_none(),
{
    map.get_index(index)
}

impl Main {
    /// The body's labels with their instructions, in order.
    pub open spec fn entries(&self) -> Seq<(String, Instruction)> {
        code_entries(self.code)
    }
}

impl Macro {
    /// The body's labels with their instructions, in order.
    pub open spec fn entries(&self) -> Seq<(String, Instruction)> {
        code_entries(self.instr)
    }
}

impl Program {
    /// The macros' names with their definitions, in order.
    pub open spec fn macro_list(&self) -> Seq<(String, Macro)> {
        macro_entries(self.macros)
    }
}

} // verus!
