//! Compiled Norma programs: instructions that only use the built-in
//! operations and tests (and their shortcuts), keyed by label, in order.

use crate::natural::{decimal, Natural};
use indexmap::IndexMap;
use vstd::prelude::*;
use vstd::string::StringExecFns;

verus! {

/// What an operation does to the registers.
#[derive(Debug, Clone, PartialEq, Eq)]
pub enum OperationKind {
    /// Adds one to the register.
    Inc(String),
    /// Subtracts one from the register, stopping at zero.
    Dec(String),
    /// Sets the register to zero.
    Clear(String),
    /// Sets the register to the constant.
    Load(String, Natural),
    /// Adds the constant to the register.
    AddConst(String, Natural),
    /// Adds the second register to the first, with the third as scratch
    /// space (left at zero).
    Add(String, String, String),
    /// Subtracts the constant from the register, stopping at zero.
    SubConst(String, Natural),
    /// Subtracts the second register from the first, stopping at zero, with
    /// the third as scratch space (left at zero).
    Sub(String, String, String),
}

/// What a test checks of the registers.
#[derive(Debug, Clone, PartialEq, Eq)]
pub enum TestKind {
    /// Whether the register holds zero.
    Zero(String),
    /// Whether the register equals the constant.
    EqualsConst(String, Natural),
    /// Whether the first two registers are equal, with the third as scratch
    /// space (left at zero).
    Equals(String, String, String),
    /// Whether the register is less than the constant.
    LessThanConst(String, Natural),
    /// Whether the first register is less than the second, with the third as
    /// scratch space (left at zero).
    LessThan(String, String, String),
}

/// An operation and the label of the instruction that follows it.
#[derive(Debug, Clone, PartialEq, Eq)]
pub struct Operation {
    pub kind: OperationKind,
    pub next: String,
}

/// A test and the labels of the instructions that follow it when it holds
/// and when it does not.
#[derive(Debug, Clone, PartialEq, Eq)]
pub struct Test {
    pub kind: TestKind,
    pub next_then: String,
    pub next_else: String,
}

/// An operation or a test.
#[derive(Debug, Clone, PartialEq, Eq)]
pub enum InstructionKind {
    Operation(Operation),
    Test(Test),
}

/// A labelled instruction.
#[derive(Debug, Clone, PartialEq, Eq)]
pub struct Instruction {
    pub label: String,
    pub kind: InstructionKind,
}

/// `(a, b, c)` with the three names.
pub open spec fn triple_text(a: Seq<char>, b: Seq<char>, c: Seq<char>) -> Seq<char> {
    "("@ + a + ", "@ + b + ", "@ + c + ")"@
}

/// `(r, n)` with a name and a number.
pub open spec fn pair_text(r: Seq<char>, n: nat) -> Seq<char> {
    "("@ + r + ", "@ + decimal(n) + ")"@
}

/// How an operation reads: `inc A`, `dec A`, `clear (A)`, `load (A, n)`,
/// `add (A, n)`, `add (A, B, C)`, `sub (A, n)` or `sub (A, B, C)`.
pub open spec fn operation_kind_text(kind: OperationKind) -> Seq<char> {
    match kind {
        OperationKind::Inc(r) => "inc "@ + r@,
        OperationKind::Dec(r) => "dec "@ + r@,
        OperationKind::Clear(r) => "clear ("@ + r@ + ")"@,
        OperationKind::Load(r, n) => "load "@ + pair_text(r@, n@),
        OperationKind::AddConst(r, n) => "add "@ + pair_text(r@, n@),
        OperationKind::Add(a, b, c) => "add "@ + triple_text(a@, b@, c@),
        OperationKind::SubConst(r, n) => "sub "@ + pair_text(r@, n@),
        OperationKind::Sub(a, b, c) => "sub "@ + triple_text(a@, b@, c@),
    }
}

/// How a test reads: `zero A`, `equals (A, n)`, `equals (A, B, C)`,
/// `lessThan (A, n)` or `lessThan (A, B, C)`.
pub open spec fn test_kind_text(kind: TestKind) -> Seq<char> {
    match kind {
        TestKind::Zero(r) => "zero "@ + r@,
        TestKind::EqualsConst(r, n) => "equals "@ + pair_text(r@, n@),
        TestKind::Equals(a, b, c) => "equals "@ + triple_text(a@, b@, c@),
        TestKind::LessThanConst(r, n) => "lessThan "@ + pair_text(r@, n@),
        TestKind::LessThan(a, b, c) => "lessThan "@ + triple_text(a@, b@, c@),
    }
}

/// How an instruction (without its label) reads:
/// `do OPERATION goto L` or `if TEST then goto L1 else goto L2`.
pub open spec fn kind_text(kind: InstructionKind) -> Seq<char> {
    match kind {
        InstructionKind::Operation(operation) => "do "@ + operation_kind_text(operation.kind)
            + " goto "@ + operation.next@,
        InstructionKind::Test(test) => "if "@ + test_kind_text(test.kind) + " then goto "@
            + test.next_then@ + " else goto "@ + test.next_else@,
    }
}

/// How the instructions of `entries` read, each followed by a line feed.
pub open spec fn program_text(entries: Seq<(String, Instruction)>) -> Seq<char>
    decreases entries.len(),
{
    if entries.len() == 0 {
        Seq::empty()
    } else {
        program_text(entries.drop_last()) + entries.last().1.label@ + ": "@ + kind_text(
            entries.last().1.kind,
        ) + "\n"@
    }
}

/// Each operation reads as its name and then its registers, and its
/// constant in decimal, in the order of its fields, between round brackets
/// and separated by `, ` (`inc A` and `dec A` without brackets): the first
/// register named is the one that the operation changes.
pub proof fn lemma_operation_text_order(kind: OperationKind)
    ensures
        match kind {
            OperationKind::Inc(r) => operation_kind_text(kind) == "inc "@ + r@,
            OperationKind::Dec(r) => operation_kind_text(kind) == "dec "@ + r@,
            OperationKind::Clear(r) => operation_kind_text(kind) == "clear ("@ + r@ + ")"@,
            OperationKind::Load(r, n) => operation_kind_text(kind) == "load ("@ + r@ + ", "@
                + decimal(n@) + ")"@,
            OperationKind::AddConst(r, n) => operation_kind_text(kind) == "add ("@ + r@ + ", "@
                + decimal(n@) + ")"@,
            OperationKind::Add(a, b, c) => operation_kind_text(kind) == "add ("@ + a@ + ", "@
                + b@ + ", "@ + c@ + ")"@,
            OperationKind::SubConst(r, n) => operation_kind_text(kind) == "sub ("@ + r@ + ", "@
                + decimal(n@) + ")"@,
            OperationKind::Sub(a, b, c) => operation_kind_text(kind) == "sub ("@ + a@ + ", "@
                + b@ + ", "@ + c@ + ")"@,
        },
{
    match kind {
        OperationKind::Inc(r) => {},
        OperationKind::Dec(r) => {},
        OperationKind::Clear(r) => {},
        OperationKind::Load(r, n) => {
            reveal_strlit("load ");
            reveal_strlit("(");
            reveal_strlit("load (");
            assert("load "@ + "("@ =~= "load ("@);
            assert(("load "@ + "("@) + r@ + ", "@ + decimal(n@) + ")"@ =~= "load "@ + pair_text(r@, n@));
        },
        OperationKind::AddConst(r, n) => {
            reveal_strlit("add ");
            reveal_strlit("(");
            reveal_strlit("add (");
            assert("add "@ + "("@ =~= "add ("@);
            assert(("add "@ + "("@) + r@ + ", "@ + decimal(n@) + ")"@ =~= "add "@ + pair_text(r@, n@));
        },
        OperationKind::Add(a, b, c) => {
            reveal_strlit("add ");
            reveal_strlit("(");
            reveal_strlit("add (");
            assert("add "@ + "("@ =~= "add ("@);
            assert(("add "@ + "("@) + a@ + ", "@ + b@ + ", "@ + c@ + ")"@ =~= "add "@ + triple_text(a@, b@, c@));
        },
        OperationKind::SubConst(r, n) => {
            reveal_strlit("sub ");
            reveal_strlit("(");
            reveal_strlit("sub (");
            assert("sub "@ + "("@ =~= "sub ("@);
            assert(("sub "@ + "("@) + r@ + ", "@ + decimal(n@) + ")"@ =~= "sub "@ + pair_text(r@, n@));
        },
        OperationKind::Sub(a, b, c) => {
            reveal_strlit("sub ");
            reveal_strlit("(");
            reveal_strlit("sub (");
            assert("sub "@ + "("@ =~= "sub ("@);
            assert(("sub "@ + "("@) + a@ + ", "@ + b@ + ", "@ + c@ + ")"@ =~= "sub "@ + triple_text(a@, b@, c@));
        },
    }
}

/// Each test reads as its name and then its registers, and its constant in
/// decimal, in the order of its fields, between round brackets and
/// separated by `, ` (`zero A` without brackets): the register compared
/// first is named first.
pub proof fn lemma_test_text_order(kind: TestKind)
    ensures
        match kind {
            TestKind::Zero(r) => test_kind_text(kind) == "zero "@ + r@,
            TestKind::EqualsConst(r, n) => test_kind_text(kind) == "equals ("@ + r@ + ", "@
                + decimal(n@) + ")"@,
            TestKind::Equals(a, b, c) => test_kind_text(kind) == "equals ("@ + a@ + ", "@ + b@
                + ", "@ + c@ + ")"@,
            TestKind::LessThanConst(r, n) => test_kind_text(kind) == "lessThan ("@ + r@ + ", "@
                + decimal(n@) + ")"@,
            TestKind::LessThan(a, b, c) => test_kind_text(kind) == "lessThan ("@ + a@ + ", "@
                + b@ + ", "@ + c@ + ")"@,
        },
{
    match kind {
        TestKind::Zero(r) => {},
        TestKind::EqualsConst(r, n) => {
            reveal_strlit("equals ");
            reveal_strlit("(");
            reveal_strlit("equals (");
            assert("equals "@ + "("@ =~= "equals ("@);
            assert(("equals "@ + "("@) + r@ + ", "@ + decimal(n@) + ")"@ =~= "equals "@ + pair_text(r@, n@));
        },
        TestKind::Equals(a, b, c) => {
            reveal_strlit("equals ");
            reveal_strlit("(");
            reveal_strlit("equals (");
            assert("equals "@ + "("@ =~= "equals ("@);
            assert(("equals "@ + "("@) + a@ + ", "@ + b@ + ", "@ + c@ + ")"@ =~= "equals "@ + triple_text(a@, b@, c@));
        },
        TestKind::LessThanConst(r, n) => {
            reveal_strlit("lessThan ");
            reveal_strlit("(");
            reveal_strlit("lessThan (");
            assert("lessThan "@ + "("@ =~= "lessThan ("@);
            assert(("lessThan "@ + "("@) + r@ + ", "@ + decimal(n@) + ")"@ =~= "lessThan "@ + pair_text(r@, n@));
        },
        TestKind::LessThan(a, b, c) => {
            reveal_strlit("lessThan ");
            reveal_strlit("(");
            reveal_strlit("lessThan (");
            assert("lessThan "@ + "("@ =~= "lessThan ("@);
            assert(("lessThan "@ + "("@) + a@ + ", "@ + b@ + ", "@ + c@ + ")"@ =~= "lessThan "@ + triple_text(a@, b@, c@));
        },
    }
}

/// The text of a triple of names.
fn triple_string(a: &String, b: &String, c: &String) -> (result: String)
    ensures
        result@ == triple_text(a@, b@, c@),
{
    let mut result = String::from_str("(");
    result.append(a.as_str());
    result.append(", ");
    result.append(b.as_str());
    result.append(", ");
    result.append(c.as_str());
    result.append(")");
    result
}

/// The text of a name and a number.
fn pair_string(r: &String, n: &Natural) -> (result: String)
    ensures
        result@ == pair_text(r@, n@),
{
    let mut result = String::from_str("(");
    result.append(r.as_str());
    result.append(", ");
    result.append(n.to_decimal().as_str());
    result.append(")");
    result
}

/// `prefix` followed by `rest`.
fn prefixed(prefix: &str, rest: &String) -> (result: String)
    ensures
        result@ == prefix@ + rest@,
{
    let mut result = String::from_str(prefix);
    result.append(rest.as_str());
    result
}

impl OperationKind {
    /// How the operation reads.
    pub fn to_text(&self) -> (result: String)
        ensures
            result@ == operation_kind_text(*self),
    {
        match self {
            OperationKind::Inc(r) => prefixed("inc ", r),
            OperationKind::Dec(r) => prefixed("dec ", r),
            OperationKind::Clear(r) => {
                let mut result = prefixed("clear (", r);
                result.append(")");
                result
            },
            OperationKind::Load(r, n) => prefixed("load ", &pair_string(r, n)),
            OperationKind::AddConst(r, n) => prefixed("add ", &pair_string(r, n)),
            OperationKind::Add(a, b, c) => prefixed("add ", &triple_string(a, b, c)),
            OperationKind::SubConst(r, n) => prefixed("sub ", &pair_string(r, n)),
            OperationKind::Sub(a, b, c) => prefixed("sub ", &triple_string(a, b, c)),
        }
    }
}

impl TestKind {
    /// How the test reads.
    pub fn to_text(&self) -> (result: String)
        ensures
            result@ == test_kind_text(*self),
    {
        match self {
            TestKind::Zero(r) => prefixed("zero ", r),
            TestKind::EqualsConst(r, n) => prefixed("equals ", &pair_string(r, n)),
            TestKind::Equals(a, b, c) => prefixed("equals ", &triple_string(a, b, c)),
            TestKind::LessThanConst(r, n) => prefixed("lessThan ", &pair_string(r, n)),
            TestKind::LessThan(a, b, c) => prefixed("lessThan ", &triple_string(a, b, c)),
        }
    }
}

/// The registers that an operation names, in order.
pub open spec fn operation_registers(kind: OperationKind) -> Seq<Seq<char>> {
    match kind {
        OperationKind::Inc(r) => seq![r@],
        OperationKind::Dec(r) => seq![r@],
        OperationKind::Clear(r) => seq![r@],
        OperationKind::Load(r, _) => seq![r@],
        OperationKind::AddConst(r, _) => seq![r@],
        OperationKind::Add(a, b, c) => seq![a@, b@, c@],
        OperationKind::SubConst(r, _) => seq![r@],
        OperationKind::Sub(a, b, c) => seq![a@, b@, c@],
    }
}

/// The registers that a test names, in order.
pub open spec fn test_registers(kind: TestKind) -> Seq<Seq<char>> {
    match kind {
        TestKind::Zero(r) => seq![r@],
        TestKind::EqualsConst(r, _) => seq![r@],
        TestKind::Equals(a, b, c) => seq![a@, b@, c@],
        TestKind::LessThanConst(r, _) => seq![r@],
        TestKind::LessThan(a, b, c) => seq![a@, b@, c@],
    }
}

/// The registers that an instruction names, in order.
pub open spec fn kind_registers(kind: InstructionKind) -> Seq<Seq<char>> {
    match kind {
        InstructionKind::Operation(operation) => operation_registers(operation.kind),
        InstructionKind::Test(test) => test_registers(test.kind),
    }
}

/// The labels that an instruction jumps to, in order.
pub open spec fn kind_labels(kind: InstructionKind) -> Seq<Seq<char>> {
    match kind {
        InstructionKind::Operation(operation) => seq![operation.next@],
        InstructionKind::Test(test) => seq![test.next_then@, test.next_else@],
    }
}

/// Whether an instruction is one of the built-ins: `inc`, `dec` or `zero`.
pub open spec fn is_builtin(kind: InstructionKind) -> bool {
    match kind {
        InstructionKind::Operation(operation) => operation.kind is Inc || operation.kind is Dec,
        InstructionKind::Test(test) => test.kind is Zero,
    }
}

/// A built-in instruction as plain values: the register and the labels it
/// goes on to.
pub enum BuiltinView {
    /// `do inc R goto L`.
    Inc(Seq<char>, Seq<char>),
    /// `do dec R goto L`.
    Dec(Seq<char>, Seq<char>),
    /// `if zero R then goto L1 else goto L2`.
    Zero(Seq<char>, Seq<char>, Seq<char>),
}

/// A built-in instruction as plain values (meaningful for built-ins only).
pub open spec fn builtin_view(kind: InstructionKind) -> BuiltinView {
    match kind {
        InstructionKind::Operation(operation) => match operation.kind {
            OperationKind::Dec(r) => BuiltinView::Dec(r@, operation.next@),
            OperationKind::Inc(r) => BuiltinView::Inc(r@, operation.next@),
            _ => BuiltinView::Inc(Seq::empty(), operation.next@),
        },
        InstructionKind::Test(test) => match test.kind {
            TestKind::Zero(r) => BuiltinView::Zero(r@, test.next_then@, test.next_else@),
            _ => BuiltinView::Zero(Seq::empty(), test.next_then@, test.next_else@),
        },
    }
}

/// The labels and built-in instructions of `entries`, as plain values.
pub open spec fn builtins_view(entries: Seq<(String, Instruction)>) -> Seq<(Seq<char>, BuiltinView)> {
    entries.map_values(|entry: (String, Instruction)| (entry.0@, builtin_view(entry.1.kind)))
}

/// The built-in `kind` with each register `r` renamed to `registers(r)` and
/// each label `l` to `labels(l)`.
pub open spec fn builtin_renamed(
    kind: BuiltinView,
    registers: spec_fn(Seq<char>) -> Seq<char>,
    labels: spec_fn(Seq<char>) -> Seq<char>,
) -> BuiltinView {
    match kind {
        BuiltinView::Inc(r, next) => BuiltinView::Inc(registers(r), labels(next)),
        BuiltinView::Dec(r, next) => BuiltinView::Dec(registers(r), labels(next)),
        BuiltinView::Zero(r, then, other) => BuiltinView::Zero(
            registers(r),
            labels(then),
            labels(other),
        ),
    }
}

/// Whether every instruction of `entries` is a built-in.
pub open spec fn only_builtins(entries: Seq<(String, Instruction)>) -> bool {
    forall|i: int| 0 <= i < entries.len() ==> is_builtin((#[trigger] entries[i]).1.kind)
}

/// Whether no two entries have the same label.
pub open spec fn labels_distinct(entries: Seq<(String, Instruction)>) -> bool {
    forall|i: int, j: int|
        0 <= i < j < entries.len() ==> (#[trigger] entries[i]).0@ != (#[trigger] entries[j]).0@
}

/// Whether some entry has the label `label`.
pub open spec fn has_label(entries: Seq<(String, Instruction)>, label: Seq<char>) -> bool {
    exists|i: int| 0 <= i < entries.len() && (#[trigger] entries[i]).0@ == label
}

/// The instruction of the entry labelled `label`, if there is one.
pub open spec fn lookup(entries: Seq<(String, Instruction)>, label: Seq<char>) -> Option<
    Instruction,
> {
    if has_label(entries, label) {
        Some(
            entries[choose|i: int|
                0 <= i < entries.len() && (#[trigger] entries[i]).0@ == label].1,
        )
    } else {
        None
    }
}

/// What the map of a program holds: its labels with their instructions, in
/// the order they were inserted.
pub uninterp spec fn program_entries(map: IndexMap<String, Instruction>) -> Seq<(String, Instruction)>;

/// `IndexMap::new`.
///
/// Trusted: a new map holds no entry.
#[verifier::external_body]
fn entries_new() -> (result: IndexMap<String, Instruction>)
    ensures
        program_entries(result) == Seq::<(String, Instruction)>::empty(),
{
    IndexMap::new()
}

/// `IndexMap::insert`.
///
/// Trusted: as the documentation of `insert` says, a key that is not in the
/// map is inserted last in order and `None` is returned; where an equal key
/// is in the map, its value is replaced, the key and its place are kept,
/// and the old value is returned.
#[verifier::external_body]
fn entries_insert(map: &mut IndexMap<String, Instruction>, label: String, instruction: Instruction) -> (result: Option<Instruction>)
    ensures
        !has_label(program_entries(*old(map)), label@) ==> result.is_none() && program_entries(
            *final(map),
        ) == program_entries(*old(map)).push((label, instruction)),
        has_label(program_entries(*old(map)), label@) ==> exists|i: int|
            0 <= i < program_entries(*old(map)).len() && (#[trigger] program_entries(
                *old(map),
            )[i]).0@ == label@ && program_entries(*final(map)) == program_entries(
                *old(map),
            ).update(i, (program_entries(*old(map))[i].0, instruction)) && result == Some(
                program_entries(*old(map))[i].1,
            ),
{
    map.insert(label, instruction)
}

/// `IndexMap::get`.
///
/// Trusted: the value returned is the one stored under a key equal to
/// `label`, and there is none exactly when no key equals it.
#[verifier::external_body]
fn entries_get<'a>(map: &'a IndexMap<String, Instruction>, label: &str) -> (result: Option<
    &'a Instruction,
>)
    ensures
        match result {
            Some(instruction) => exists|i: int|
                0 <= i < program_entries(*map).len() && (#[trigger] program_entries(*map)[i]).0@
                    == label@ && program_entries(*map)[i].1 == *instruction,
            None => !has_label(program_entries(*map), label@),
        },
{
    map.get(label)
}

/// `IndexMap::len`.
///
/// Trusted: the number of entries.
#[verifier::external_body]
fn entries_len(map: &IndexMap<String, Instruction>) -> (result: usize)
    ensures
        result == program_entries(*map).len(),
{
    map.len()
}

/// `IndexMap::get_index`.
///
/// Trusted: the entry at position `index` in insertion order, if the map is
/// that long.
#[verifier::external_body]
fn entries_get_index<'a>(map: &'a IndexMap<String, Instruction>, index: usize) -> (result: Option<
    (&'a String, &'a Instruction),
>)
    ensures
        index < program_entries(*map).len() ==> result == Some(
            (&program_entries(*map)[index as int].0, &program_entries(*map)[index as int].1),
        ),
        index >= program_entries(*map).len() ==> result.is_none(),
{
    map.get_index(index)
}

impl Instruction {
    /// The instruction `kind` under the label `label`.
    pub fn new(label: String, kind: InstructionKind) -> (result: Instruction)
        ensures
            result.label_view() == label@,
            result.kind == kind,
    {
        Instruction { label, kind }
    }

    /// The instruction's label.
    pub open spec fn label_view(&self) -> Seq<char> {
        self.label@
    }

    /// The instruction's label.
    pub fn label(&self) -> (result: &str)
        ensures
            result@ == self.label_view(),
    {
        self.label.as_str()
    }

    /// How the instruction reads: `LABEL: ` and the instruction.
    pub fn to_text(&self) -> (result: String)
        ensures
            result@ == self.label@ + ": "@ + kind_text(self.kind),
    {
        let mut result = self.label.clone();
        result.append(": ");
        result.append(self.kind.to_text().as_str());
        result
    }

    /// The label and how the instruction reads without it.
    pub fn export(&self) -> (result: (String, String))
        ensures
            result.0@ == self.label@,
            result.1@ == kind_text(self.kind),
    {
        (self.label.clone(), self.kind.to_text())
    }

    /// The names of the registers that the instruction uses, in order, each
    /// as often as it occurs.
    pub fn collect_registers(&self) -> (result: Vec<String>)
        ensures
            result@.map_values(|name: String| name@) == kind_registers(self.kind),
    {
        self.kind.collect_registers()
    }

    /// The labels that the instruction jumps to, in order.
    pub fn collect_labels(&self) -> (result: Vec<String>)
        ensures
            result@.map_values(|name: String| name@) == kind_labels(self.kind),
    {
        self.kind.collect_labels()
    }
}

impl Operation {
    /// Replaces the label that the operation goes to next by what `renamer`
    /// gives for it.
    pub fn rename_labels<F: Fn(&str) -> String>(&mut self, renamer: F)
        requires
            forall|name: &str| #[trigger] renamer.requires((name,)),
        ensures
            final(self).kind == old(self).kind,
            maps_name(renamer, old(self).next, final(self).next),
    {
        let next = renamer(self.next.as_str());
        self.next = next;
    }
}

impl Test {
    /// Replaces the labels that the test goes to by what `renamer` gives for
    /// each.
    pub fn rename_labels<F: Fn(&str) -> String>(&mut self, renamer: F)
        requires
            forall|name: &str| #[trigger] renamer.requires((name,)),
        ensures
            final(self).kind == old(self).kind,
            maps_name(renamer, old(self).next_then, final(self).next_then),
            maps_name(renamer, old(self).next_else, final(self).next_else),
    {
        let next_then = renamer(self.next_then.as_str());
        let next_else = renamer(self.next_else.as_str());
        self.next_then = next_then;
        self.next_else = next_else;
    }
}

impl InstructionKind {
    /// Replaces the labels that the instruction goes to by what `renamer`
    /// gives for each.
    pub fn rename_labels<F: Fn(&str) -> String>(&mut self, renamer: F)
        requires
            forall|name: &str| #[trigger] renamer.requires((name,)),
        ensures
            match (*old(self), *final(self)) {
                (InstructionKind::Operation(a), InstructionKind::Operation(b)) => b.kind == a.kind
                    && maps_name(renamer, a.next, b.next),
                (InstructionKind::Test(a), InstructionKind::Test(b)) => b.kind == a.kind
                    && maps_name(renamer, a.next_then, b.next_then) && maps_name(
                    renamer,
                    a.next_else,
                    b.next_else,
                ),
                _ => false,
            },
    {
        match self {
            InstructionKind::Operation(operation) => operation.rename_labels(renamer),
            InstructionKind::Test(test) => test.rename_labels(renamer),
        }
    }

    /// How the instruction reads, without its label.
    pub fn to_text(&self) -> (result: String)
        ensures
            result@ == kind_text(*self),
    {
        match self {
            InstructionKind::Operation(operation) => {
                let mut result = prefixed("do ", &operation.kind.to_text());
                result.append(" goto ");
                result.append(operation.next.as_str());
                result
            },
            InstructionKind::Test(test) => {
                let mut result = prefixed("if ", &test.kind.to_text());
                result.append(" then goto ");
                result.append(test.next_then.as_str());
                result.append(" else goto ");
                result.append(test.next_else.as_str());
                result
            },
        }
    }

    /// The names of the registers that the instruction uses, in order.
    pub fn collect_registers(&self) -> (result: Vec<String>)
        ensures
            result@.map_values(|name: String| name@) == kind_registers(*self),
    {
        match self {
            InstructionKind::Operation(operation) => operation.kind.collect_registers(),
            InstructionKind::Test(test) => test.kind.collect_registers(),
        }
    }

    /// The labels that the instruction jumps to, in order.
    pub fn collect_labels(&self) -> (result: Vec<String>)
        ensures
            result@.map_values(|name: String| name@) == kind_labels(*self),
    {
        let mut result: Vec<String> = Vec::new();
        match self {
            InstructionKind::Operation(operation) => {
                result.push(operation.next.clone());
            },
            InstructionKind::Test(test) => {
                result.push(test.next_then.clone());
                result.push(test.next_else.clone());
            },
        }
        proof {
            assert(result@.map_values(|name: String| name@) =~= kind_labels(*self));
        }
        result
    }
}

/// A vector of clones of the given names.
fn names_vec(a: &String, b: Option<(&String, &String)>) -> (result: Vec<String>)
    ensures
        result@.map_values(|name: String| name@) == (match b {
            Some((b, c)) => seq![a@, b@, c@],
            None => seq![a@],
        }),
{
    let mut result: Vec<String> = Vec::new();
    result.push(a.clone());
    match b {
        Some((b, c)) => {
            result.push(b.clone());
            result.push(c.clone());
        },
        None => {},
    }
    proof {
        assert(result@.map_values(|name: String| name@) =~= (match b {
            Some((b, c)) => seq![a@, b@, c@],
            None => seq![a@],
        }));
    }
    result
}

/// Whether `mapper`, given a name that reads as `from`, may give `to`.
pub open spec fn maps_name<F: Fn(&str) -> String>(mapper: F, from: String, to: String) -> bool {
    exists|name: &str| name@ == from@ && #[trigger] mapper.ensures((name,), to)
}

impl OperationKind {
    /// The same operation with each of its registers replaced by what
    /// `mapper` gives for the register's name.
    pub fn map_registers<F: Fn(&str) -> String>(&self, mapper: F) -> (result: OperationKind)
        requires
            forall|name: &str| #[trigger] mapper.requires((name,)),
        ensures
            match (*self, result) {
                (OperationKind::Inc(a), OperationKind::Inc(b)) => maps_name(mapper, a, b),
                (OperationKind::Dec(a), OperationKind::Dec(b)) => maps_name(mapper, a, b),
                (OperationKind::Clear(a), OperationKind::Clear(b)) => maps_name(mapper, a, b),
                (OperationKind::Load(a, n), OperationKind::Load(b, m)) => maps_name(
                    mapper,
                    a,
                    b,
                ) && m@ == n@,
                (OperationKind::AddConst(a, n), OperationKind::AddConst(b, m)) => maps_name(
                    mapper,
                    a,
                    b,
                ) && m@ == n@,
                (OperationKind::Add(a1, a2, a3), OperationKind::Add(b1, b2, b3)) => maps_name(
                    mapper,
                    a1,
                    b1,
                ) && maps_name(mapper, a2, b2) && maps_name(mapper, a3, b3),
                (OperationKind::SubConst(a, n), OperationKind::SubConst(b, m)) => maps_name(
                    mapper,
                    a,
                    b,
                ) && m@ == n@,
                (OperationKind::Sub(a1, a2, a3), OperationKind::Sub(b1, b2, b3)) => maps_name(
                    mapper,
                    a1,
                    b1,
                ) && maps_name(mapper, a2, b2) && maps_name(mapper, a3, b3),
                _ => false,
            },
    {
        match self {
            OperationKind::Inc(r) => OperationKind::Inc(mapper(r.as_str())),
            OperationKind::Dec(r) => OperationKind::Dec(mapper(r.as_str())),
            OperationKind::Clear(r) => OperationKind::Clear(mapper(r.as_str())),
            OperationKind::Load(r, n) => OperationKind::Load(mapper(r.as_str()), n.clone()),
            OperationKind::AddConst(r, n) => OperationKind::AddConst(mapper(r.as_str()), n.clone()),
            OperationKind::Add(a, b, c) => OperationKind::Add(
                mapper(a.as_str()),
                mapper(b.as_str()),
                mapper(c.as_str()),
            ),
            OperationKind::SubConst(r, n) => OperationKind::SubConst(mapper(r.as_str()), n.clone()),
            OperationKind::Sub(a, b, c) => OperationKind::Sub(
                mapper(a.as_str()),
                mapper(b.as_str()),
                mapper(c.as_str()),
            ),
        }
    }

    /// The names of the registers that the operation uses, in order.
    pub fn collect_registers(&self) -> (result: Vec<String>)
        ensures
            result@.map_values(|name: String| name@) == operation_registers(*self),
    {
        match self {
            OperationKind::Inc(r) => names_vec(r, None),
            OperationKind::Dec(r) => names_vec(r, None),
            OperationKind::Clear(r) => names_vec(r, None),
            OperationKind::Load(r, _) => names_vec(r, None),
            OperationKind::AddConst(r, _) => names_vec(r, None),
            OperationKind::Add(a, b, c) => names_vec(a, Some((b, c))),
            OperationKind::SubConst(r, _) => names_vec(r, None),
            OperationKind::Sub(a, b, c) => names_vec(a, Some((b, c))),
        }
    }
}

impl TestKind {
    /// The same test with each of its registers replaced by what `mapper`
    /// gives for the register's name.
    pub fn map_registers<F: Fn(&str) -> String>(&self, mapper: F) -> (result: TestKind)
        requires
            forall|name: &str| #[trigger] mapper.requires((name,)),
        ensures
            match (*self, result) {
                (TestKind::Zero(a), TestKind::Zero(b)) => maps_name(mapper, a, b),
                (TestKind::EqualsConst(a, n), TestKind::EqualsConst(b, m)) => maps_name(
                    mapper,
                    a,
                    b,
                ) && m@ == n@,
                (TestKind::Equals(a1, a2, a3), TestKind::Equals(b1, b2, b3)) => maps_name(
                    mapper,
                    a1,
                    b1,
                ) && maps_name(mapper, a2, b2) && maps_name(mapper, a3, b3),
                (TestKind::LessThanConst(a, n), TestKind::LessThanConst(b, m)) => maps_name(
                    mapper,
                    a,
                    b,
                ) && m@ == n@,
                (TestKind::LessThan(a1, a2, a3), TestKind::LessThan(b1, b2, b3)) => maps_name(
                    mapper,
                    a1,
                    b1,
                ) && maps_name(mapper, a2, b2) && maps_name(mapper, a3, b3),
                _ => false,
            },
    {
        match self {
            TestKind::Zero(r) => TestKind::Zero(mapper(r.as_str())),
            TestKind::EqualsConst(r, n) => TestKind::EqualsConst(mapper(r.as_str()), n.clone()),
            TestKind::Equals(a, b, c) => TestKind::Equals(
                mapper(a.as_str()),
                mapper(b.as_str()),
                mapper(c.as_str()),
            ),
            TestKind::LessThanConst(r, n) => TestKind::LessThanConst(mapper(r.as_str()), n.clone()),
            TestKind::LessThan(a, b, c) => TestKind::LessThan(
                mapper(a.as_str()),
                mapper(b.as_str()),
                mapper(c.as_str()),
            ),
        }
    }

    /// The names of the registers that the test uses, in order.
    pub fn collect_registers(&self) -> (result: Vec<String>)
        ensures
            result@.map_values(|name: String| name@) == test_registers(*self),
    {
        match self {
            TestKind::Zero(r) => names_vec(r, None),
            TestKind::EqualsConst(r, _) => names_vec(r, None),
            TestKind::Equals(a, b, c) => names_vec(a, Some((b, c))),
            TestKind::LessThanConst(r, _) => names_vec(r, None),
            TestKind::LessThan(a, b, c) => names_vec(a, Some((b, c))),
        }
    }
}

/// A Norma program: labelled instructions, in order, no label twice. The
/// first instruction is where execution starts.
#[derive(Debug, PartialEq, Eq)]
pub struct Program {
    instructions: IndexMap<String, Instruction>,
}

impl View for Program {
    type V = Seq<(String, Instruction)>;

    /// The program's labels with their instructions, in order.
    closed spec fn view(&self) -> Seq<(String, Instruction)> {
        program_entries(self.instructions)
    }
}

impl Program {
    /// A program has no label twice, and keeps each instruction under its
    /// own label.
    pub open spec fn wf(&self) -> bool {
        &&& labels_distinct(self@)
        &&& forall|i: int| 0 <= i < self@.len() ==> (#[trigger] self@[i]).0@ == self@[i].1.label@
    }

    /// The label where execution starts: that of the first instruction, or
    /// `"0"` for the empty program.
    pub open spec fn spec_first_label(&self) -> Seq<char> {
        crate::interpreter::first_label_of(self@)
    }

    /// The program with no instruction.
    pub fn empty() -> (program: Program)
        ensures
            program.wf(),
            program@ == Seq::<(String, Instruction)>::empty(),
    {
        Program { instructions: entries_new() }
    }

    /// Whether the program has no instruction.
    pub fn is_empty(&self) -> (result: bool)
        ensures
            result == (self@.len() == 0),
    {
        entries_len(&self.instructions) == 0
    }

    /// The number of instructions.
    pub fn len(&self) -> (result: usize)
        ensures
            result == self@.len(),
    {
        entries_len(&self.instructions)
    }

    /// The label where execution starts.
    pub fn first_label(&self) -> (result: &str)
        ensures
            result@ == self.spec_first_label(),
    {
        match entries_get_index(&self.instructions, 0) {
            Some((label, _)) => label.as_str(),
            None => {
                proof {
                    reveal_strlit("0");
                }
                "0"
            },
        }
    }

    /// Adds `instruction` at the end of the program. Its label must not be
    /// in the program already.
    pub fn insert(&mut self, instruction: Instruction)
        requires
            old(self).wf(),
            !has_label(old(self)@, instruction.label_view()),
        ensures
            final(self).wf(),
            final(self)@.len() == old(self)@.len() + 1,
            forall|i: int| 0 <= i < old(self)@.len() ==> final(self)@[i] == old(self)@[i],
            final(self)@.last().0@ == instruction.label_view(),
            final(self)@.last().1 == instruction,
    {
        let label = instruction.label.clone();
        let _ = entries_insert(&mut self.instructions, label, instruction);
        proof {
            let e = self@;
            assert forall|i: int, j: int|
                0 <= i < j < e.len() implies (#[trigger] e[i]).0@ != (#[trigger] e[j]).0@ by {
                if j == e.len() - 1 {
                    assert(old(self)@[i] == e[i]);
                }
            }
            assert forall|i: int| 0 <= i < e.len() implies (#[trigger] e[i]).0@ == e[i].1.label@ by {
                if i < e.len() - 1 {
                    assert(old(self)@[i] == e[i]);
                }
            }
        }
    }

    /// Puts `instruction` in place of the instruction with the same label,
    /// and returns the one replaced; where no instruction has that label,
    /// nothing changes and `None` is returned.
    pub fn replace(&mut self, instruction: Instruction) -> (replaced: Option<Instruction>)
        requires
            old(self).wf(),
        ensures
            final(self).wf(),
            !has_label(old(self)@, instruction.label_view()) ==> replaced.is_none()
                && final(self)@ == old(self)@,
            has_label(old(self)@, instruction.label_view()) ==> exists|i: int|
                0 <= i < old(self)@.len() && (#[trigger] old(self)@[i]).0@ == instruction.label_view()
                    && final(self)@ == old(self)@.update(i, (old(self)@[i].0, instruction))
                    && replaced == Some(old(self)@[i].1),
    {
        if !self.is_label_valid(instruction.label()) {
            return None;
        }
        let label = instruction.label.clone();
        let replaced = entries_insert(&mut self.instructions, label, instruction);
        proof {
            let e = self@;
            let o = old(self)@;
            let i = choose|i: int|
                0 <= i < o.len() && (#[trigger] o[i]).0@ == instruction.label_view() && e == o.update(
                    i,
                    (o[i].0, instruction),
                ) && replaced == Some(o[i].1);
            assert forall|a: int, b: int|
                0 <= a < b < e.len() implies (#[trigger] e[a]).0@ != (#[trigger] e[b]).0@ by {
                assert(e[a].0 == o[a].0 && e[b].0 == o[b].0);
            }
            assert forall|k: int| 0 <= k < e.len() implies (#[trigger] e[k]).0@ == e[k].1.label@ by {
                if k != i {
                    assert(e[k] == o[k]);
                }
            }
        }
        replaced
    }

    /// Whether some instruction has the label `label`.
    pub fn is_label_valid(&self, label: &str) -> (result: bool)
        ensures
            result == has_label(self@, label@),
    {
        entries_get(&self.instructions, label).is_some()
    }

    /// The instruction labelled `label`, if there is one.
    pub fn instruction(&self, label: &str) -> (result: Option<&Instruction>)
        requires
            self.wf(),
        ensures
            match result {
                Some(instruction) => lookup(self@, label@) == Some(*instruction),
                None => lookup(self@, label@).is_none(),
            },
    {
        let result = entries_get(&self.instructions, label);
        proof {
            if let Some(instruction) = result {
                let e = self@;
                let i = choose|i: int|
                    0 <= i < e.len() && (#[trigger] e[i]).0@ == label@ && e[i].1 == *instruction;
                let j = choose|j: int| 0 <= j < e.len() && (#[trigger] e[j]).0@ == label@;
                if i != j {
                    if i < j {
                        assert(e[i].0@ != e[j].0@);
                    } else {
                        assert(e[j].0@ != e[i].0@);
                    }
                }
            }
        }
        result
    }

    /// The instructions, in order.
    pub fn instructions(&self) -> (result: Vec<&Instruction>)
        ensures
            result@.len() == self@.len(),
            forall|i: int| 0 <= i < self@.len() ==> *(#[trigger] result@[i]) == self@[i].1,
    {
        let n = entries_len(&self.instructions);
        let mut result: Vec<&Instruction> = Vec::new();
        let mut i: usize = 0;
        while i < n
            invariant
                n == self@.len(),
                i <= n,
                result@.len() == i,
                forall|j: int| 0 <= j < i ==> *(#[trigger] result@[j]) == self@[j].1,
            decreases n - i,
        {
            match entries_get_index(&self.instructions, i) {
                Some((_, instruction)) => result.push(instruction),
                None => {
                    proof {
                        assert(false);
                    }
                },
            }
            i = i + 1;
        }
        result
    }

    /// How the program reads: each instruction on a line of its own.
    pub fn to_text(&self) -> (result: String)
        ensures
            result@ == program_text(self@),
    {
        let instructions = self.instructions();
        let mut result = String::new();
        let mut i: usize = 0;
        while i < instructions.len()
            invariant
                i <= instructions@.len(),
                instructions@.len() == self@.len(),
                forall|m: int| 0 <= m < self@.len() ==> *(#[trigger] instructions@[m]) == self@[m].1,
                result@ == program_text(self@.take(i as int)),
            decreases instructions@.len() - i,
        {
            result.append(instructions[i].to_text().as_str());
            result.append("\n");
            proof {
                assert(self@.take(i + 1).drop_last() =~= self@.take(i as int));
            }
            i = i + 1;
        }
        proof {
            assert(self@.take(self@.len() as int) =~= self@);
        }
        result
    }

    /// Each instruction's label with how it reads without it, in order.
    pub fn export(&self) -> (result: Vec<(String, String)>)
        ensures
            result@.len() == self@.len(),
            forall|i: int|
                0 <= i < self@.len() ==> (#[trigger] result@[i]).0@ == self@[i].1.label@
                    && result@[i].1@ == kind_text(self@[i].1.kind),
    {
        let instructions = self.instructions();
        let mut result: Vec<(String, String)> = Vec::new();
        let mut i: usize = 0;
        while i < instructions.len()
            invariant
                i <= instructions@.len(),
                instructions@.len() == self@.len(),
                forall|m: int| 0 <= m < self@.len() ==> *(#[trigger] instructions@[m]) == self@[m].1,
                result@.len() == i,
                forall|m: int|
                    0 <= m < i ==> (#[trigger] result@[m]).0@ == self@[m].1.label@ && result@[m].1@
                        == kind_text(self@[m].1.kind),
            decreases instructions@.len() - i,
        {
            result.push(instructions[i].export());
            i = i + 1;
        }
        result
    }

    /// The names of the registers that the program uses: those of each
    /// instruction in order, each as often as it occurs.
    pub fn collect_registers(&self) -> (result: Vec<String>)
        ensures
            result@.map_values(|name: String| name@) == all_registers(self@),
    {
        let instructions = self.instructions();
        let mut result: Vec<String> = Vec::new();
        let mut i: usize = 0;
        while i < instructions.len()
            invariant
                i <= instructions@.len(),
                instructions@.len() == self@.len(),
                forall|m: int| 0 <= m < self@.len() ==> *(#[trigger] instructions@[m]) == self@[m].1,
                result@.map_values(|name: String| name@) == all_registers(self@.take(i as int)),
            decreases instructions@.len() - i,
        {
            let names = instructions[i].collect_registers();
            append_names(&mut result, &names);
            proof {
                assert(self@.take(i + 1).drop_last() =~= self@.take(i as int));
            }
            i = i + 1;
        }
        proof {
            assert(self@.take(self@.len() as int) =~= self@);
        }
        result
    }

    /// The labels that the program's instructions jump to, in order.
    pub fn collect_labels(&self) -> (result: Vec<String>)
        ensures
            result@.map_values(|name: String| name@) == all_labels(self@),
    {
        let instructions = self.instructions();
        let mut result: Vec<String> = Vec::new();
        let mut i: usize = 0;
        while i < instructions.len()
            invariant
                i <= instructions@.len(),
                instructions@.len() == self@.len(),
                forall|m: int| 0 <= m < self@.len() ==> *(#[trigger] instructions@[m]) == self@[m].1,
                result@.map_values(|name: String| name@) == all_labels(self@.take(i as int)),
            decreases instructions@.len() - i,
        {
            let names = instructions[i].collect_labels();
            append_names(&mut result, &names);
            proof {
                assert(self@.take(i + 1).drop_last() =~= self@.take(i as int));
            }
            i = i + 1;
        }
        proof {
            assert(self@.take(self@.len() as int) =~= self@);
        }
        result
    }
}

/// Appends clones of `names` to `result`.
fn append_names(result: &mut Vec<String>, names: &Vec<String>)
    ensures
        final(result)@.map_values(|name: String| name@) == old(result)@.map_values(
            |name: String| name@,
        ) + names@.map_values(|name: String| name@),
{
    let ghost before = result@;
    let mut k: usize = 0;
    while k < names.len()
        invariant
            k <= names@.len(),
            result@.len() == before.len() + k,
            forall|j: int| 0 <= j < before.len() ==> result@[j] == before[j],
            forall|j: int| 0 <= j < k ==> result@[before.len() + j]@ == names@[j]@,
        decreases names@.len() - k,
    {
        result.push(names[k].clone());
        k = k + 1;
    }
    proof {
        assert(result@.map_values(|name: String| name@) =~= before.map_values(|name: String| name@)
            + names@.map_values(|name: String| name@));
    }
}

/// The registers that the instructions of `entries` use, in order, each as
/// often as it occurs.
pub open spec fn all_registers(entries: Seq<(String, Instruction)>) -> Seq<Seq<char>>
    decreases entries.len(),
{
    if entries.len() == 0 {
        Seq::empty()
    } else {
        all_registers(entries.drop_last()) + kind_registers(entries.last().1.kind)
    }
}

/// The labels that the instructions of `entries` jump to, in order.
pub open spec fn all_labels(entries: Seq<(String, Instruction)>) -> Seq<Seq<char>>
    decreases entries.len(),
{
    if entries.len() == 0 {
        Seq::empty()
    } else {
        all_labels(entries.drop_last()) + kind_labels(entries.last().1.kind)
    }
}

/// Each register that an instruction of `entries` uses is among
/// `all_registers(entries)`.
pub proof fn lemma_instruction_registers(entries: Seq<(String, Instruction)>, i: int, k: int)
    requires
        0 <= i < entries.len(),
        0 <= k < kind_registers(entries[i].1.kind).len(),
    ensures
        all_registers(entries).contains(kind_registers(entries[i].1.kind)[k]),
    decreases entries.len(),
{
    let last = entries.len() - 1;
    let prefix = all_registers(entries.drop_last());
    let regs = kind_registers(entries.last().1.kind);
    if i == last {
        assert((prefix + regs)[prefix.len() + k] == regs[k]);
    } else {
        lemma_instruction_registers(entries.drop_last(), i, k);
        let j = choose|j: int|
            0 <= j < prefix.len() && prefix[j] == kind_registers(entries[i].1.kind)[k];
        assert((prefix + regs)[j] == prefix[j]);
    }
}

} // verus!
