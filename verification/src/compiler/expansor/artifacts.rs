//! What the expansion works on: the code being built for a body, and the
//! macros already compiled.

use crate::compiler::parser::ast;
use crate::interpreter::program::{
    builtin_renamed,
    builtin_view,
    builtins_view,
    BuiltinView,
    has_label,
    is_builtin,
    only_builtins,
    OperationKind,
    TestKind,
    Instruction,
    InstructionKind,
    Operation,
    Program,
    Test,
};
use vstd::prelude::*;

verus! {

/// A macro compiled into a program of built-in instructions.
#[derive(Debug)]
pub struct PreCompiled<'ast> {
    macro_data: &'ast ast::Macro,
    program: Program,
}

impl<'ast> PreCompiled<'ast> {
    /// The macro `macro_data`, compiled into `program`.
    pub fn new(macro_data: &'ast ast::Macro, program: Program) -> (result: PreCompiled<'ast>)
        ensures
            *result.spec_macro_data() == *macro_data,
            result.spec_program() == program,
    {
        PreCompiled { macro_data, program }
    }

    /// The definition of the macro.
    pub closed spec fn spec_macro_data(&self) -> &'ast ast::Macro {
        self.macro_data
    }

    /// The compiled program.
    pub closed spec fn spec_program(&self) -> Program {
        self.program
    }

    /// The definition of the macro.
    pub fn macro_data(&self) -> (result: &'ast ast::Macro)
        ensures
            result == self.spec_macro_data(),
    {
        self.macro_data
    }

    /// The compiled program.
    pub fn program(&self) -> (result: &Program)
        ensures
            *result == self.spec_program(),
    {
        &self.program
    }
}

/// The name that `name` is renamed to by `pairs` of old and new names: the
/// new name of the last pair whose old name it is, or itself.
pub open spec fn renamed(pairs: Seq<(Seq<char>, Seq<char>)>, name: Seq<char>) -> Seq<char>
    decreases pairs.len(),
{
    if pairs.len() == 0 {
        name
    } else if pairs.last().0 == name {
        pairs.last().1
    } else {
        renamed(pairs.drop_last(), name)
    }
}

/// Pairs of names as plain values.
pub open spec fn pairs_view(pairs: Seq<(String, String)>) -> Seq<(Seq<char>, Seq<char>)> {
    pairs.map_values(|pair: (String, String)| (pair.0@, pair.1@))
}

/// Whether some entry of `code` has the label `label`.
pub open spec fn view_has_label(code: Seq<(Seq<char>, BuiltinView)>, label: Seq<char>) -> bool {
    exists|k: int| 0 <= k < code.len() && (#[trigger] code[k]).0 == label
}

/// `code` with `entry` added at the end, unless an entry with its label is
/// there already.
pub open spec fn insert_view(
    code: Seq<(Seq<char>, BuiltinView)>,
    entry: (Seq<char>, BuiltinView),
) -> Seq<(Seq<char>, BuiltinView)> {
    if view_has_label(code, entry.0) {
        code
    } else {
        code.push(entry)
    }
}

/// The entries of `code` with their jumps renamed by `expanded_labels`.
pub open spec fn relabelled(
    code: Seq<(Seq<char>, BuiltinView)>,
    expanded_labels: Seq<(Seq<char>, Seq<char>)>,
) -> Seq<(Seq<char>, BuiltinView)> {
    code.map_values(
        |entry: (Seq<char>, BuiltinView)|
            (
                entry.0,
                builtin_renamed(
                    entry.1,
                    |r: Seq<char>| r,
                    |l: Seq<char>| renamed(expanded_labels, l),
                ),
            ),
    )
}

/// A program has a label exactly where its plain values have it.
pub proof fn lemma_view_has_label(entries: Seq<(String, Instruction)>, label: Seq<char>)
    ensures
        has_label(entries, label) == view_has_label(builtins_view(entries), label),
{
    let view = builtins_view(entries);
    if has_label(entries, label) {
        let k = choose|k: int| 0 <= k < entries.len() && (#[trigger] entries[k]).0@ == label;
        assert(view[k].0 == label);
    }
    if view_has_label(view, label) {
        let k = choose|k: int| 0 <= k < view.len() && (#[trigger] view[k]).0 == label;
        assert(entries[k].0@ == label);
    }
}

/// The code being built for a body: its instructions so far, and the labels
/// of the body's macro calls with the labels their expansions start at.
#[derive(Debug)]
pub struct WorkingCode {
    program: Program,
    expanded_labels: Vec<(String, String)>,
}

impl WorkingCode {
    /// The code's consistency: its program has no label twice and only
    /// built-in instructions.
    pub closed spec fn wf(&self) -> bool {
        &&& self.program.wf()
        &&& only_builtins(self.program@)
    }

    /// The instructions so far.
    pub closed spec fn spec_program(&self) -> Program {
        self.program
    }

    /// The labels of the body's macro calls with the labels their
    /// expansions start at, in the order they were recorded.
    pub closed spec fn spec_expanded_labels(&self) -> Seq<(Seq<char>, Seq<char>)> {
        pairs_view(self.expanded_labels@)
    }

    /// No instructions and no expansions.
    pub fn new() -> (result: WorkingCode)
        ensures
            result.wf(),
            result.spec_program()@.len() == 0,
            result.spec_expanded_labels().len() == 0,
    {
        WorkingCode { program: Program::empty(), expanded_labels: Vec::new() }
    }

    /// Adds `instruction`, unless an instruction with its label is there
    /// already.
    pub fn insert_instr(&mut self, instruction: Instruction)
        requires
            old(self).wf(),
            is_builtin(instruction.kind),
        ensures
            final(self).wf(),
            final(self).spec_expanded_labels() == old(self).spec_expanded_labels(),
            builtins_view(final(self).spec_program()@) == insert_view(
                builtins_view(old(self).spec_program()@),
                (instruction.label@, builtin_view(instruction.kind)),
            ),
    {
        proof {
            lemma_view_has_label(self.program@, instruction.label@);
        }
        if !self.program.is_label_valid(instruction.label()) {
            let ghost before = self.program@;
            self.program.insert(instruction);
            proof {
                assert(builtins_view(self.program@) =~= builtins_view(before).push(
                    (instruction.label@, builtin_view(instruction.kind)),
                ));
                assert forall|i: int| 0 <= i < self.program@.len() implies is_builtin(
                    (#[trigger] self.program@[i]).1.kind,
                ) by {
                    if i < before.len() {
                        assert(self.program@[i] == before[i]);
                    }
                }
            }
        }
    }

    /// Records that jumps to `old_label` go to `new_label`, in place of what
    /// was recorded for `old_label` before.
    pub fn insert_expansion(&mut self, old_label: String, new_label: String)
        requires
            old(self).wf(),
        ensures
            final(self).wf(),
            final(self).spec_program() == old(self).spec_program(),
            final(self).spec_expanded_labels() == old(self).spec_expanded_labels().push(
                (old_label@, new_label@),
            ),
    {
        let ghost pair = (old_label@, new_label@);
        self.expanded_labels.push((old_label, new_label));
        proof {
            assert(pairs_view(self.expanded_labels@) =~= pairs_view(old(self).expanded_labels@).push(
                pair,
            ));
        }
    }

    /// The label that `label` is renamed to.
    fn rename(&self, label: &str) -> (result: String)
        ensures
            result@ == renamed(self.spec_expanded_labels(), label@),
    {
        let name = String::from_str(label);
        let ghost pairs = self.spec_expanded_labels();
        let mut i = self.expanded_labels.len();
        proof {
            assert(pairs.take(i as int) =~= pairs);
        }
        while i > 0
            invariant
                i <= self.expanded_labels@.len(),
                pairs == self.spec_expanded_labels(),
                name@ == label@,
                renamed(pairs, label@) == renamed(pairs.take(i as int), label@),
            decreases i,
        {
            assert(pairs.take(i as int).drop_last() =~= pairs.take(i - 1));
            if self.expanded_labels[i - 1].0 == name {
                return self.expanded_labels[i - 1].1.clone();
            }
            i = i - 1;
        }
        name
    }

    /// The built-in instruction `kind` with its labels renamed.
    fn rename_kind(&self, kind: &InstructionKind) -> (result: InstructionKind)
        requires
            is_builtin(*kind),
        ensures
            is_builtin(result),
            builtin_view(result) == builtin_renamed(
                builtin_view(*kind),
                |r: Seq<char>| r,
                |l: Seq<char>| renamed(self.spec_expanded_labels(), l),
            ),
            match (*kind, result) {
                (InstructionKind::Operation(a), InstructionKind::Operation(b)) => b.kind == a.kind
                    && b.next@ == renamed(self.spec_expanded_labels(), a.next@),
                (InstructionKind::Test(a), InstructionKind::Test(b)) => b.kind == a.kind
                    && b.next_then@ == renamed(self.spec_expanded_labels(), a.next_then@) && b.next_else@
                    == renamed(self.spec_expanded_labels(), a.next_else@),
                _ => false,
            },
    {
        let mut result = match kind {
            InstructionKind::Operation(operation) => {
                let oper_kind = match &operation.kind {
                    OperationKind::Inc(r) => OperationKind::Inc(r.clone()),
                    OperationKind::Dec(r) => OperationKind::Dec(r.clone()),
                    _ => {
                        proof {
                            assert(false);
                        }
                        OperationKind::Dec(String::new())
                    },
                };
                InstructionKind::Operation(
                    Operation { kind: oper_kind, next: operation.next.clone() },
                )
            },
            InstructionKind::Test(test) => {
                let test_kind = match &test.kind {
                    TestKind::Zero(r) => TestKind::Zero(r.clone()),
                    _ => {
                        proof {
                            assert(false);
                        }
                        TestKind::Zero(String::new())
                    },
                };
                InstructionKind::Test(
                    Test {
                        kind: test_kind,
                        next_then: test.next_then.clone(),
                        next_else: test.next_else.clone(),
                    },
                )
            },
        };
        let renamer = |label: &str| -> (new_label: String)
            ensures
                new_label@ == renamed(self.spec_expanded_labels(), label@),
            { self.rename(label) };
        result.rename_labels(renamer);
        result
    }

    /// The finished program: the instructions, in order, with each jump to
    /// a macro call redirected to where the call's expansion starts.
    pub fn finish(self) -> (result: Program)
        requires
            self.wf(),
        ensures
            result.wf(),
            only_builtins(result@),
            result@.len() == self.spec_program()@.len(),
            forall|i: int|
                0 <= i < result@.len() ==> (#[trigger] result@[i]).0@ == self.spec_program()@[i].0@,
            builtins_view(result@) == relabelled(
                builtins_view(self.spec_program()@),
                self.spec_expanded_labels(),
            ),
    {
        let ghost target = relabelled(builtins_view(self.program@), self.spec_expanded_labels());
        let instructions = self.program.instructions();
        let mut program = Program::empty();
        let mut i: usize = 0;
        while i < instructions.len()
            invariant
                self.wf(),
                program.wf(),
                i <= instructions@.len(),
                instructions@.len() == self.program@.len(),
                forall|m: int|
                    0 <= m < self.program@.len() ==> *(#[trigger] instructions@[m])
                        == self.program@[m].1,
                program@.len() == i,
                forall|m: int| 0 <= m < i ==> (#[trigger] program@[m]).0@ == self.program@[m].0@,
                only_builtins(program@),
                target == relabelled(builtins_view(self.program@), self.spec_expanded_labels()),
                builtins_view(program@) == target.take(i as int),
            decreases instructions@.len() - i,
        {
            let instruction = instructions[i];
            let label = String::from_str(instruction.label());
            let kind = self.rename_kind(&instruction.kind);
            proof {
                assert(self.program@[i as int].0@ == self.program@[i as int].1.label_view());
                assert forall|m: int| 0 <= m < program@.len() implies (#[trigger] program@[m]).0@
                    != label@ by {
                    assert(self.program@[m].0@ != self.program@[i as int].0@);
                }
            }
            let ghost before = program@;
            program.insert(Instruction::new(label, kind));
            proof {
                assert forall|m: int| 0 <= m < program@.len() implies is_builtin(
                    (#[trigger] program@[m]).1.kind,
                ) by {
                    if m < before.len() {
                        assert(program@[m] == before[m]);
                    }
                }
                assert(builtins_view(program@) =~= target.take(i + 1));
            }
            i = i + 1;
        }
        proof {
            assert(target.take(i as int) =~= target);
        }
        program
    }
}

} // verus!
