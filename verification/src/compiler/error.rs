//! Compilation errors, and the diagnostics that collect them.

use crate::compiler::expansor::error::{
    IncompatibleMacroType,
    InvalidLabelForMain,
    InvalidLabelForOperMacro,
    InvalidLabelForTestMacro,
    MismatchedArgType,
    MismatchedArgsNumber,
    RecursiveMacro,
    UndefinedMacro,
};
use crate::compiler::lexer::error::{BadCommentStart, InvalidChar};
use crate::compiler::parser::error::{
    InvalidLabel,
    LabelAlreadyDeclared,
    MacroAlreadyDeclared,
    MainAlreadyDeclared,
    MainNotDeclared,
    UnexpectedEndOfInput,
    UnexpectedToken,
};
use crate::compiler::position::Span;
use vstd::prelude::*;
use vstd::string::StringExecFns;

verus! {

/// `items`, each between double quotes, separated by `, ` but for the last
/// two, which `last_separator` separates.
pub open spec fn quoted_list(items: Seq<Seq<char>>, last_separator: Seq<char>) -> Seq<char>
    decreases items.len(),
{
    if items.len() == 0 {
        Seq::empty()
    } else if items.len() == 1 {
        "\""@ + items[0] + "\""@
    } else if items.len() == 2 {
        "\""@ + items[0] + "\""@ + last_separator + "\""@ + items[1] + "\""@
    } else {
        "\""@ + items[0] + "\", "@ + quoted_list(items.drop_first(), last_separator)
    }
}

/// The text of `quoted_list` for the items of `items` from `from` on.
pub fn quoted_list_text(items: &Vec<String>, from: usize, last_separator: &str) -> (result: String)
    requires
        from <= items@.len(),
    ensures
        result@ == quoted_list(
            items@.map_values(|item: String| item@).skip(from as int),
            last_separator@,
        ),
    decreases items@.len() - from,
{
    let ghost all = items@.map_values(|item: String| item@);
    let ghost rest = all.skip(from as int);
    let remaining = items.len() - from;
    if remaining == 0 {
        proof {
            assert(rest.len() == 0);
        }
        String::new()
    } else if remaining == 1 {
        let mut result = String::from_str("\"");
        result.append(items[from].as_str());
        result.append("\"");
        proof {
            assert(rest[0] == items@[from as int]@);
        }
        result
    } else if remaining == 2 {
        let mut result = String::from_str("\"");
        result.append(items[from].as_str());
        result.append("\"");
        result.append(last_separator);
        result.append("\"");
        result.append(items[from + 1].as_str());
        result.append("\"");
        proof {
            assert(rest[0] == items@[from as int]@);
            assert(rest[1] == items@[from + 1]@);
        }
        result
    } else {
        let mut result = String::from_str("\"");
        result.append(items[from].as_str());
        result.append("\", ");
        let tail = quoted_list_text(items, from + 1, last_separator);
        result.append(tail.as_str());
        proof {
            assert(rest[0] == items@[from as int]@);
            assert(rest.drop_first() =~= all.skip(from + 1));
        }
        result
    }
}

/// What went wrong.
#[derive(Clone, Debug, PartialEq, Eq)]
pub enum ErrorCause {
    InvalidChar(InvalidChar),
    BadCommentStart(BadCommentStart),
    MainAlreadyDeclared(MainAlreadyDeclared),
    MainNotDeclared(MainNotDeclared),
    MacroAlreadyDeclared(MacroAlreadyDeclared),
    LabelAlreadyDeclared(LabelAlreadyDeclared),
    UnexpectedToken(UnexpectedToken),
    UnexpectedEndOfInput(UnexpectedEndOfInput),
    InvalidLabel(InvalidLabel),
    UndefinedMacro(UndefinedMacro),
    RecursiveMacro(RecursiveMacro),
    IncompatibleMacroType(IncompatibleMacroType),
    MismatchedArgsNumber(MismatchedArgsNumber),
    MismatchedArgType(MismatchedArgType),
    InvalidLabelForMain(InvalidLabelForMain),
    InvalidLabelForOperMacro(InvalidLabelForOperMacro),
    InvalidLabelForTestMacro(InvalidLabelForTestMacro),
}

impl ErrorCause {
    /// The message of the cause.
    pub open spec fn spec_message(self) -> Seq<char> {
        match self {
            ErrorCause::InvalidChar(e) => e.spec_message(),
            ErrorCause::BadCommentStart(e) => e.spec_message(),
            ErrorCause::MainAlreadyDeclared(e) => e.spec_message(),
            ErrorCause::MainNotDeclared(e) => e.spec_message(),
            ErrorCause::MacroAlreadyDeclared(e) => e.spec_message(),
            ErrorCause::LabelAlreadyDeclared(e) => e.spec_message(),
            ErrorCause::UnexpectedToken(e) => e.spec_message(),
            ErrorCause::UnexpectedEndOfInput(e) => e.spec_message(),
            ErrorCause::InvalidLabel(e) => e.spec_message(),
            ErrorCause::UndefinedMacro(e) => e.spec_message(),
            ErrorCause::RecursiveMacro(e) => e.spec_message(),
            ErrorCause::IncompatibleMacroType(e) => e.spec_message(),
            ErrorCause::MismatchedArgsNumber(e) => e.spec_message(),
            ErrorCause::MismatchedArgType(e) => e.spec_message(),
            ErrorCause::InvalidLabelForMain(e) => e.spec_message(),
            ErrorCause::InvalidLabelForOperMacro(e) => e.spec_message(),
            ErrorCause::InvalidLabelForTestMacro(e) => e.spec_message(),
        }
    }

    /// The message of the cause.
    pub fn message(&self) -> (result: String)
        ensures
            result@ == self.spec_message(),
    {
        match self {
            ErrorCause::InvalidChar(e) => e.message(),
            ErrorCause::BadCommentStart(e) => e.message(),
            ErrorCause::MainAlreadyDeclared(e) => e.message(),
            ErrorCause::MainNotDeclared(e) => e.message(),
            ErrorCause::MacroAlreadyDeclared(e) => e.message(),
            ErrorCause::LabelAlreadyDeclared(e) => e.message(),
            ErrorCause::UnexpectedToken(e) => e.message(),
            ErrorCause::UnexpectedEndOfInput(e) => e.message(),
            ErrorCause::InvalidLabel(e) => e.message(),
            ErrorCause::UndefinedMacro(e) => e.message(),
            ErrorCause::RecursiveMacro(e) => e.message(),
            ErrorCause::IncompatibleMacroType(e) => e.message(),
            ErrorCause::MismatchedArgsNumber(e) => e.message(),
            ErrorCause::MismatchedArgType(e) => e.message(),
            ErrorCause::InvalidLabelForMain(e) => e.message(),
            ErrorCause::InvalidLabelForOperMacro(e) => e.message(),
            ErrorCause::InvalidLabelForTestMacro(e) => e.message(),
        }
    }
}

/// An error: its cause and, where it has one, the span of source code it is
/// about.
#[derive(Clone, Debug, PartialEq, Eq)]
pub struct Error {
    pub cause: ErrorCause,
    pub span: Option<Span>,
}

impl Error {
    /// An error caused by `cause` at `span`.
    pub fn new(cause: ErrorCause, span: Span) -> (result: Error)
        ensures
            result == (Error { cause, span: Some(span) }),
    {
        Error { cause, span: Some(span) }
    }

    /// An error caused by `cause`, about no particular span.
    pub fn with_no_span(cause: ErrorCause) -> (result: Error)
        ensures
            result == (Error { cause, span: None }),
    {
        Error { cause, span: None }
    }

    /// The span the error is about, if any.
    pub fn span(&self) -> (result: Option<Span>)
        ensures
            result == self.span,
    {
        self.span
    }

    /// The cause of the error.
    pub fn cause(&self) -> (result: &ErrorCause)
        ensures
            *result == self.cause,
    {
        &self.cause
    }

    /// The error as it reads: the message, then `, ` and the span, if any.
    pub open spec fn spec_text(self) -> Seq<char> {
        match self.span {
            Some(span) => self.cause.spec_message() + ", "@ + span.spec_text(),
            None => self.cause.spec_message(),
        }
    }

    /// The error as it reads.
    pub fn text(&self) -> (result: String)
        requires
            self.span matches Some(span) ==> span.end.column >= 1,
        ensures
            result@ == self.spec_text(),
    {
        let mut result = self.cause.message();
        match &self.span {
            Some(span) => {
                result.append(", ");
                result.append(span.text().as_str());
            },
            None => {},
        }
        result
    }
}

/// The errors raised while compiling, in the order they were raised.
#[derive(Debug, Default)]
pub struct Diagnostics {
    errors: Vec<Error>,
}

impl View for Diagnostics {
    type V = Seq<Error>;

    closed spec fn view(&self) -> Seq<Error> {
        self.errors@
    }
}

impl Diagnostics {
    /// No errors.
    pub fn new() -> (result: Diagnostics)
        ensures
            result@ == Seq::<Error>::empty(),
    {
        Diagnostics { errors: Vec::new() }
    }

    /// Records `error` after the others.
    pub fn raise(&mut self, error: Error)
        ensures
            final(self)@ == old(self)@.push(error),
    {
        self.errors.push(error);
    }

    /// Whether no error was raised.
    pub fn is_ok(&self) -> (result: bool)
        ensures
            result == (self@.len() == 0),
    {
        self.errors.len() == 0
    }

    /// Whether some error was raised.
    pub fn is_err(&self) -> (result: bool)
        ensures
            result == (self@.len() > 0),
    {
        self.errors.len() != 0
    }

    /// The number of errors raised.
    pub fn count_errors(&self) -> (result: usize)
        ensures
            result == self@.len(),
    {
        self.errors.len()
    }

    /// A cursor over the errors, in order.
    pub fn iter(&self) -> (result: Iter<'_>)
        ensures
            result.remaining() == self@,
    {
        let result = Iter { errors: &self.errors, next: 0, end: self.errors.len() };
        proof {
            assert(result.remaining() =~= self@);
        }
        result
    }

    /// A cursor that owns the errors, in order.
    pub fn into_iter(self) -> (result: IntoIter)
        ensures
            result.remaining() == self@,
    {
        IntoIter { errors: self.errors }
    }
}

/// A cursor over the errors of a [`Diagnostics`].
#[derive(Debug)]
pub struct Iter<'diagnostics> {
    errors: &'diagnostics Vec<Error>,
    next: usize,
    end: usize,
}

impl<'diagnostics> Iter<'diagnostics> {
    /// The errors not handed out yet.
    pub closed spec fn remaining(&self) -> Seq<Error> {
        if self.next <= self.end <= self.errors@.len() {
            self.errors@.subrange(self.next as int, self.end as int)
        } else {
            Seq::empty()
        }
    }

    /// The next error, if any is left.
    pub fn next(&mut self) -> (result: Option<&'diagnostics Error>)
        ensures
            old(self).remaining().len() == 0 ==> result.is_none() && final(self).remaining()
                == old(self).remaining(),
            old(self).remaining().len() > 0 ==> result == Some(&old(self).remaining()[0])
                && final(self).remaining() == old(self).remaining().drop_first(),
    {
        if self.next < self.end && self.end <= self.errors.len() {
            let error = &self.errors[self.next];
            self.next = self.next + 1;
            proof {
                assert(self.remaining() =~= old(self).remaining().drop_first());
            }
            Some(error)
        } else {
            None
        }
    }

    /// The last error not handed out yet, if any is left.
    pub fn next_back(&mut self) -> (result: Option<&'diagnostics Error>)
        ensures
            old(self).remaining().len() == 0 ==> result.is_none() && final(self).remaining()
                == old(self).remaining(),
            old(self).remaining().len() > 0 ==> result == Some(
                &old(self).remaining()[old(self).remaining().len() - 1],
            ) && final(self).remaining() == old(self).remaining().drop_last(),
    {
        if self.next < self.end && self.end <= self.errors.len() {
            self.end = self.end - 1;
            let error = &self.errors[self.end];
            proof {
                assert(self.remaining() =~= old(self).remaining().drop_last());
            }
            Some(error)
        } else {
            None
        }
    }

    /// The number of errors not handed out yet.
    pub fn len(&self) -> (result: usize)
        ensures
            result == self.remaining().len(),
    {
        if self.next <= self.end && self.end <= self.errors.len() {
            self.end - self.next
        } else {
            0
        }
    }
}

/// A cursor that owns the errors of a [`Diagnostics`].
#[derive(Debug)]
pub struct IntoIter {
    errors: Vec<Error>,
}

impl IntoIter {
    /// The errors not handed out yet.
    pub closed spec fn remaining(&self) -> Seq<Error> {
        self.errors@
    }

    /// The next error, if any is left.
    pub fn next(&mut self) -> (result: Option<Error>)
        ensures
            old(self).remaining().len() == 0 ==> result.is_none() && final(self).remaining()
                == old(self).remaining(),
            old(self).remaining().len() > 0 ==> result == Some(old(self).remaining()[0])
                && final(self).remaining() == old(self).remaining().drop_first(),
    {
        if self.errors.len() > 0 {
            let error = self.errors.remove(0);
            proof {
                assert(self.errors@ =~= old(self).errors@.drop_first());
            }
            Some(error)
        } else {
            None
        }
    }

    /// The last error not handed out yet, if any is left.
    pub fn next_back(&mut self) -> (result: Option<Error>)
        ensures
            old(self).remaining().len() == 0 ==> result.is_none() && final(self).remaining()
                == old(self).remaining(),
            old(self).remaining().len() > 0 ==> result == Some(
                old(self).remaining()[old(self).remaining().len() - 1],
            ) && final(self).remaining() == old(self).remaining().drop_last(),
    {
        self.errors.pop()
    }

    /// The number of errors not handed out yet.
    pub fn len(&self) -> (result: usize)
        ensures
            result == self.remaining().len(),
    {
        self.errors.len()
    }
}

} // verus!
