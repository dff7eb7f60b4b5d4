//! The errors that expanding macros can raise.

use crate::compiler::error::{quoted_list, quoted_list_text};
use crate::compiler::parser::ast::{MacroArgumentType, MacroType};
use crate::natural::{decimal, Natural};
use vstd::prelude::*;
use vstd::string::StringExecFns;

verus! {

/// A call of a macro that is not declared.
#[derive(Clone, Debug, PartialEq, Eq)]
pub struct UndefinedMacro {
    pub macro_name: String,
}

/// Macros that call each other in a cycle: the calls from the first to the
/// last, which calls the first again.
#[derive(Clone, Debug, PartialEq, Eq)]
pub struct RecursiveMacro {
    pub macro_names: Vec<String>,
}

/// An operation macro called as a test, or the other way around.
#[derive(Clone, Debug, PartialEq, Eq)]
pub struct IncompatibleMacroType {
    pub macro_name: String,
    pub expected_type: MacroType,
    pub found_type: MacroType,
}

/// A macro called with another number of arguments than it has parameters.
#[derive(Clone, Debug, PartialEq, Eq)]
pub struct MismatchedArgsNumber {
    pub macro_name: String,
    pub expected_num: usize,
    pub found_num: usize,
}

/// A macro argument of the wrong kind.
#[derive(Clone, Debug, PartialEq, Eq)]
pub struct MismatchedArgType {
    pub macro_name: String,
    pub expected_type: MacroArgumentType,
    pub found_type: MacroArgumentType,
    pub index: usize,
}

/// A label that `main` may not jump to.
#[derive(Clone, Debug, PartialEq, Eq)]
pub struct InvalidLabelForMain {
    pub label: String,
}

/// A label that an operation macro may not jump to.
#[derive(Clone, Debug, PartialEq, Eq)]
pub struct InvalidLabelForOperMacro {
    pub label: String,
}

/// A label that a test macro may not jump to.
#[derive(Clone, Debug, PartialEq, Eq)]
pub struct InvalidLabelForTestMacro {
    pub label: String,
}

impl UndefinedMacro {
    /// The message.
    pub open spec fn spec_message(self) -> Seq<char> {
        "Macro \""@ + self.macro_name@ + "\" não existe"@
    }

    /// The message.
    pub fn message(&self) -> (result: String)
        ensures
            result@ == self.spec_message(),
    {
        let mut result = String::from_str("Macro \"");
        result.append(self.macro_name.as_str());
        result.append("\" não existe");
        result
    }
}

impl RecursiveMacro {
    /// The message: the macros, quoted, the last two joined by `e`.
    pub open spec fn spec_message(self) -> Seq<char> {
        "Recursão detectada entre as macros: "@ + quoted_list(
            self.macro_names@.map_values(|name: String| name@),
            " e "@,
        )
    }

    /// The message.
    pub fn message(&self) -> (result: String)
        ensures
            result@ == self.spec_message(),
    {
        let mut result = String::from_str("Recursão detectada entre as macros: ");
        result.append(quoted_list_text(&self.macro_names, 0, " e ").as_str());
        proof {
            let names = self.macro_names@.map_values(|name: String| name@);
            assert(names.skip(0) =~= names);
        }
        result
    }
}

impl IncompatibleMacroType {
    /// The message.
    pub open spec fn spec_message(self) -> Seq<char> {
        "Esperada macro do tipo "@ + self.expected_type.spec_text() + ", mas macro \""@
            + self.macro_name@ + "\" é do tipo "@ + self.found_type.spec_text()
    }

    /// The message.
    pub fn message(&self) -> (result: String)
        ensures
            result@ == self.spec_message(),
    {
        let mut result = String::from_str("Esperada macro do tipo ");
        result.append(self.expected_type.text().as_str());
        result.append(", mas macro \"");
        result.append(self.macro_name.as_str());
        result.append("\" é do tipo ");
        result.append(self.found_type.text().as_str());
        result
    }
}

impl MismatchedArgsNumber {
    /// The message.
    pub open spec fn spec_message(self) -> Seq<char> {
        "Macro \""@ + self.macro_name@ + "\" requer que sejam passados "@ + decimal(
            self.expected_num as nat,
        ) + " argumentos, mas foram fornecidos "@ + decimal(self.found_num as nat)
    }

    /// The message.
    pub fn message(&self) -> (result: String)
        ensures
            result@ == self.spec_message(),
    {
        let mut result = String::from_str("Macro \"");
        result.append(self.macro_name.as_str());
        result.append("\" requer que sejam passados ");
        result.append(Natural::from_u64(self.expected_num as u64).to_decimal().as_str());
        result.append(" argumentos, mas foram fornecidos ");
        result.append(Natural::from_u64(self.found_num as u64).to_decimal().as_str());
        result
    }
}

impl MismatchedArgType {
    /// The message.
    pub open spec fn spec_message(self) -> Seq<char> {
        "Macro \""@ + self.macro_name@ + "\" requer que argumento do índice "@ + decimal(
            self.index as nat,
        ) + " (a partir do 0) seja do tipo "@ + self.expected_type.spec_text()
            + ", mas foram tipo "@ + self.found_type.spec_text() + " foi encontrado"@
    }

    /// The message.
    pub fn message(&self) -> (result: String)
        ensures
            result@ == self.spec_message(),
    {
        let mut result = String::from_str("Macro \"");
        result.append(self.macro_name.as_str());
        result.append("\" requer que argumento do índice ");
        result.append(Natural::from_u64(self.index as u64).to_decimal().as_str());
        result.append(" (a partir do 0) seja do tipo ");
        result.append(self.expected_type.text().as_str());
        result.append(", mas foram tipo ");
        result.append(self.found_type.text().as_str());
        result.append(" foi encontrado");
        result
    }
}

impl InvalidLabelForMain {
    /// The message.
    pub open spec fn spec_message(self) -> Seq<char> {
        "Rótulo \""@ + self.label@ + "\" é inválido para main"@
    }

    /// The message.
    pub fn message(&self) -> (result: String)
        ensures
            result@ == self.spec_message(),
    {
        let mut result = String::from_str("Rótulo \"");
        result.append(self.label.as_str());
        result.append("\" é inválido para main");
        result
    }
}

impl InvalidLabelForOperMacro {
    /// The message.
    pub open spec fn spec_message(self) -> Seq<char> {
        "Rótulo \""@ + self.label@ + "\" é inválido para macro de operação"@
    }

    /// The message.
    pub fn message(&self) -> (result: String)
        ensures
            result@ == self.spec_message(),
    {
        let mut result = String::from_str("Rótulo \"");
        result.append(self.label.as_str());
        result.append("\" é inválido para macro de operação");
        result
    }
}

impl InvalidLabelForTestMacro {
    /// The message.
    pub open spec fn spec_message(self) -> Seq<char> {
        "Rótulo \""@ + self.label@ + "\" é inválido para macro de teste"@
    }

    /// The message.
    pub fn message(&self) -> (result: String)
        ensures
            result@ == self.spec_message(),
    {
        let mut result = String::from_str("Rótulo \"");
        result.append(self.label.as_str());
        result.append("\" é inválido para macro de teste");
        result
    }
}

} // verus!
