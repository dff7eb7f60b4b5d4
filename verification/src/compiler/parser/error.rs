//! The errors that parsing can raise.

use crate::compiler::error::{quoted_list, quoted_list_text};
use crate::compiler::lexer::token::TokenType;
use vstd::prelude::*;
use vstd::string::StringExecFns;

verus! {

/// `main` declared a second time.
#[derive(Clone, Copy, Debug, PartialEq, Eq, Structural)]
pub struct MainAlreadyDeclared;

/// No `main` in the program.
#[derive(Clone, Copy, Debug, PartialEq, Eq, Structural)]
pub struct MainNotDeclared;

/// A macro declared a second time.
#[derive(Clone, Debug, PartialEq, Eq)]
pub struct MacroAlreadyDeclared {
    pub macro_name: String,
}

/// A label used twice in one body.
#[derive(Clone, Debug, PartialEq, Eq)]
pub struct LabelAlreadyDeclared {
    pub label_name: String,
}

/// A token of none of the kinds that may stand where it stands.
#[derive(Clone, Debug, PartialEq, Eq)]
pub struct UnexpectedToken {
    pub expected_types: Vec<TokenType>,
}

/// The tokens ran out where more were needed.
#[derive(Clone, Copy, Debug, PartialEq, Eq, Structural)]
pub struct UnexpectedEndOfInput;

/// An instruction labelled `true` or `false`.
#[derive(Clone, Copy, Debug, PartialEq, Eq, Structural)]
pub struct InvalidLabel;

impl MainAlreadyDeclared {
    /// The message.
    pub open spec fn spec_message(self) -> Seq<char> {
        "Main já foi declarada neste programa"@
    }

    /// The message.
    pub fn message(&self) -> (result: String)
        ensures
            result@ == self.spec_message(),
    {
        String::from_str("Main já foi declarada neste programa")
    }
}

impl MainNotDeclared {
    /// The message.
    pub open spec fn spec_message(self) -> Seq<char> {
        "Main não foi declarada neste programa"@
    }

    /// The message.
    pub fn message(&self) -> (result: String)
        ensures
            result@ == self.spec_message(),
    {
        String::from_str("Main não foi declarada neste programa")
    }
}

impl MacroAlreadyDeclared {
    /// The message.
    pub open spec fn spec_message(self) -> Seq<char> {
        "Macro \""@ + self.macro_name@ + "\" já foi declarada neste programa"@
    }

    /// The message.
    pub fn message(&self) -> (result: String)
        ensures
            result@ == self.spec_message(),
    {
        let mut result = String::from_str("Macro \"");
        result.append(self.macro_name.as_str());
        result.append("\" já foi declarada neste programa");
        result
    }
}

impl LabelAlreadyDeclared {
    /// The message (worded as that of a macro declared twice).
    pub open spec fn spec_message(self) -> Seq<char> {
        "Macro \""@ + self.label_name@ + "\" já foi declarada neste programa"@
    }

    /// The message.
    pub fn message(&self) -> (result: String)
        ensures
            result@ == self.spec_message(),
    {
        let mut result = String::from_str("Macro \"");
        result.append(self.label_name.as_str());
        result.append("\" já foi declarada neste programa");
        result
    }
}

impl UnexpectedToken {
    /// The texts of the expected kinds.
    pub open spec fn expected_texts(self) -> Seq<Seq<char>> {
        self.expected_types@.map_values(|token_type: TokenType| token_type.spec_text())
    }

    /// The message: the expected kinds, quoted, the last two joined by `ou`.
    pub open spec fn spec_message(self) -> Seq<char> {
        "Token inesperado encontrado, esperava-se um "@ + quoted_list(
            self.expected_texts(),
            " ou "@,
        )
    }

    /// The message.
    pub fn message(&self) -> (result: String)
        ensures
            result@ == self.spec_message(),
    {
        let mut texts: Vec<String> = Vec::new();
        let mut i: usize = 0;
        while i < self.expected_types.len()
            invariant
                i <= self.expected_types@.len(),
                texts@.len() == i,
                forall|j: int|
                    0 <= j < i ==> (#[trigger] texts@[j])@ == self.expected_types@[j].spec_text(),
            decreases self.expected_types@.len() - i,
        {
            texts.push(self.expected_types[i].text());
            i = i + 1;
        }
        proof {
            assert(texts@.map_values(|text: String| text@) =~= self.expected_texts());
        }
        let mut result = String::from_str("Token inesperado encontrado, esperava-se um ");
        result.append(quoted_list_text(&texts, 0, " ou ").as_str());
        proof {
            let mapped = texts@.map_values(|text: String| text@);
            assert(mapped.skip(0) =~= mapped);
        }
        result
    }
}

impl UnexpectedEndOfInput {
    /// The message.
    pub open spec fn spec_message(self) -> Seq<char> {
        "Fim inesperado do código"@
    }

    /// The message.
    pub fn message(&self) -> (result: String)
        ensures
            result@ == self.spec_message(),
    {
        String::from_str("Fim inesperado do código")
    }
}

impl InvalidLabel {
    /// The message.
    pub open spec fn spec_message(self) -> Seq<char> {
        "Nome de label não pode ser \"true\" nem \"false\""@
    }

    /// The message.
    pub fn message(&self) -> (result: String)
        ensures
            result@ == self.spec_message(),
    {
        String::from_str("Nome de label não pode ser \"true\" nem \"false\"")
    }
}

} // verus!
