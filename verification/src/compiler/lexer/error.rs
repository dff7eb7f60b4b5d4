//! The errors that reading tokens can raise.

use vstd::prelude::*;
use vstd::string::StringExecFns;

verus! {

/// How `format!("{:?}", c)` writes a character: between single quotes, with
/// `char::escape_debug` applied.
pub uninterp spec fn char_debug_text(c: char) -> Seq<char>;

/// Writes `c` with `char`'s `Debug`.
///
/// Trusted: the text is `char_debug_text(c)`; for a printable ASCII
/// character other than a quote and a backslash, `escape_debug` leaves it as
/// it is, so the text is the character between single quotes.
#[verifier::external_body]
fn char_debug(c: char) -> (result: String)
    ensures
        result@ == char_debug_text(c),
        (' ' <= c && c <= '~' && c != '\'' && c != '\\') ==> result@ == seq!['\'', c, '\''],
{
    format!("{:?}", c)
}

/// A character that no token can hold.
#[derive(Debug, Clone, Copy, PartialEq, Eq, Structural)]
pub struct InvalidChar {
    pub character: char,
}

/// How `char`'s `Debug` writes `c`: a printable ASCII character other than a
/// quote and a backslash between single quotes.
pub open spec fn char_debug_shown(c: char) -> Seq<char> {
    if ' ' <= c && c <= '~' && c != '\'' && c != '\\' {
        seq!['\'', c, '\'']
    } else {
        char_debug_text(c)
    }
}

impl InvalidChar {
    /// The message: `Caracter 'c' é inválido`.
    pub open spec fn spec_message(self) -> Seq<char> {
        "Caracter "@ + char_debug_shown(self.character) + " é inválido"@
    }

    /// The message.
    pub fn message(&self) -> (result: String)
        ensures
            result@ == self.spec_message(),
    {
        let mut result = String::from_str("Caracter ");
        result.append(char_debug(self.character).as_str());
        result.append(" é inválido");
        result
    }
}

/// A `/` that is not followed by another `/`.
#[derive(Debug, Clone, Copy, PartialEq, Eq, Structural)]
pub struct BadCommentStart;

impl BadCommentStart {
    /// The message.
    pub open spec fn spec_message(self) -> Seq<char> {
        "Começo inválido de comentário"@
    }

    /// The message.
    pub fn message(&self) -> (result: String)
        ensures
            result@ == self.spec_message(),
    {
        String::from_str("Começo inválido de comentário")
    }
}

} // verus!
