//! Tokens: the words and punctuation of Norma source code.

use crate::compiler::position::Span;
use vstd::prelude::*;
use vstd::string::StringExecFns;

verus! {

/// The built-in operations.
#[derive(Debug, Clone, Copy, PartialEq, Eq, Structural, PartialOrd, Ord, Hash)]
pub enum BuiltInOperation {
    Inc,
    Dec,
}

/// The built-in tests.
#[derive(Debug, Clone, Copy, PartialEq, Eq, Structural, PartialOrd, Ord, Hash)]
pub enum BuiltInTest {
    Zero,
}

/// The shortcut operations.
#[derive(Debug, Clone, Copy, PartialEq, Eq, Structural, PartialOrd, Ord, Hash)]
pub enum ShortCutOperation {
    Clear,
    Load,
    AddConst,
    Add,
    SubConst,
    Sub,
}

/// The shortcut tests.
#[derive(Debug, Clone, Copy, PartialEq, Eq, Structural, PartialOrd, Ord, Hash)]
pub enum ShortCutTest {
    EqualsConst,
    Equals,
    LessThanConst,
    LessThan,
}

/// The kinds of token.
#[derive(Debug, Clone, Copy, PartialEq, Eq, Structural, PartialOrd, Ord, Hash)]
pub enum TokenType {
    Do,
    Else,
    Goto,
    If,
    Main,
    Operation,
    Test,
    Then,
    BuiltInOper(BuiltInOperation),
    BuiltInTest(BuiltInTest),
    ShortCutOper(ShortCutOperation),
    ShortCutTest(ShortCutTest),
    Number,
    Identifier,
    Colon,
    Comma,
    OpenParen,
    CloseParen,
    OpenCurly,
    CloseCurly,
}

/// A token: its kind, the text it was read from, and where.
#[derive(Debug, Clone, PartialEq, Eq)]
pub struct Token {
    pub token_type: TokenType,
    pub content: String,
    pub span: Span,
}

impl BuiltInOperation {
    /// How the operation is written.
    pub open spec fn spec_text(self) -> Seq<char> {
        match self {
            BuiltInOperation::Inc => "inc"@,
            BuiltInOperation::Dec => "dec"@,
        }
    }
}

impl BuiltInTest {
    /// How the test is written.
    pub open spec fn spec_text(self) -> Seq<char> {
        match self {
            BuiltInTest::Zero => "zero"@,
        }
    }
}

impl ShortCutOperation {
    /// How the operation is written.
    pub open spec fn spec_text(self) -> Seq<char> {
        match self {
            ShortCutOperation::Clear => "clear"@,
            ShortCutOperation::Load => "load"@,
            ShortCutOperation::AddConst => "addc"@,
            ShortCutOperation::Add => "add"@,
            ShortCutOperation::SubConst => "subc"@,
            ShortCutOperation::Sub => "sub"@,
        }
    }
}

impl ShortCutTest {
    /// How the test is written.
    pub open spec fn spec_text(self) -> Seq<char> {
        match self {
            ShortCutTest::EqualsConst => "cmpc"@,
            ShortCutTest::Equals => "cmp"@,
            ShortCutTest::LessThanConst => "lessthanc"@,
            ShortCutTest::LessThan => "lessthan"@,
        }
    }
}

impl TokenType {
    /// How a token of the kind reads in messages: the keyword or punctuation
    /// itself, or `<número>` and `<identificador>`.
    pub open spec fn spec_text(self) -> Seq<char> {
        match self {
            TokenType::Do => "do"@,
            TokenType::Else => "else"@,
            TokenType::Goto => "goto"@,
            TokenType::If => "if"@,
            TokenType::Main => "main"@,
            TokenType::Operation => "operation"@,
            TokenType::Test => "test"@,
            TokenType::Then => "then"@,
            TokenType::BuiltInOper(oper) => oper.spec_text(),
            TokenType::BuiltInTest(test) => test.spec_text(),
            TokenType::ShortCutOper(oper) => oper.spec_text(),
            TokenType::ShortCutTest(test) => test.spec_text(),
            TokenType::Number => "<número>"@,
            TokenType::Identifier => "<identificador>"@,
            TokenType::Colon => ":"@,
            TokenType::Comma => ","@,
            TokenType::OpenParen => "("@,
            TokenType::CloseParen => ")"@,
            TokenType::OpenCurly => "{"@,
            TokenType::CloseCurly => "}"@,
        }
    }

    /// How a token of the kind reads in messages.
    pub fn text(&self) -> (result: String)
        ensures
            result@ == self.spec_text(),
    {
        let text = match self {
            TokenType::Do => "do",
            TokenType::Else => "else",
            TokenType::Goto => "goto",
            TokenType::If => "if",
            TokenType::Main => "main",
            TokenType::Operation => "operation",
            TokenType::Test => "test",
            TokenType::Then => "then",
            TokenType::BuiltInOper(BuiltInOperation::Inc) => "inc",
            TokenType::BuiltInOper(BuiltInOperation::Dec) => "dec",
            TokenType::BuiltInTest(BuiltInTest::Zero) => "zero",
            TokenType::ShortCutOper(ShortCutOperation::Clear) => "clear",
            TokenType::ShortCutOper(ShortCutOperation::Load) => "load",
            TokenType::ShortCutOper(ShortCutOperation::AddConst) => "addc",
            TokenType::ShortCutOper(ShortCutOperation::Add) => "add",
            TokenType::ShortCutOper(ShortCutOperation::SubConst) => "subc",
            TokenType::ShortCutOper(ShortCutOperation::Sub) => "sub",
            TokenType::ShortCutTest(ShortCutTest::EqualsConst) => "cmpc",
            TokenType::ShortCutTest(ShortCutTest::Equals) => "cmp",
            TokenType::ShortCutTest(ShortCutTest::LessThanConst) => "lessthanc",
            TokenType::ShortCutTest(ShortCutTest::LessThan) => "lessthan",
            TokenType::Number => "<número>",
            TokenType::Identifier => "<identificador>",
            TokenType::Colon => ":",
            TokenType::Comma => ",",
            TokenType::OpenParen => "(",
            TokenType::CloseParen => ")",
            TokenType::OpenCurly => "{",
            TokenType::CloseCurly => "}",
        };
        String::from_str(text)
    }
}

} // verus!
