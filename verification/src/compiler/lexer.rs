//! Reading Norma source code into tokens.
//!
//! Whitespace separates tokens and is skipped. A word (a run of letters,
//! digits and underscores) is a number if it has only ASCII digits, a keyword
//! or built-in if it is one, and an identifier otherwise. `:`, `,`, `(`, `)`,
//! `{` and `}` are tokens of their own. `//` starts a comment that runs to the
//! end of the line; a `/` not followed by another `/` is an error, and the
//! rest of its line is skipped as well. Any other character is an error.

pub mod error;
pub mod token;

use crate::compiler::error::{Diagnostics, Error, ErrorCause};
use crate::compiler::position::{start_position, Position, Span};
use crate::natural::is_decimal_char;
use error::{BadCommentStart, InvalidChar};
use token::{BuiltInOperation, BuiltInTest, Token, TokenType};
use vstd::prelude::*;
use vstd::string::StringExecFns;

verus! {

/// Whether `char::is_alphanumeric` holds of `c`.
pub uninterp spec fn alphanumeric(c: char) -> bool;

/// Whether `char::is_whitespace` holds of `c`.
pub uninterp spec fn whitespace(c: char) -> bool;

/// `char::is_alphanumeric`.
///
/// Trusted: the result is `alphanumeric(c)`; for an ASCII character it holds
/// exactly of the letters and digits.
#[verifier::external_body]
fn is_alphanumeric(c: char) -> (result: bool)
    ensures
        result == alphanumeric(c),
        (c as u32) < 128 ==> result == (('a' <= c && c <= 'z') || ('A' <= c && c <= 'Z') || (
        '0' <= c && c <= '9')),
{
    c.is_alphanumeric()
}

/// `char::is_whitespace`.
///
/// Trusted: the result is `whitespace(c)`; for an ASCII character it holds
/// exactly of space, tab, line feed, vertical tab, form feed and carriage
/// return.
#[verifier::external_body]
fn is_whitespace(c: char) -> (result: bool)
    ensures
        result == whitespace(c),
        (c as u32) < 128 ==> result == (c == ' ' || c == '\t' || c == '\n' || c == '\x0B' || c
            == '\x0C' || c == '\r'),
{
    c.is_whitespace()
}

/// `String::push`.
///
/// Trusted: `c` is added at the end of the string.
#[verifier::external_body]
fn push_char(s: &mut String, c: char)
    ensures
        final(s)@ == old(s)@.push(c),
{
    s.push(c);
}

/// Whether `char::is_alphanumeric` holds of `c`: for an ASCII character,
/// whether it is a letter or a digit.
pub open spec fn is_letter_or_digit(c: char) -> bool {
    if (c as u32) < 128 {
        ('a' <= c && c <= 'z') || ('A' <= c && c <= 'Z') || ('0' <= c && c <= '9')
    } else {
        alphanumeric(c)
    }
}

/// Whether `char::is_whitespace` holds of `c`: for an ASCII character,
/// whether it is a space, a tab, a line feed, a vertical tab, a form feed or
/// a carriage return.
pub open spec fn is_space(c: char) -> bool {
    if (c as u32) < 128 {
        c == ' ' || c == '\t' || c == '\n' || c == '\x0B' || c == '\x0C' || c == '\r'
    } else {
        whitespace(c)
    }
}

/// Whether `c` can be part of a word.
pub open spec fn is_word_char(c: char) -> bool {
    is_letter_or_digit(c) || c == '_'
}

/// The token kind of a punctuation character, if `c` is one.
pub open spec fn punctuation_type(c: char) -> Option<TokenType> {
    if c == ':' {
        Some(TokenType::Colon)
    } else if c == ',' {
        Some(TokenType::Comma)
    } else if c == '(' {
        Some(TokenType::OpenParen)
    } else if c == ')' {
        Some(TokenType::CloseParen)
    } else if c == '{' {
        Some(TokenType::OpenCurly)
    } else if c == '}' {
        Some(TokenType::CloseCurly)
    } else {
        None
    }
}

/// Whether every character of `w` is an ASCII digit.
pub open spec fn all_digits(w: Seq<char>) -> bool {
    forall|k: int| 0 <= k < w.len() ==> '0' <= #[trigger] w[k] && w[k] <= '9'
}

/// The token kind of the word `w`.
pub open spec fn word_type(w: Seq<char>) -> TokenType {
    if all_digits(w) {
        TokenType::Number
    } else if w == "do"@ {
        TokenType::Do
    } else if w == "else"@ {
        TokenType::Else
    } else if w == "goto"@ {
        TokenType::Goto
    } else if w == "if"@ {
        TokenType::If
    } else if w == "main"@ {
        TokenType::Main
    } else if w == "operation"@ {
        TokenType::Operation
    } else if w == "test"@ {
        TokenType::Test
    } else if w == "then"@ {
        TokenType::Then
    } else if w == "inc"@ {
        TokenType::BuiltInOper(BuiltInOperation::Inc)
    } else if w == "dec"@ {
        TokenType::BuiltInOper(BuiltInOperation::Dec)
    } else if w == "zero"@ {
        TokenType::BuiltInTest(BuiltInTest::Zero)
    } else {
        TokenType::Identifier
    }
}

/// Where the word starting at `i` ends: the first index from `i` on that
/// does not hold a word character.
pub open spec fn word_end(s: Seq<char>, i: int) -> int
    decreases s.len() - i,
{
    if i < 0 || i >= s.len() || !is_word_char(s[i]) {
        i
    } else {
        word_end(s, i + 1)
    }
}

/// Where the line of index `i` ends: the first index from `i` on that holds
/// a line feed, or the end of `s`.
pub open spec fn line_end(s: Seq<char>, i: int) -> int
    decreases s.len() - i,
{
    if i < 0 || i >= s.len() || s[i] == '\n' {
        i
    } else {
        line_end(s, i + 1)
    }
}

/// The position after reading the characters of `s` from `i` to `j`,
/// starting at `p`.
pub open spec fn advance_from(s: Seq<char>, i: int, j: int, p: Position) -> Position
    decreases j - i,
{
    if i >= j || i < 0 || i >= s.len() {
        p
    } else {
        advance_from(s, i + 1, j, p.advanced(s[i]))
    }
}

/// A word ends within the source, after its start.
pub proof fn lemma_word_end(s: Seq<char>, i: int)
    requires
        0 <= i <= s.len(),
    ensures
        i <= word_end(s, i) <= s.len(),
    decreases s.len() - i,
{
    if i < s.len() && is_word_char(s[i]) {
        lemma_word_end(s, i + 1);
    }
}

/// A line ends within the source, after the index it contains.
pub proof fn lemma_line_end(s: Seq<char>, i: int)
    requires
        0 <= i <= s.len(),
    ensures
        i <= line_end(s, i) <= s.len(),
    decreases s.len() - i,
{
    if i < s.len() && s[i] != '\n' {
        lemma_line_end(s, i + 1);
    }
}

/// A token as plain values: its kind, its text, and its span.
pub type TokenView = (TokenType, Seq<char>, Span);

impl Token {
    /// The token as plain values.
    pub open spec fn view_of(self) -> TokenView {
        (self.token_type, self.content@, self.span)
    }
}

/// The error for a character that no token can hold.
pub open spec fn invalid_char_error(c: char, p: Position) -> Error {
    Error {
        cause: ErrorCause::InvalidChar(InvalidChar { character: c }),
        span: Some(Span { start: p, end: p.advanced(c) }),
    }
}

/// The error for a `/` that does not start a comment.
pub open spec fn bad_comment_error(p: Position) -> Error {
    Error {
        cause: ErrorCause::BadCommentStart(BadCommentStart),
        span: Some(Span { start: p, end: p.advanced('/') }),
    }
}

/// The tokens and the errors that reading `s` from index `i`, at position
/// `p`, gives.
pub open spec fn lex(s: Seq<char>, i: int, p: Position) -> (Seq<TokenView>, Seq<Error>)
    decreases s.len() - i,
{
    if i < 0 || i >= s.len() {
        (Seq::empty(), Seq::empty())
    } else {
        let c = s[i];
        if is_space(c) {
            lex(s, i + 1, p.advanced(c))
        } else if c == '/' {
            let j = line_end(s, i);
            proof {
                lemma_line_end(s, i + 1);
            }
            let rest = lex(s, j, advance_from(s, i, j, p));
            if i + 1 < s.len() && s[i + 1] == '/' {
                rest
            } else {
                (rest.0, seq![bad_comment_error(p)] + rest.1)
            }
        } else if punctuation_type(c).is_some() {
            let rest = lex(s, i + 1, p.advanced(c));
            (
                seq![(punctuation_type(c).unwrap(), seq![c], Span { start: p, end: p.advanced(c) })]
                    + rest.0,
                rest.1,
            )
        } else if is_word_char(c) {
            let j = word_end(s, i);
            proof {
                lemma_word_end(s, i + 1);
            }
            let q = advance_from(s, i, j, p);
            let w = s.subrange(i, j);
            let rest = lex(s, j, q);
            (seq![(word_type(w), w, Span { start: p, end: q })] + rest.0, rest.1)
        } else {
            let rest = lex(s, i + 1, p.advanced(c));
            (rest.0, seq![invalid_char_error(c, p)] + rest.1)
        }
    }
}

/// Whether `p` is within what reading `i` characters from the start can
/// reach.
pub open spec fn position_bounded(p: Position, i: int) -> bool {
    &&& p.utf8_index <= 4 * i
    &&& p.utf16_index <= 2 * i
    &&& p.line <= i + 1
    &&& p.column <= i + 1
}

proof fn lemma_advance_from_bounded(s: Seq<char>, i: int, j: int, p: Position)
    requires
        0 <= i <= j <= s.len(),
        position_bounded(p, i),
        4 * s.len() + 4 <= usize::MAX,
    ensures
        position_bounded(advance_from(s, i, j, p), j),
    decreases j - i,
{
    if i < j {
        lemma_advance_from_bounded(s, i + 1, j, p.advanced(s[i]));
    }
}

/// Every number token that reading gives holds a nonempty run of ASCII
/// digits.
pub proof fn lemma_lex_numbers(s: Seq<char>, i: int, p: Position)
    ensures
        forall|k: int|
            0 <= k < lex(s, i, p).0.len() && (#[trigger] lex(s, i, p).0[k]).0 == TokenType::Number
                ==> lex(s, i, p).0[k].1.len() > 0 && forall|m: int|
                0 <= m < lex(s, i, p).0[k].1.len() ==> is_decimal_char(
                    #[trigger] lex(s, i, p).0[k].1[m],
                ),
    decreases s.len() - i,
{
    if 0 <= i < s.len() {
        let c = s[i];
        if is_space(c) {
            lemma_lex_numbers(s, i + 1, p.advanced(c));
        } else if c == '/' {
            let j = line_end(s, i);
            lemma_line_end(s, i + 1);
            lemma_lex_numbers(s, j, advance_from(s, i, j, p));
        } else if punctuation_type(c).is_some() {
            lemma_lex_numbers(s, i + 1, p.advanced(c));
            let rest = lex(s, i + 1, p.advanced(c));
            let all = lex(s, i, p).0;
            assert forall|k: int|
                0 <= k < all.len() && (#[trigger] all[k]).0 == TokenType::Number implies all[k].1.len()
                > 0 && forall|m: int| 0 <= m < all[k].1.len() ==> is_decimal_char(
                #[trigger] all[k].1[m],
            ) by {
                assert(k > 0);
                assert(all[k] == rest.0[k - 1]);
            }
        } else if is_word_char(c) {
            let j = word_end(s, i);
            lemma_word_end(s, i + 1);
            let q = advance_from(s, i, j, p);
            lemma_lex_numbers(s, j, q);
            let rest = lex(s, j, q);
            let all = lex(s, i, p).0;
            assert forall|k: int|
                0 <= k < all.len() && (#[trigger] all[k]).0 == TokenType::Number implies all[k].1.len()
                > 0 && forall|m: int| 0 <= m < all[k].1.len() ==> is_decimal_char(
                #[trigger] all[k].1[m],
            ) by {
                if k > 0 {
                    assert(all[k] == rest.0[k - 1]);
                } else {
                    let w = s.subrange(i, j);
                    assert(all[0].1 == w);
                    assert(all_digits(w));
                    assert forall|m: int| 0 <= m < w.len() implies is_decimal_char(#[trigger] w[m]) by {
                        assert('0' <= w[m] && w[m] <= '9');
                    }
                }
            }
        } else {
            lemma_lex_numbers(s, i + 1, p.advanced(c));
        }
    }
}

/// The word from `i` holds only word characters.
proof fn lemma_word_chars(s: Seq<char>, i: int, k: int)
    requires
        0 <= i <= k < word_end(s, i),
    ensures
        is_word_char(s[k]),
    decreases k - i,
{
    if i < k {
        lemma_word_chars(s, i + 1, k);
    }
}

/// Reading characters that are no line feed stays on the line, one column
/// per character, and never moves back in the text.
proof fn lemma_advance_within_line(s: Seq<char>, i: int, j: int, p: Position)
    requires
        0 <= i <= j <= s.len(),
        forall|k: int| i <= k < j ==> s[k] != '\n',
        position_bounded(p, i),
        4 * s.len() + 4 <= usize::MAX,
    ensures
        advance_from(s, i, j, p).line == p.line,
        advance_from(s, i, j, p).column == p.column + (j - i),
    decreases j - i,
{
    if i < j {
        lemma_advance_from_bounded(s, i, i + 1, p);
        assert(advance_from(s, i + 1, i + 1, p.advanced(s[i])) == p.advanced(s[i]));
        lemma_advance_within_line(s, i + 1, j, p.advanced(s[i]));
    }
}

/// Reading characters never moves back in the text.
proof fn lemma_advance_forward(s: Seq<char>, i: int, j: int, p: Position)
    requires
        0 <= i <= j <= s.len(),
        position_bounded(p, i),
        4 * s.len() + 4 <= usize::MAX,
    ensures
        advance_from(s, i, j, p).utf8_index >= p.utf8_index,
        position_bounded(advance_from(s, i, j, p), j),
    decreases j - i,
{
    lemma_advance_from_bounded(s, i, j, p);
    if i < j {
        lemma_advance_from_bounded(s, i, i + 1, p);
        assert(advance_from(s, i + 1, i + 1, p.advanced(s[i])) == p.advanced(s[i]));
        lemma_advance_forward(s, i + 1, j, p.advanced(s[i]));
    }
}

/// Every token that reading gives spans its own text on one line, one
/// column per character; the tokens come in the order of the text, each
/// starting no earlier than the previous one ends.
pub proof fn lemma_lex_spans(s: Seq<char>, i: int, p: Position)
    requires
        0 <= i <= s.len(),
        position_bounded(p, i),
        4 * s.len() + 4 <= usize::MAX,
    ensures
        forall|k: int|
            0 <= k < lex(s, i, p).0.len() ==> {
                let span = (#[trigger] lex(s, i, p).0[k]).2;
                &&& span.start.line == span.end.line
                &&& span.end.column == span.start.column + lex(s, i, p).0[k].1.len()
                &&& p.utf8_index <= span.start.utf8_index <= span.end.utf8_index
            },
        forall|k: int|
            0 <= k < lex(s, i, p).0.len() - 1 ==> (#[trigger] lex(s, i, p).0[k]).2.end.utf8_index
                <= lex(s, i, p).0[k + 1].2.start.utf8_index,
    decreases s.len() - i,
{
    if i < s.len() {
        let c = s[i];
        let all = lex(s, i, p).0;
        lemma_advance_from_bounded(s, i, i + 1, p);
        lemma_advance_forward(s, i, i + 1, p);
        assert(advance_from(s, i + 1, i + 1, p.advanced(c)) == p.advanced(c));
        assert(advance_from(s, i, i + 1, p) == p.advanced(c));
        if is_space(c) {
            lemma_lex_spans(s, i + 1, p.advanced(c));
            assert(all == lex(s, i + 1, p.advanced(c)).0);
        } else if c == '/' {
            let j = line_end(s, i);
            lemma_line_end(s, i + 1);
            lemma_advance_forward(s, i, j, p);
            lemma_lex_spans(s, j, advance_from(s, i, j, p));
            assert(all == lex(s, j, advance_from(s, i, j, p)).0);
        } else if punctuation_type(c).is_some() {
            let q = p.advanced(c);
            lemma_lex_spans(s, i + 1, q);
            let rest = lex(s, i + 1, q).0;
            assert forall|k: int| 0 <= k < all.len() implies {
                let span = (#[trigger] all[k]).2;
                &&& span.start.line == span.end.line
                &&& span.end.column == span.start.column + all[k].1.len()
                &&& p.utf8_index <= span.start.utf8_index <= span.end.utf8_index
            } by {
                if k > 0 {
                    assert(all[k] == rest[k - 1]);
                }
            }
            assert forall|k: int| 0 <= k < all.len() - 1 implies (#[trigger] all[k]).2.end.utf8_index
                <= all[k + 1].2.start.utf8_index by {
                assert(all[k + 1] == rest[k]);
                if k > 0 {
                    assert(all[k] == rest[k - 1]);
                }
            }
        } else if is_word_char(c) {
            let j = word_end(s, i);
            lemma_word_end(s, i + 1);
            assert forall|k: int| i <= k < j implies s[k] != '\n' by {
                lemma_word_chars(s, i, k);
            }
            lemma_advance_within_line(s, i, j, p);
            lemma_advance_forward(s, i, j, p);
            let q = advance_from(s, i, j, p);
            lemma_lex_spans(s, j, q);
            let rest = lex(s, j, q).0;
            assert forall|k: int| 0 <= k < all.len() implies {
                let span = (#[trigger] all[k]).2;
                &&& span.start.line == span.end.line
                &&& span.end.column == span.start.column + all[k].1.len()
                &&& p.utf8_index <= span.start.utf8_index <= span.end.utf8_index
            } by {
                if k > 0 {
                    assert(all[k] == rest[k - 1]);
                }
            }
            assert forall|k: int| 0 <= k < all.len() - 1 implies (#[trigger] all[k]).2.end.utf8_index
                <= all[k + 1].2.start.utf8_index by {
                assert(all[k + 1] == rest[k]);
                if k > 0 {
                    assert(all[k] == rest[k - 1]);
                }
            }
        } else {
            lemma_lex_spans(s, i + 1, p.advanced(c));
            assert(all == lex(s, i + 1, p.advanced(c)).0);
        }
    }
}

/// Reading from `i` to `k` is reading from `i` to `j`, then on to `k`.
proof fn lemma_advance_compose(s: Seq<char>, i: int, j: int, k: int, p: Position)
    requires
        0 <= i <= j <= k <= s.len(),
    ensures
        advance_from(s, i, k, p) == advance_from(s, j, k, advance_from(s, i, j, p)),
    decreases j - i,
{
    if i < j {
        lemma_advance_compose(s, i + 1, j, k, p.advanced(s[i]));
    }
}

/// Whether the token `t` holds the text of `s` from index `a` to index `b`,
/// and its span goes from the position that reading from `i` at `p` reaches
/// at `a` to the one it reaches at `b`.
pub open spec fn token_covers(s: Seq<char>, i: int, p: Position, t: TokenView, a: int, b: int) -> bool {
    &&& i <= a <= b <= s.len()
    &&& t.1 == s.subrange(a, b)
    &&& t.2.start == advance_from(s, i, a, p)
    &&& t.2.end == advance_from(s, i, b, p)
}

/// Whether the token `t` holds the text of `s` between two indices, with its
/// span going from the position that reading from `i` at `p` reaches at the
/// first to the one it reaches at the second.
pub open spec fn token_in_text(s: Seq<char>, i: int, p: Position, t: TokenView) -> bool {
    exists|a: int, b: int| #[trigger] token_covers(s, i, p, t, a, b)
}

/// The tokens read from `j`, where reading from `i` at `p` gets to `j`, each
/// stand in the text as read from `i`.
proof fn lemma_rest_in_text(s: Seq<char>, i: int, j: int, p: Position)
    requires
        0 <= i <= j <= s.len(),
    ensures
        forall|k: int|
            0 <= k < lex(s, j, advance_from(s, i, j, p)).0.len() ==> token_in_text(
                s,
                i,
                p,
                #[trigger] lex(s, j, advance_from(s, i, j, p)).0[k],
            ),
    decreases s.len() - j, 2int,
{
    let q = advance_from(s, i, j, p);
    let rest = lex(s, j, q).0;
    lemma_lex_texts(s, j, q);
    assert forall|k: int| 0 <= k < rest.len() implies token_in_text(s, i, p, #[trigger] rest[k]) by {
        assert(token_in_text(s, j, q, rest[k]));
        let (a, b) = choose|a: int, b: int| #[trigger] token_covers(s, j, q, rest[k], a, b);
        lemma_advance_compose(s, i, j, a, p);
        lemma_advance_compose(s, i, j, b, p);
        assert(token_covers(s, i, p, rest[k], a, b));
    }
}

/// Every token that reading gives is the stretch of the text between two
/// indices, and its span goes from the position reached at the first to
/// the position reached at the second.
pub proof fn lemma_lex_texts(s: Seq<char>, i: int, p: Position)
    requires
        0 <= i <= s.len(),
    ensures
        forall|k: int|
            0 <= k < lex(s, i, p).0.len() ==> token_in_text(s, i, p, #[trigger] lex(s, i, p).0[k]),
    decreases s.len() - i, 1int,
{
    if i < s.len() {
        let c = s[i];
        let all = lex(s, i, p).0;
        assert(advance_from(s, i + 1, i + 1, p.advanced(c)) == p.advanced(c));
        assert(advance_from(s, i, i + 1, p) == p.advanced(c));
        assert(advance_from(s, i, i, p) == p);
        if is_space(c) {
            lemma_rest_in_text(s, i, i + 1, p);
            assert(all == lex(s, i + 1, advance_from(s, i, i + 1, p)).0);
        } else if c == '/' {
            let j = line_end(s, i);
            lemma_line_end(s, i + 1);
            lemma_rest_in_text(s, i, j, p);
            assert(all == lex(s, j, advance_from(s, i, j, p)).0);
        } else if punctuation_type(c).is_some() {
            lemma_rest_in_text(s, i, i + 1, p);
            let rest = lex(s, i + 1, advance_from(s, i, i + 1, p)).0;
            assert forall|k: int| 0 <= k < all.len() implies token_in_text(s, i, p, #[trigger] all[k]) by {
                if k == 0 {
                    assert(s.subrange(i, i + 1) =~= seq![c]);
                    assert(token_covers(s, i, p, all[k], i, i + 1));
                } else {
                    assert(all[k] == rest[k - 1]);
                }
            }
        } else if is_word_char(c) {
            let j = word_end(s, i);
            lemma_word_end(s, i + 1);
            lemma_rest_in_text(s, i, j, p);
            let rest = lex(s, j, advance_from(s, i, j, p)).0;
            assert forall|k: int| 0 <= k < all.len() implies token_in_text(s, i, p, #[trigger] all[k]) by {
                if k == 0 {
                    assert(token_covers(s, i, p, all[k], i, j));
                } else {
                    assert(all[k] == rest[k - 1]);
                }
            }
        } else {
            lemma_rest_in_text(s, i, i + 1, p);
            assert(all == lex(s, i + 1, advance_from(s, i, i + 1, p)).0);
        }
    }
}

/// The characters of `source`, in order.
fn chars_of(source: &str) -> (result: Vec<char>)
    ensures
        result@ == source@,
{
    let mut result: Vec<char> = Vec::new();
    for c in it: source.chars()
        invariant
            it.seq() == source@,
            result@ == it.seq().take(it.index() as int),
    {
        result.push(c);
        proof {
            assert(result@ =~= it.seq().take(it.index() + 1));
        }
    }
    proof {
        assert(result@ =~= source@);
    }
    result
}

/// The kind of the token written `word`.
fn classify_word(word: &String) -> (result: TokenType)
    ensures
        result == word_type(word@),
{
    let chars = chars_of(word.as_str());
    let mut digits = true;
    let mut k: usize = 0;
    while k < chars.len()
        invariant
            chars@ == word@,
            k <= chars@.len(),
            digits == (forall|m: int| 0 <= m < k ==> '0' <= #[trigger] chars@[m] && chars@[m] <= '9'),
        decreases chars@.len() - k,
    {
        if !('0' <= chars[k] && chars[k] <= '9') {
            digits = false;
        }
        k = k + 1;
    }
    if digits {
        TokenType::Number
    } else if *word == String::from_str("do") {
        TokenType::Do
    } else if *word == String::from_str("else") {
        TokenType::Else
    } else if *word == String::from_str("goto") {
        TokenType::Goto
    } else if *word == String::from_str("if") {
        TokenType::If
    } else if *word == String::from_str("main") {
        TokenType::Main
    } else if *word == String::from_str("operation") {
        TokenType::Operation
    } else if *word == String::from_str("test") {
        TokenType::Test
    } else if *word == String::from_str("then") {
        TokenType::Then
    } else if *word == String::from_str("inc") {
        TokenType::BuiltInOper(BuiltInOperation::Inc)
    } else if *word == String::from_str("dec") {
        TokenType::BuiltInOper(BuiltInOperation::Dec)
    } else if *word == String::from_str("zero") {
        TokenType::BuiltInTest(BuiltInTest::Zero)
    } else {
        TokenType::Identifier
    }
}

/// The kind of token of a punctuation character, if `c` is one.
fn punctuation(c: char) -> (result: Option<TokenType>)
    ensures
        result == punctuation_type(c),
{
    if c == ':' {
        Some(TokenType::Colon)
    } else if c == ',' {
        Some(TokenType::Comma)
    } else if c == '(' {
        Some(TokenType::OpenParen)
    } else if c == ')' {
        Some(TokenType::CloseParen)
    } else if c == '{' {
        Some(TokenType::OpenCurly)
    } else if c == '}' {
        Some(TokenType::CloseCurly)
    } else {
        None
    }
}

/// Reads `source` into tokens, raising in `diagnostics` an error for each
/// character that no token can hold and for each `/` that does not start a
/// comment.
pub fn generate_tokens(source: &str, diagnostics: &mut Diagnostics) -> (tokens: Vec<Token>)
    requires
        4 * source@.len() + 4 <= usize::MAX,
    ensures
        tokens@.map_values(|token: Token| token.view_of()) == lex(source@, 0, start_position()).0,
        final(diagnostics)@ == old(diagnostics)@ + lex(source@, 0, start_position()).1,
{
    let chars = chars_of(source);
    let ghost s = chars@;
    let n = chars.len();
    let mut tokens: Vec<Token> = Vec::new();
    let mut position = Position::default();
    let mut i: usize = 0;
    let ghost total = lex(s, 0, start_position());
    proof {
        assert(tokens@.map_values(|token: Token| token.view_of()) =~= Seq::<TokenView>::empty());
    }
    while i < n
        invariant
            s == chars@,
            s == source@,
            n == s.len(),
            4 * s.len() + 4 <= usize::MAX,
            i <= n,
            position_bounded(position, i as int),
            total == lex(s, 0, start_position()),
            tokens@.map_values(|token: Token| token.view_of()) + lex(s, i as int, position).0
                == total.0,
            diagnostics@ + lex(s, i as int, position).1 == old(diagnostics)@ + total.1,
        decreases n - i,
    {
        let c = chars[i];
        let ghost old_tokens = tokens@.map_values(|token: Token| token.view_of());
        let ghost old_errors = diagnostics@;
        let ghost here = lex(s, i as int, position);
        let start = position;
        let start_index = i;
        if is_whitespace(c) {
            position.update(c);
            i = i + 1;
            proof {
                assert(here == lex(s, i as int, position));
            }
        } else if c == '/' {
            let comment = i + 1 < n && chars[i + 1] == '/';
            let ghost j = line_end(s, i as int);
            proof {
                lemma_line_end(s, i as int);
            }
            while i < n && chars[i] != '\n'
                invariant
                    s == chars@,
                    n == s.len(),
                    4 * s.len() + 4 <= usize::MAX,
                    start_index <= i <= j <= n,
                    j == line_end(s, i as int),
                    position_bounded(position, i as int),
                    advance_from(s, i as int, j, position) == advance_from(
                        s,
                        start_index as int,
                        j,
                        start,
                    ),
                decreases n - i,
            {
                proof {
                    lemma_line_end(s, i + 1);
                }
                position.update(chars[i]);
                i = i + 1;
            }
            if !comment {
                let mut span = Span::from_start(start);
                span.update('/');
                diagnostics.raise(Error::new(ErrorCause::BadCommentStart(BadCommentStart), span));
            }
            proof {
                assert(i == j);
                let rest = lex(s, j, advance_from(s, start_index as int, j, start));
                assert(rest == lex(s, i as int, position));
                if !comment {
                    assert(here.1 == seq![bad_comment_error(start)] + rest.1);
                    assert(diagnostics@ + rest.1 =~= old_errors + here.1);
                } else {
                    assert(here == rest);
                }
            }
        } else {
            match punctuation(c) {
                Some(token_type) => {
                    let mut content = String::new();
                    push_char(&mut content, c);
                    let mut span = Span::from_start(start);
                    span.update(c);
                    tokens.push(Token { token_type, content, span });
                    position.update(c);
                    i = i + 1;
                    proof {
                        assert(content@ =~= seq![c]);
                        let rest = lex(s, i as int, position);
                        assert(here.0 == seq![(token_type, seq![c], span)] + rest.0);
                        assert(tokens@.map_values(|token: Token| token.view_of()) =~= old_tokens.push(
                            (token_type, seq![c], span),
                        ));
                        assert(tokens@.map_values(|token: Token| token.view_of()) + rest.0
                            =~= old_tokens + here.0);
                    }
                },
                None => {
                    if is_alphanumeric(c) || c == '_' {
                        let ghost j = word_end(s, i as int);
                        proof {
                            lemma_word_end(s, i as int);
                        }
                        let mut content = String::new();
                        while i < n && (is_alphanumeric(chars[i]) || chars[i] == '_')
                            invariant
                                s == chars@,
                                n == s.len(),
                                4 * s.len() + 4 <= usize::MAX,
                                start_index <= i <= j <= n,
                                j == word_end(s, i as int),
                                j == word_end(s, start_index as int),
                                position_bounded(position, i as int),
                                content@ == s.subrange(start_index as int, i as int),
                                advance_from(s, i as int, j, position) == advance_from(
                                    s,
                                    start_index as int,
                                    j,
                                    start,
                                ),
                            decreases n - i,
                        {
                            proof {
                                lemma_word_end(s, i + 1);
                            }
                            push_char(&mut content, chars[i]);
                            position.update(chars[i]);
                            i = i + 1;
                            proof {
                                assert(content@ =~= s.subrange(start_index as int, i as int));
                            }
                        }
                        let token_type = classify_word(&content);
                        let span = Span { start, end: position };
                        tokens.push(Token { token_type, content, span });
                        proof {
                            assert(i == j);
                            let rest = lex(s, i as int, position);
                            assert(here.0 == seq![(token_type, content@, span)] + rest.0);
                            assert(tokens@.map_values(|token: Token| token.view_of())
                                =~= old_tokens.push((token_type, content@, span)));
                            assert(tokens@.map_values(|token: Token| token.view_of()) + rest.0
                                =~= old_tokens + here.0);
                        }
                    } else {
                        let mut span = Span::from_start(start);
                        span.update(c);
                        diagnostics.raise(
                            Error::new(ErrorCause::InvalidChar(InvalidChar { character: c }), span),
                        );
                        position.update(c);
                        i = i + 1;
                        proof {
                            let rest = lex(s, i as int, position);
                            assert(here.1 == seq![invalid_char_error(c, start)] + rest.1);
                            assert(diagnostics@ + rest.1 =~= old_errors + here.1);
                        }
                    }
                },
            }
        }
    }
    proof {
        assert(lex(s, i as int, position).0 =~= Seq::<TokenView>::empty());
        assert(tokens@.map_values(|token: Token| token.view_of()) =~= total.0);
        assert(diagnostics@ =~= old(diagnostics)@ + total.1);
    }
    tokens
}

} // verus!
