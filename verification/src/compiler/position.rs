//! Positions in source code, and spans between two positions.

use crate::natural::{decimal, Natural};
use vstd::prelude::*;
use vstd::string::StringExecFns;

verus! {

/// The number of bytes that `c` takes in UTF-8.
pub open spec fn utf8_len(c: char) -> nat {
    if (c as u32) < 0x80 {
        1
    } else if (c as u32) < 0x800 {
        2
    } else if (c as u32) < 0x10000 {
        3
    } else {
        4
    }
}

/// The number of 16-bit units that `c` takes in UTF-16.
pub open spec fn utf16_len(c: char) -> nat {
    if (c as u32) < 0x10000 {
        1
    } else {
        2
    }
}

/// A position in source code, that of the character about to be read.
#[derive(Debug, Clone, Copy, PartialEq, Eq, Structural, PartialOrd, Ord, Hash)]
pub struct Position {
    /// The index of the character in the UTF-8 bytes of the source.
    pub utf8_index: usize,
    /// The index of the character in the UTF-16 units of the source.
    pub utf16_index: usize,
    /// The line, counted from one.
    pub line: u64,
    /// The column, counted from one.
    pub column: u64,
}

/// The position of the first character of a source.
pub open spec fn start_position() -> Position {
    Position { utf8_index: 0, utf16_index: 0, line: 1, column: 1 }
}

impl Default for Position {
    /// The position of the first character of a source.
    fn default() -> (result: Self)
        ensures
            result == start_position(),
    {
        Position { utf8_index: 0, utf16_index: 0, line: 1, column: 1 }
    }
}

impl Position {
    /// Whether the position can move past one more character without its
    /// counters overflowing.
    pub open spec fn can_advance(self) -> bool {
        &&& self.utf8_index + 4 <= usize::MAX
        &&& self.utf16_index + 2 <= usize::MAX
        &&& self.line < u64::MAX
        &&& self.column < u64::MAX
    }

    /// The position after reading `c`: a newline moves to the first column of
    /// the next line, any other character to the next column.
    pub open spec fn advanced(self, c: char) -> Position {
        Position {
            utf8_index: (self.utf8_index + utf8_len(c)) as usize,
            utf16_index: (self.utf16_index + utf16_len(c)) as usize,
            line: if c == '\n' {
                (self.line + 1) as u64
            } else {
                self.line
            },
            column: if c == '\n' {
                1
            } else {
                (self.column + 1) as u64
            },
        }
    }

    /// Moves to the first column of the next line.
    fn update_newline(&mut self)
        requires
            old(self).line < u64::MAX,
        ensures
            *final(self) == (Position { line: (old(self).line + 1) as u64, column: 1, ..*old(self) }),
    {
        self.line = self.line + 1;
        self.column = 1;
    }

    /// Moves to the next column.
    fn update_column(&mut self)
        requires
            old(self).column < u64::MAX,
        ensures
            *final(self) == (Position { column: (old(self).column + 1) as u64, ..*old(self) }),
    {
        self.column = self.column + 1;
    }

    /// Moves the indices past `character`.
    fn update_indices(&mut self, character: char)
        requires
            old(self).can_advance(),
        ensures
            *final(self) == (Position {
                utf8_index: (old(self).utf8_index + utf8_len(character)) as usize,
                utf16_index: (old(self).utf16_index + utf16_len(character)) as usize,
                ..*old(self)
            }),
    {
        let code = character as u32;
        let (utf8, utf16): (usize, usize) = if code < 0x80 {
            (1, 1)
        } else if code < 0x800 {
            (2, 1)
        } else if code < 0x10000 {
            (3, 1)
        } else {
            (4, 2)
        };
        self.utf8_index = self.utf8_index + utf8;
        self.utf16_index = self.utf16_index + utf16;
    }

    /// Moves past `character`.
    pub fn update(&mut self, character: char)
        requires
            old(self).can_advance(),
        ensures
            *final(self) == old(self).advanced(character),
    {
        self.update_indices(character);
        if character == '\n' {
            self.update_newline();
        } else {
            self.update_column();
        }
    }

    /// The position as it reads in messages: `linha L e coluna C`.
    pub open spec fn spec_text(self) -> Seq<char> {
        "linha "@ + decimal(self.line as nat) + " e coluna "@ + decimal(self.column as nat)
    }

    /// The position as it reads in messages: `linha L e coluna C`.
    pub fn text(&self) -> (result: String)
        ensures
            result@ == self.spec_text(),
    {
        let mut result = String::from_str("linha ");
        result.append(Natural::from_u64(self.line).to_decimal().as_str());
        result.append(" e coluna ");
        result.append(Natural::from_u64(self.column).to_decimal().as_str());
        result
    }
}

/// A stretch of source code, from `start` (included) to `end` (excluded).
#[derive(Debug, Clone, Copy, PartialEq, Eq, Structural, PartialOrd, Ord, Hash)]
pub struct Span {
    pub start: Position,
    pub end: Position,
}

impl Default for Span {
    /// The empty span at the first character of a source.
    fn default() -> (result: Self)
        ensures
            result == Span::spec_from_start(start_position()),
    {
        Span::from_start(Position::default())
    }
}

impl Span {
    /// The empty span at `start`.
    pub open spec fn spec_from_start(start: Position) -> Span {
        Span { start, end: start }
    }

    /// The empty span at `start`.
    pub fn from_start(start: Position) -> (result: Span)
        ensures
            result == Span::spec_from_start(start),
    {
        Span { start, end: start }
    }

    /// Extends the span past `character`.
    pub fn update(&mut self, character: char)
        requires
            old(self).end.can_advance(),
        ensures
            final(self).start == old(self).start,
            final(self).end == old(self).end.advanced(character),
    {
        self.end.update(character);
    }

    /// Makes the span empty, at its end.
    pub fn finish(&mut self)
        ensures
            final(self).start == old(self).end,
            final(self).end == old(self).end,
    {
        self.start = self.end;
    }

    /// The span as it reads in messages: `na linha L e coluna C` for one
    /// character, `da linha L e coluna C, até a coluna D` within a line, and
    /// `da linha L e coluna C, até a linha M e coluna D` across lines, where
    /// `D` is the column of the last character.
    pub open spec fn spec_text(self) -> Seq<char> {
        let last_column = (self.end.column - 1) as u64;
        if self.start.line != self.end.line {
            "da "@ + self.start.spec_text() + ", até a "@ + (Position {
                column: last_column,
                ..self.end
            }).spec_text()
        } else if self.start.column + 1 == self.end.column {
            "na "@ + self.start.spec_text()
        } else {
            "da "@ + self.start.spec_text() + ", até a coluna "@ + decimal(last_column as nat)
        }
    }

    /// The span as it reads in messages.
    pub fn text(&self) -> (result: String)
        requires
            self.end.column >= 1,
        ensures
            result@ == self.spec_text(),
    {
        let last_column = self.end.column - 1;
        if self.start.line != self.end.line {
            let last = Position { column: last_column, ..self.end };
            let mut result = String::from_str("da ");
            result.append(self.start.text().as_str());
            result.append(", até a ");
            result.append(last.text().as_str());
            result
        } else if self.start.column as u128 + 1 == self.end.column as u128 {
            let mut result = String::from_str("na ");
            result.append(self.start.text().as_str());
            result
        } else {
            let mut result = String::from_str("da ");
            result.append(self.start.text().as_str());
            result.append(", até a coluna ");
            result.append(Natural::from_u64(last_column).to_decimal().as_str());
            result
        }
    }
}

} // verus!
