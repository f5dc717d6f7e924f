//! Lines and columns of the source text.

use vstd::prelude::*;
use crate::chars::NEWLINE;

verus! {

/// A place in the text as a person reads it.
#[derive(Clone, Copy, Debug, PartialEq, Eq, Structural)]
pub struct Position {
    /// The line, counted from 1.
    pub line: usize,
    /// The number of bytes between the start of the line and the place.
    pub column: usize,
}

/// `n + 1`, held at the largest `usize`.
pub open spec fn bump(n: usize) -> usize {
    if n < usize::MAX {
        (n + 1) as usize
    } else {
        n
    }
}

impl Position {
    /// The place before the first byte: line 1, column 0.
    pub open spec fn origin() -> Position {
        Position { line: 1, column: 0 }
    }

    /// The place after one more byte: a line feed starts the next line at
    /// column 0, any other byte moves one column on. Both counters stay at the
    /// largest `usize` once they have reached it.
    pub open spec fn after(self, c: u8) -> Position {
        if c == NEWLINE {
            Position { line: bump(self.line), column: 0 }
        } else {
            Position { line: self.line, column: bump(self.column) }
        }
    }

    /// The place before the first byte.
    pub fn start() -> (p: Position)
        ensures
            p == Position::origin(),
    {
        Position { line: 1, column: 0 }
    }

    /// The place after one more byte, `c`.
    pub fn advance(self, c: u8) -> (p: Position)
        ensures
            p == self.after(c),
    {
        if c == NEWLINE {
            let line: usize = if self.line < usize::MAX {
                self.line + 1
            } else {
                self.line
            };
            Position { line, column: 0 }
        } else {
            let column: usize = if self.column < usize::MAX {
                self.column + 1
            } else {
                self.column
            };
            Position { line: self.line, column }
        }
    }
}

/// The place reached after the first `offset` bytes of `s`, and the place
/// after the whole of `s` where `offset` lies beyond it.
pub open spec fn position_of(s: Seq<u8>, offset: int) -> Position
    decreases offset,
{
    if offset <= 0 {
        Position::origin()
    } else if offset > s.len() {
        position_of(s, s.len() as int)
    } else {
        position_of(s, offset - 1).after(s[offset - 1])
    }
}

/// The number of line feeds among the first `offset` bytes of `s`.
pub open spec fn newlines_before(s: Seq<u8>, offset: int) -> nat
    decreases offset,
{
    if offset <= 0 || offset > s.len() {
        0
    } else if s[offset - 1] == NEWLINE {
        newlines_before(s, offset - 1) + 1
    } else {
        newlines_before(s, offset - 1)
    }
}

/// Where the line that holds `offset` starts: after the last line feed before
/// `offset`, or at 0.
pub open spec fn line_start(s: Seq<u8>, offset: int) -> int
    decreases offset,
{
    if offset <= 0 || offset > s.len() {
        0
    } else if s[offset - 1] == NEWLINE {
        offset
    } else {
        line_start(s, offset - 1)
    }
}

/// The line of a place is one more than the number of line feeds before it,
/// and its column is its distance from the start of its line, as long as both
/// fit in a `usize`.
pub proof fn lemma_position_counts(s: Seq<u8>, offset: int)
    requires
        0 <= offset <= s.len(),
        offset < usize::MAX,
    ensures
        position_of(s, offset).line == 1 + newlines_before(s, offset),
        position_of(s, offset).column == offset - line_start(s, offset),
        0 <= line_start(s, offset) <= offset,
        newlines_before(s, offset) <= offset,
    decreases offset,
{
    if offset > 0 {
        lemma_position_counts(s, offset - 1);
    }
}

/// The line and column of the byte at `offset`, or of the end of the text
/// where `offset` lies beyond it.
pub fn position_at(source: &[u8], offset: usize) -> (p: Position)
    ensures
        p == position_of(source@, offset as int),
{
    let end: usize = if offset <= source.len() {
        offset
    } else {
        source.len()
    };
    let mut p = Position::start();
    let mut i: usize = 0;
    while i < end
        invariant
            i <= end <= source@.len(),
            p == position_of(source@, i as int),
        decreases end - i,
    {
        p = p.advance(source[i]);
        i = i + 1;
    }
    p
}

} // verus!
