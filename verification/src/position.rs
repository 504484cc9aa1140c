//! Positions in a text, by line and character, and ranges between two of them.

use vstd::prelude::*;

verus! {

/// A place in a text: a line, and a character on that line, both counted from zero.
/// Characters are counted in Unicode scalar values.
#[derive(Clone, Copy, Debug, PartialEq, Eq, Structural)]
pub struct Position {
    pub line: usize,
    pub character: usize,
}

/// A position as a pair of mathematical integers.
pub struct PositionView {
    pub line: int,
    pub character: int,
}

impl View for Position {
    type V = PositionView;

    open spec fn view(&self) -> PositionView {
        PositionView { line: self.line as int, character: self.character as int }
    }
}

impl PositionView {
    /// The position one character further on the same line.
    pub open spec fn step(self) -> PositionView {
        PositionView { line: self.line, character: self.character + 1 }
    }

    /// Order by line, then by character.
    pub open spec fn le(self, other: PositionView) -> bool {
        self.line < other.line || (self.line == other.line && self.character <= other.character)
    }
}

/// The stretch of text from `start` up to, but not including, `end`.
#[derive(Clone, Copy, Debug, PartialEq, Eq, Structural)]
pub struct Range {
    pub start: Position,
    pub end: Position,
}

/// A range between two mathematical positions.
pub struct RangeView {
    pub start: PositionView,
    pub end: PositionView,
}

impl View for Range {
    type V = RangeView;

    open spec fn view(&self) -> RangeView {
        RangeView { start: self.start@, end: self.end@ }
    }
}

} // verus!
