//! Positions and ranges in a text document, in the shape the language
//! server protocol uses: a zero-based line and a zero-based column.
use vstd::prelude::*;

verus! {

/// A zero-based line and column.
#[derive(Clone, Copy, Debug, PartialEq, Eq, Structural)]
pub struct Position {
    pub line: u32,
    pub character: u32,
}

/// A span between two positions.
#[derive(Clone, Copy, Debug, PartialEq, Eq, Structural)]
pub struct Range {
    pub start: Position,
    pub end: Position,
}

/// The position at `line` and column `character`, each truncated to `u32`.
pub open spec fn pos(line: int, character: int) -> Position {
    Position { line: line as u32, character: character as u32 }
}

/// The range on `line` from column `a` to column `b`.
pub open spec fn line_range(line: int, a: int, b: int) -> Range {
    Range { start: pos(line, a), end: pos(line, b) }
}

} // verus!
