//! Source coordinates: 1-indexed line, column advanced per character.

use vstd::prelude::*;

verus! {

/// A source position. Lines are 1-indexed; the column is reset to 0 by a
/// newline, so the first character of each line stands at column 1.
#[derive(Debug, Clone, Copy, PartialEq, Eq, Structural)]
pub struct Position {
    pub line: usize,
    pub column: usize,
}

impl Position {
    pub fn new(line: usize, column: usize) -> (r: Self)
        ensures
            r.line == line,
            r.column == column,
    {
        Self { line, column }
    }
}

} // verus!
