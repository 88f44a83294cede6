//! Source positions attached to IR nodes that originate from text.

use vstd::prelude::*;

verus! {

/// A source position in an `.arn` file. Spans are never part of the
/// semantic identity of the IR; they only serve diagnostics.
#[derive(Debug, Clone, Copy, PartialEq, Eq, Structural, Default, Hash)]
pub struct Span {
    /// 1-based line number.
    pub line: u32,
    /// 1-based column number (in characters).
    pub col: u32,
}

impl Span {
    /// Creates a new span.
    pub fn new(line: u32, col: u32) -> (r: Self)
        ensures
            r.line == line,
            r.col == col,
    {
        Span { line, col }
    }
}

} // verus!
