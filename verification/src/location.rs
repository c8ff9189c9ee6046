//! Source locations: 1-indexed line and column over Unicode code points.
//! The column resets to 1 and the line increments immediately after a line
//! feed is consumed.

use vstd::prelude::*;

verus! {

/// Represents a location in the source text.
#[derive(Debug, Clone, Copy, PartialEq, Eq, Structural)]
pub struct Location {
    pub line: usize,
    pub col: usize,
}

impl Location {
    /// The line number in the source text.
    pub fn line(&self) -> (r: usize)
        ensures
            r == self.line,
    {
        self.line
    }

    /// The column number in the source text.
    pub fn col(&self) -> (r: usize)
        ensures
            r == self.col,
    {
        self.col
    }
}

impl Default for Location {
    /// The location of a scanner that has consumed nothing: line 1, column 1.
    fn default() -> (r: Self)
        ensures
            r == start_location(),
    {
        Location { line: 1, col: 1 }
    }
}

/// The location before anything has been consumed.
pub open spec fn start_location() -> Location {
    Location { line: 1, col: 1 }
}

/// Counter increment that never overflows; line and column stop moving at
/// `usize::MAX` rather than wrap (unreachable for any input that fits in
/// memory, but the scanner must not be able to panic).
pub open spec fn sat_inc(n: usize) -> usize {
    if n < usize::MAX {
        (n + 1) as usize
    } else {
        n
    }
}

/// The location after consuming one more character at `loc`.
pub open spec fn advance_location(loc: Location, c: char) -> Location {
    if c == '\n' {
        Location { line: sat_inc(loc.line), col: 1 }
    } else {
        Location { line: loc.line, col: sat_inc(loc.col) }
    }
}

/// The location of a scanner over `s` that has consumed exactly the first
/// `k` characters.
pub open spec fn location_at(s: Seq<char>, k: int) -> Location
    decreases k,
{
    if k <= 0 {
        start_location()
    } else {
        advance_location(location_at(s, k - 1), s[k - 1])
    }
}

/// Executable saturating increment.
pub fn checked_inc(n: usize) -> (r: usize)
    ensures
        r == sat_inc(n),
{
    if n < usize::MAX {
        n + 1
    } else {
        n
    }
}

} // verus!
