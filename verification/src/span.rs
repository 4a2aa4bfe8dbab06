//! Byte ranges into a source file.

use vstd::prelude::*;

verus! {

/// A half-open byte range `start..end` into a file.
#[derive(Debug, Clone, Copy, PartialEq, Eq, Structural)]
pub struct TextRange {
    pub start: u32,
    pub end: u32,
}

impl TextRange {
    /// Whether the range is the right way round.
    pub open spec fn wf(self) -> bool {
        self.start <= self.end
    }

    /// The range `start..end`.
    pub fn new(start: u32, end: u32) -> (r: TextRange)
        requires
            start <= end,
        ensures
            r.start == start,
            r.end == end,
            r.wf(),
    {
        TextRange { start, end }
    }

    /// The empty range at `offset`.
    pub fn empty(offset: u32) -> (r: TextRange)
        ensures
            r.start == offset,
            r.end == offset,
    {
        TextRange { start: offset, end: offset }
    }

    pub fn start(&self) -> (r: u32)
        ensures
            r == self.start,
    {
        self.start
    }

    pub fn end(&self) -> (r: u32)
        ensures
            r == self.end,
    {
        self.end
    }

    /// How many bytes the range spans.
    pub fn len(&self) -> (r: u32)
        requires
            self.wf(),
        ensures
            r == self.end - self.start,
    {
        self.end - self.start
    }

    /// The smallest range holding both.
    pub open spec fn cover_spec(self, other: TextRange) -> TextRange {
        TextRange {
            start: if self.start <= other.start { self.start } else { other.start },
            end: if self.end >= other.end { self.end } else { other.end },
        }
    }

    /// The smallest range holding both.
    pub fn cover(&self, other: TextRange) -> (r: TextRange)
        ensures
            r == self.cover_spec(other),
    {
        let start = if self.start <= other.start { self.start } else { other.start };
        let end = if self.end >= other.end { self.end } else { other.end };
        TextRange { start, end }
    }

    /// Whether `offset` falls inside the range, its end excluded.
    pub fn contains(&self, offset: u32) -> (r: bool)
        ensures
            r == (self.start <= offset && offset < self.end),
    {
        self.start <= offset && offset < self.end
    }
}

} // verus!
