use vstd::prelude::*;

verus! {

/// A 1-based line number.
#[derive(Debug, Clone, Copy, PartialEq, Eq, Structural)]
pub struct LineNumber {
    pub value: usize,
}

impl LineNumber {
    /// Makes a line number with the given value.
    pub fn new(value: usize) -> (r: LineNumber)
        ensures
            r.value == value,
    {
        LineNumber { value }
    }

    /// Makes a line number with the given value. The name is kept for the
    /// callers that build line numbers regardless of whether line numbers are
    /// tracked.
    pub fn new_universal(value: usize) -> (r: LineNumber)
        ensures
            r.value == value,
    {
        LineNumber { value }
    }

    /// The numeric value.
    pub fn value(&self) -> (r: usize)
        ensures
            r == self.value,
    {
        self.value
    }

    /// Moves on to the next line.
    pub fn increase(&mut self)
        requires
            old(self).value < usize::MAX,
        ensures
            final(self).value == old(self).value + 1,
    {
        self.value = self.value + 1;
    }
}

/// The identity of a block, unique within one parse.
#[derive(Debug, Clone, Copy, PartialEq, Eq, Structural)]
pub struct BlockId {
    pub value: usize,
}

impl BlockId {
    /// Makes a block id with the given value.
    pub fn new(value: usize) -> (r: BlockId)
        ensures
            r.value == value,
    {
        BlockId { value }
    }

    /// The numeric value.
    pub fn value(&self) -> (r: usize)
        ensures
            r == self.value,
    {
        self.value
    }
}

} // verus!
