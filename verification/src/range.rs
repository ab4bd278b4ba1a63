use vstd::prelude::*;

verus! {

/// Half-open byte interval `[start, end)` into a specific text snapshot.
///
/// A range is only meaningful against the exact string it was computed
/// from; ranges taken from different snapshots are never comparable.
#[derive(Debug, Clone, Copy, PartialEq, Eq, Hash, Structural)]
pub struct TextRange {
    start: usize,
    end: usize,
}

impl TextRange {
    /// The start byte, in spec position.
    pub closed spec fn spec_start(self) -> usize {
        self.start
    }

    /// The end byte, in spec position.
    pub closed spec fn spec_end(self) -> usize {
        self.end
    }

    /// A well-formed range never runs backwards.
    pub open spec fn wf(self) -> bool {
        self.spec_start() <= self.spec_end()
    }

    /// Build a range; a backwards interval is a caller error.
    pub fn new(start: usize, end: usize) -> (r: Self)
        requires
            start <= end,
        ensures
            r.spec_start() == start,
            r.spec_end() == end,
            r.wf(),
    {
        Self { start, end }
    }

    /// The start point of this range.
    #[verifier::when_used_as_spec(spec_start)]
    pub fn start(self) -> (r: usize)
        ensures
            r == self.spec_start(),
    {
        self.start
    }

    /// The end point of this range.
    #[verifier::when_used_as_spec(spec_end)]
    pub fn end(self) -> (r: usize)
        ensures
            r == self.spec_end(),
    {
        self.end
    }
}

} // verus!
