use crate::source::location::{Location, Place};
use vstd::prelude::*;

verus! {

/// A stretch of text between two locations.
#[derive(Debug, Copy, Clone)]
pub struct Range {
    start: Location,
    end: Location,
}

impl Range {
    pub closed spec fn spec_start(&self) -> Place {
        self.start@
    }

    pub closed spec fn spec_end(&self) -> Place {
        self.end@
    }

    pub fn new(start: Location, end: Location) -> (range: Range)
        ensures
            range.spec_start() == start@,
            range.spec_end() == end@,
    {
        Range { start, end }
    }
}

} // verus!
