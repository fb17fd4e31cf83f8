//! Intervals of civil time.

use vstd::prelude::*;

verus! {

/// A time interval short enough to count in milliseconds.
#[derive(Clone, Copy, Debug, PartialEq, Eq, Structural)]
pub struct ShortInterval {
    pub milliseconds: i64,
}

impl ShortInterval {
    pub fn new(milliseconds: i64) -> (r: ShortInterval)
        ensures
            r.milliseconds == milliseconds,
    {
        ShortInterval { milliseconds }
    }

    pub fn milliseconds(&self) -> (r: i64)
        ensures
            r == self.milliseconds,
    {
        self.milliseconds
    }
}

} // verus!
