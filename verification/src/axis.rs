use vstd::prelude::*;

verus! {

/// A named axis index, axis 0 being the outermost (slowest-varying) axis.
#[derive(Clone, Copy, Debug, Eq, Hash, Ord, PartialEq, PartialOrd)]
pub struct Axis(pub usize);

impl Axis {
    /// The underlying axis index.
    #[inline(always)]
    pub fn index(self) -> (i: usize)
        ensures
            i == self.0,
    {
        self.0
    }
}

} // verus!
