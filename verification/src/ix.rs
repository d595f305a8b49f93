use vstd::prelude::*;

use crate::dimension::{slice_size, Dimension};

verus! {

/// Fixed-rank dimension value: the rank `N` is part of the type, and the
/// extents are stored in a fixed-size array, outermost axis first.
#[derive(Debug, Clone, Copy)]
pub struct Ix<const N: usize> {
    dims: [usize; N],
}

impl<const N: usize> Ix<N> {
    /// Creates a dimension value from a fixed-size array of extents.
    pub fn new(dims: [usize; N]) -> (ix: Self)
        ensures
            ix.dims_spec() == dims@,
    {
        Ix { dims }
    }
}

impl<const N: usize> Dimension for Ix<N> {
    closed spec fn dims_spec(&self) -> Seq<usize> {
        self.dims@
    }

    fn ndim(&self) -> (n: usize) {
        self.dims.as_slice().len()
    }

    fn size(&self) -> (s: usize) {
        slice_size(self.dims.as_slice())
    }

    fn dims(&self) -> (d: &[usize]) {
        self.dims.as_slice()
    }
}

/// Dynamic-rank dimension value: the extents are stored in a vector whose
/// length is the rank, outermost axis first.
#[derive(Debug, Clone)]
pub struct IxDyn {
    dims: Vec<usize>,
}

impl IxDyn {
    /// Creates a dimension value from a vector of extents.
    pub fn new(dims: Vec<usize>) -> (ix: Self)
        ensures
            ix.dims_spec() == dims@,
    {
        IxDyn { dims }
    }
}

impl Dimension for IxDyn {
    closed spec fn dims_spec(&self) -> Seq<usize> {
        self.dims@
    }

    fn ndim(&self) -> (n: usize) {
        self.dims.len()
    }

    fn size(&self) -> (s: usize) {
        slice_size(self.dims.as_slice())
    }

    fn dims(&self) -> (d: &[usize]) {
        self.dims.as_slice()
    }
}

} // verus!
