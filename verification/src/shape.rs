use vstd::prelude::*;

use crate::dimension::size_of_dims;
pub use crate::dimension::Dimension;

verus! {

/// The shape of an array: a thin wrapper around a [`Dimension`] value, used
/// as the single source of truth for the layout of the flat data buffer.
#[derive(Debug, Clone)]
pub struct Shape<D> {
    dims: D,
}

impl<D: Dimension> Shape<D> {
    /// The extent along each axis, outermost axis first.
    pub closed spec fn dims_spec(&self) -> Seq<usize> {
        self.dims.dims_spec()
    }

    /// Constructs a shape from a dimension value.
    pub fn new(dims: D) -> (s: Self)
        ensures
            s.dims_spec() == dims.dims_spec(),
    {
        Shape { dims }
    }

    /// Returns a reference to the underlying dimension value.
    pub fn raw_dim(&self) -> (d: &D)
        ensures
            d.dims_spec() == self.dims_spec(),
    {
        &self.dims
    }

    /// The total number of elements: the product of all extents, or 0 for an
    /// empty extent list.
    pub fn size(&self) -> (s: usize)
        requires
            size_of_dims(self.dims_spec()) <= usize::MAX,
        ensures
            s as int == size_of_dims(self.dims_spec()),
    {
        self.dims.size()
    }

    /// The extents as a read-only slice, axis 0 first.
    pub fn dims(&self) -> (d: &[usize])
        ensures
            d@ == self.dims_spec(),
    {
        self.dims.dims()
    }
}

} // verus!
