use vstd::prelude::*;

use vstd::pervasive::unreached;

use crate::array::Array;
use crate::dimension::Dimension;
use crate::element::Element;
use crate::reduce::{max_result, min_result, supported_rank, valid_axis};

verus! {

/// A fluent builder for computing the maximum values of an array along an
/// optionally configured axis. It defers the computation until `compute`
/// is called and adds no semantics of its own.
pub struct MaxBuilder<'a, T, D> where T: Element, D: Dimension {
    array: &'a Array<T, D>,
    axis: Option<usize>,
}

impl<'a, T, D> MaxBuilder<'a, T, D> where T: Element, D: Dimension {
    /// The source array of the computation.
    pub closed spec fn spec_array(&self) -> Array<T, D> {
        *self.array
    }

    /// The configured axis, if one was set.
    pub closed spec fn spec_axis(&self) -> Option<usize> {
        self.axis
    }

    /// Creates a builder over the given array, with no axis configured.
    pub fn new(array: &'a Array<T, D>) -> (b: Self)
        ensures
            b.spec_array() == *array,
            b.spec_axis() == None::<usize>,
    {
        MaxBuilder { array, axis: None }
    }

    /// Sets the axis along which to compute the maximum.
    pub fn axis(self, axis: usize) -> (b: Self)
        ensures
            b.spec_array() == self.spec_array(),
            b.spec_axis() == Some(axis),
    {
        MaxBuilder { array: self.array, axis: Some(axis) }
    }

    /// Runs the configured reduction and returns its result buffer. The
    /// array must be non-empty, the configured axis in bounds, and the rank
    /// between one and three; on such inputs the underlying engine cannot
    /// fail.
    pub fn compute(self) -> (v: Vec<T>)
        requires
            self.spec_array().spec_data().len() > 0,
            valid_axis(self.spec_array().spec_dims(), self.spec_axis()),
            supported_rank(self.spec_array().spec_dims()),
        ensures
            v@ == max_result(
                self.spec_array().spec_data(),
                self.spec_array().spec_dims(),
                self.spec_axis(),
            ),
    {
        let r = self.array.max_compute(self.axis);
        match r {
            Ok(v) => v,
            Err(_) => unreached(),
        }
    }
}

/// A fluent builder for computing the minimum values of an array along an
/// optionally configured axis. It defers the computation until `compute`
/// is called and adds no semantics of its own.
pub struct MinBuilder<'a, T, D> where T: Element, D: Dimension {
    array: &'a Array<T, D>,
    axis: Option<usize>,
}

impl<'a, T, D> MinBuilder<'a, T, D> where T: Element, D: Dimension {
    /// The source array of the computation.
    pub closed spec fn spec_array(&self) -> Array<T, D> {
        *self.array
    }

    /// The configured axis, if one was set.
    pub closed spec fn spec_axis(&self) -> Option<usize> {
        self.axis
    }

    /// Creates a builder over the given array, with no axis configured.
    pub fn new(array: &'a Array<T, D>) -> (b: Self)
        ensures
            b.spec_array() == *array,
            b.spec_axis() == None::<usize>,
    {
        MinBuilder { array, axis: None }
    }

    /// Sets the axis along which to compute the minimum.
    pub fn axis(self, axis: usize) -> (b: Self)
        ensures
            b.spec_array() == self.spec_array(),
            b.spec_axis() == Some(axis),
    {
        MinBuilder { array: self.array, axis: Some(axis) }
    }

    /// Runs the configured reduction and returns its result buffer. The
    /// array must be non-empty, the configured axis in bounds, and the rank
    /// between one and three; on such inputs the underlying engine cannot
    /// fail.
    pub fn compute(self) -> (v: Vec<T>)
        requires
            self.spec_array().spec_data().len() > 0,
            valid_axis(self.spec_array().spec_dims(), self.spec_axis()),
            supported_rank(self.spec_array().spec_dims()),
        ensures
            v@ == min_result(
                self.spec_array().spec_data(),
                self.spec_array().spec_dims(),
                self.spec_axis(),
            ),
    {
        let r = self.array.min_compute(self.axis);
        match r {
            Ok(v) => v,
            Err(_) => unreached(),
        }
    }
}

impl<T: Element, D: Dimension> Array<T, D> {
    /// Starts building a computation of the maximum values of this array.
    pub fn max(&self) -> (b: MaxBuilder<'_, T, D>)
        ensures
            b.spec_array() == *self,
            b.spec_axis() == None::<usize>,
    {
        MaxBuilder::new(self)
    }

    /// Starts building a computation of the minimum values of this array.
    pub fn min(&self) -> (b: MinBuilder<'_, T, D>)
        ensures
            b.spec_array() == *self,
            b.spec_axis() == None::<usize>,
    {
        MinBuilder::new(self)
    }
}

/// Computing a reduction is idempotent: its result is a pure function of
/// the array's elements, its extents, and the configured axis, so repeated
/// `compute` calls on the same configuration return identical results.
pub proof fn lemma_compute_idempotent<T: Element>(
    data: Seq<T>,
    dims: Seq<usize>,
    axis: Option<usize>,
)
    ensures
        max_result(data, dims, axis) == max_result(data, dims, axis),
        min_result(data, dims, axis) == min_result(data, dims, axis),
{
}

/// Rank-1 degeneracy: for a rank-1 array, reducing along axis 0 and
/// reducing over the whole array yield the same single-element result.
pub proof fn lemma_rank1_axis_degenerate<T: Element>(data: Seq<T>, dims: Seq<usize>)
    requires
        dims.len() == 1,
    ensures
        max_result(data, dims, Some(0usize)) == max_result(data, dims, None::<usize>),
        min_result(data, dims, Some(0usize)) == min_result(data, dims, None::<usize>),
{
    assert(max_result(data, dims, Some(0usize)) =~= max_result(data, dims, None::<usize>));
    assert(min_result(data, dims, Some(0usize)) =~= min_result(data, dims, None::<usize>));
}

} // verus!
