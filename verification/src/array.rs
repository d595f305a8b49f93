use vstd::prelude::*;

use crate::dimension::{
    lemma_size_rank1, lemma_size_rank2, lemma_size_rank3, size_of_dims, Dimension,
};
use crate::element::{seq_max, seq_min, Element};
use crate::errors::ArrayError;
use crate::nr::Numeric;
use crate::reduce::{
    group_start, lemma_groups_rank2_axis0, lemma_groups_rank2_axis1, lemma_groups_rank3_axis0,
    lemma_groups_rank3_axis1, lemma_groups_rank3_axis2, max_flat, max_groups, max_result,
    min_flat, min_groups, min_result, reduce_group, reduce_len, seq_sum, stride_seq, sum_flat,
    sum_groups, supported_rank, valid_axis,
};
use crate::shape::Shape;

verus! {

/// A multi-dimensional array: a flat buffer of elements of type `T` in
/// row-major order, together with a shape of dimension `D`. The buffer
/// length always equals the element count described by the shape.
#[derive(Debug)]
pub struct Array<T, D: Dimension> {
    data: Vec<T>,
    shape: Shape<D>,
}

impl<T, D: Dimension> Array<T, D> {
    /// The buffer length matches the shape's element count. This is
    /// established by the only constructor and preserved by every
    /// operation, so it holds of every array value.
    #[verifier::type_invariant]
    closed spec fn size_invariant(&self) -> bool {
        self.data@.len() == size_of_dims(self.shape.dims_spec())
    }

    /// The elements of the array, in row-major order.
    pub closed spec fn spec_data(&self) -> Seq<T> {
        self.data@
    }

    /// The extents of the array's shape, outermost axis first.
    pub closed spec fn spec_dims(&self) -> Seq<usize> {
        self.shape.dims_spec()
    }

    /// The array's shape value.
    pub closed spec fn spec_shape(&self) -> Shape<D> {
        self.shape
    }

    /// Constructs an array from a flat data buffer and a shape. This is the
    /// only way to produce an array, and it fails, without building one,
    /// whenever the buffer length differs from the shape's element count.
    pub fn new(data: Vec<T>, shape: Shape<D>) -> (r: Result<Self, ArrayError>)
        requires
            size_of_dims(shape.dims_spec()) <= usize::MAX,
        ensures
            r is Ok <==> data@.len() == size_of_dims(shape.dims_spec()),
            r is Ok ==> r.unwrap().spec_data() == data@ && r.unwrap().spec_shape() == shape
                && r.unwrap().spec_dims() == shape.dims_spec(),
            r is Err ==> r == Err::<Self, ArrayError>(
                ArrayError::DimensionMismatch {
                    expected: size_of_dims(shape.dims_spec()) as usize,
                    actual: data@.len() as usize,
                },
            ),
    {
        let expected_size = shape.size();
        if data.len() != expected_size {
            return Err(
                ArrayError::DimensionMismatch { expected: expected_size, actual: data.len() },
            );
        }
        Ok(Array { data, shape })
    }

    /// Returns a read-only reference to the underlying data buffer. Its
    /// length always equals the element count of the array's shape.
    pub fn data(&self) -> (d: &Vec<T>)
        ensures
            d@ == self.spec_data(),
            d@.len() == size_of_dims(self.spec_dims()),
    {
        proof {
            use_type_invariant(self);
        }
        &self.data
    }

    /// Returns a read-only reference to the shape of the array.
    pub fn shape(&self) -> (s: &Shape<D>)
        ensures
            *s == self.spec_shape(),
            s.dims_spec() == self.spec_dims(),
    {
        &self.shape
    }
}

impl<T: Numeric, D: Dimension> Array<T, D> {
    /// Replaces every element with zero; the shape is unchanged.
    pub fn zeros(&mut self)
        ensures
            final(self).spec_shape() == old(self).spec_shape(),
            final(self).spec_dims() == old(self).spec_dims(),
            final(self).spec_data().len() == old(self).spec_data().len(),
            forall|i: int|
                0 <= i < final(self).spec_data().len() ==> final(self).spec_data()[i]
                    == T::zero_spec(),
    {
        proof {
            use_type_invariant(&*self);
        }
        let len = self.data.len();
        self.data = T::zeros(len);
    }

    /// Replaces every element with one; the shape is unchanged.
    pub fn ones(&mut self)
        ensures
            final(self).spec_shape() == old(self).spec_shape(),
            final(self).spec_dims() == old(self).spec_dims(),
            final(self).spec_data().len() == old(self).spec_data().len(),
            forall|i: int|
                0 <= i < final(self).spec_data().len() ==> final(self).spec_data()[i]
                    == T::one_spec(),
    {
        proof {
            use_type_invariant(&*self);
        }
        let len = self.data.len();
        self.data = T::ones(len);
    }
}

impl<D: Dimension> Array<i64, D> {
    /// The name of the element type held by this array.
    pub fn dtype(&self) -> (s: &'static str)
        ensures
            s@ == "int64"@,
    {
        "int64"
    }
}

impl<T: Element, D: Dimension> Array<T, D> {
    /// Computes the maximum along the given axis, or of the whole array
    /// when no axis is given: one value per group of elements that agree on
    /// every coordinate except the reduced axis, in row-major order of the
    /// kept coordinates. Fails on an empty array, an out-of-bounds axis,
    /// and a rank outside one through three, in that order of checks.
    pub fn max_compute(&self, axis: Option<usize>) -> (r: Result<Vec<T>, ArrayError>)
        ensures
            r is Ok <==> self.spec_data().len() > 0 && valid_axis(self.spec_dims(), axis)
                && supported_rank(self.spec_dims()),
            r is Ok ==> r.unwrap()@ == max_result(self.spec_data(), self.spec_dims(), axis),
            self.spec_data().len() == 0 ==> r == Err::<Vec<T>, ArrayError>(ArrayError::EmptyArray),
            self.spec_data().len() > 0 && !valid_axis(self.spec_dims(), axis) ==> r == Err::<
                Vec<T>,
                ArrayError,
            >(ArrayError::InvalidAxis(axis.unwrap())),
            self.spec_data().len() > 0 && valid_axis(self.spec_dims(), axis) && !supported_rank(
                self.spec_dims(),
            ) ==> r == Err::<Vec<T>, ArrayError>(
                ArrayError::UnimplementedDimension(self.spec_dims().len() as usize),
            ),
    {
        proof {
            use_type_invariant(self);
        }
        let n = self.data.len();
        if n == 0 {
            return Err(ArrayError::EmptyArray);
        }
        let dims = self.shape.dims();
        let ndim = dims.len();
        if let Some(a) = axis {
            if a >= ndim {
                return Err(ArrayError::InvalidAxis(a));
            }
        }
        let ghost gdata = self.spec_data();
        let ghost gdims = self.spec_dims();
        if ndim == 1 {
            proof {
                lemma_size_rank1(gdims);
            }
            let m = max_flat(&self.data);
            let mut out: Vec<T> = Vec::new();
            out.push(m);
            proof {
                assert(out@ =~= max_result(gdata, gdims, axis));
            }
            Ok(out)
        } else if ndim == 2 {
            let rows = dims[0];
            let cols = dims[1];
            proof {
                lemma_size_rank2(gdims);
                assert(rows >= 1 && cols >= 1) by (nonlinear_arith)
                    requires
                        n as int == rows as int * cols as int,
                        n >= 1,
                        rows as int >= 0,
                        cols as int >= 0,
                ;
            }
            match axis {
                None => {
                    let m = max_flat(&self.data);
                    let mut out: Vec<T> = Vec::new();
                    out.push(m);
                    proof {
                        assert(out@ =~= max_result(gdata, gdims, axis));
                    }
                    Ok(out)
                },
                Some(a) => {
                    if a == 0 {
                        proof {
                            lemma_groups_rank2_axis0(rows as int, cols as int, n as int);
                        }
                        let out = max_groups(&self.data, cols, 1, 1, 0, cols, rows);
                        proof {
                            assert forall|g: int| 0 <= g < out@.len() implies out@[g] == seq_max(
                                reduce_group(gdata, gdims, axis, g),
                            ) by {
                                assert(group_start(g, 1, 1, 0) == g);
                                assert(reduce_group(gdata, gdims, axis, g) == stride_seq(
                                    gdata,
                                    g,
                                    cols as int,
                                    rows as int,
                                ));
                            }
                            assert(out@ =~= max_result(gdata, gdims, axis));
                        }
                        Ok(out)
                    } else {
                        proof {
                            lemma_groups_rank2_axis1(rows as int, cols as int, n as int);
                        }
                        let out = max_groups(&self.data, rows, 1, cols, 0, 1, cols);
                        proof {
                            assert forall|g: int| 0 <= g < out@.len() implies out@[g] == seq_max(
                                reduce_group(gdata, gdims, axis, g),
                            ) by {
                                assert(group_start(g, 1, cols as int, 0) == g * cols);
                                assert(reduce_group(gdata, gdims, axis, g) == stride_seq(
                                    gdata,
                                    g * cols,
                                    1,
                                    cols as int,
                                ));
                            }
                            assert(out@ =~= max_result(gdata, gdims, axis));
                        }
                        Ok(out)
                    }
                },
            }
        } else if ndim == 3 {
            let depth = dims[0];
            let rows = dims[1];
            let cols = dims[2];
            proof {
                lemma_size_rank3(gdims);
                assert(depth >= 1 && rows >= 1 && cols >= 1) by (nonlinear_arith)
                    requires
                        n as int == depth as int * rows as int * cols as int,
                        n >= 1,
                        depth as int >= 0,
                        rows as int >= 0,
                        cols as int >= 0,
                ;
            }
            match axis {
                None => {
                    let m = max_flat(&self.data);
                    let mut out: Vec<T> = Vec::new();
                    out.push(m);
                    proof {
                        assert(out@ =~= max_result(gdata, gdims, axis));
                    }
                    Ok(out)
                },
                Some(a) => {
                    proof {
                        assert(rows as int * cols as int <= n as int && depth as int * cols as int
                            <= n as int && depth as int * rows as int <= n as int && rows as int
                            * cols as int >= 1 && depth as int * cols as int >= 1 && depth as int
                            * rows as int >= 1) by (nonlinear_arith)
                            requires
                                n as int == depth as int * rows as int * cols as int,
                                depth as int >= 1,
                                rows as int >= 1,
                                cols as int >= 1,
                        ;
                    }
                    if a == 0 {
                        let count = rows * cols;
                        proof {
                            lemma_groups_rank3_axis0(
                                depth as int,
                                rows as int,
                                cols as int,
                                n as int,
                            );
                        }
                        let out = max_groups(&self.data, count, 1, 1, 0, count, depth);
                        proof {
                            assert forall|g: int| 0 <= g < out@.len() implies out@[g] == seq_max(
                                reduce_group(gdata, gdims, axis, g),
                            ) by {
                                assert(group_start(g, 1, 1, 0) == g);
                                assert(reduce_group(gdata, gdims, axis, g) == stride_seq(
                                    gdata,
                                    g,
                                    rows as int * cols as int,
                                    depth as int,
                                ));
                            }
                            assert(out@ =~= max_result(gdata, gdims, axis));
                        }
                        Ok(out)
                    } else if a == 1 {
                        let count = depth * cols;
                        let stride_base = rows * cols;
                        proof {
                            lemma_groups_rank3_axis1(
                                depth as int,
                                rows as int,
                                cols as int,
                                n as int,
                            );
                        }
                        let out = max_groups(&self.data, count, cols, stride_base, 1, cols, rows);
                        proof {
                            assert forall|g: int| 0 <= g < out@.len() implies out@[g] == seq_max(
                                reduce_group(gdata, gdims, axis, g),
                            ) by {
                                assert(group_start(g, cols as int, stride_base as int, 1) == (g
                                    / cols as int) * (rows as int * cols as int) + (g % cols as int)
                                    * 1);
                                assert(reduce_group(gdata, gdims, axis, g) == stride_seq(
                                    gdata,
                                    (g / cols as int) * (rows as int * cols as int) + (g
                                        % cols as int) * 1,
                                    cols as int,
                                    rows as int,
                                ));
                            }
                            assert(out@ =~= max_result(gdata, gdims, axis));
                        }
                        Ok(out)
                    } else {
                        let count = depth * rows;
                        let stride_base = rows * cols;
                        proof {
                            lemma_groups_rank3_axis2(
                                depth as int,
                                rows as int,
                                cols as int,
                                n as int,
                            );
                        }
                        let out = max_groups(&self.data, count, rows, stride_base, cols, 1, cols);
                        proof {
                            assert forall|g: int| 0 <= g < out@.len() implies out@[g] == seq_max(
                                reduce_group(gdata, gdims, axis, g),
                            ) by {
                                assert(group_start(g, rows as int, stride_base as int, cols as int)
                                    == (g / rows as int) * (rows as int * cols as int) + (g
                                    % rows as int) * cols as int);
                                assert(reduce_group(gdata, gdims, axis, g) == stride_seq(
                                    gdata,
                                    (g / rows as int) * (rows as int * cols as int) + (g
                                        % rows as int) * cols as int,
                                    1,
                                    cols as int,
                                ));
                            }
                            assert(out@ =~= max_result(gdata, gdims, axis));
                        }
                        Ok(out)
                    }
                },
            }
        } else {
            Err(ArrayError::UnimplementedDimension(ndim))
        }
    }
    /// Computes the minimum along the given axis, or of the whole array
    /// when no axis is given: one value per group of elements that agree on
    /// every coordinate except the reduced axis, in row-major order of the
    /// kept coordinates. Fails on an empty array, an out-of-bounds axis,
    /// and a rank outside one through three, in that order of checks.
    pub fn min_compute(&self, axis: Option<usize>) -> (r: Result<Vec<T>, ArrayError>)
        ensures
            r is Ok <==> self.spec_data().len() > 0 && valid_axis(self.spec_dims(), axis)
                && supported_rank(self.spec_dims()),
            r is Ok ==> r.unwrap()@ == min_result(self.spec_data(), self.spec_dims(), axis),
            self.spec_data().len() == 0 ==> r == Err::<Vec<T>, ArrayError>(ArrayError::EmptyArray),
            self.spec_data().len() > 0 && !valid_axis(self.spec_dims(), axis) ==> r == Err::<
                Vec<T>,
                ArrayError,
            >(ArrayError::InvalidAxis(axis.unwrap())),
            self.spec_data().len() > 0 && valid_axis(self.spec_dims(), axis) && !supported_rank(
                self.spec_dims(),
            ) ==> r == Err::<Vec<T>, ArrayError>(
                ArrayError::UnimplementedDimension(self.spec_dims().len() as usize),
            ),
    {
        proof {
            use_type_invariant(self);
        }
        let n = self.data.len();
        if n == 0 {
            return Err(ArrayError::EmptyArray);
        }
        let dims = self.shape.dims();
        let ndim = dims.len();
        if let Some(a) = axis {
            if a >= ndim {
                return Err(ArrayError::InvalidAxis(a));
            }
        }
        let ghost gdata = self.spec_data();
        let ghost gdims = self.spec_dims();
        if ndim == 1 {
            proof {
                lemma_size_rank1(gdims);
            }
            let m = min_flat(&self.data);
            let mut out: Vec<T> = Vec::new();
            out.push(m);
            proof {
                assert(out@ =~= min_result(gdata, gdims, axis));
            }
            Ok(out)
        } else if ndim == 2 {
            let rows = dims[0];
            let cols = dims[1];
            proof {
                lemma_size_rank2(gdims);
                assert(rows >= 1 && cols >= 1) by (nonlinear_arith)
                    requires
                        n as int == rows as int * cols as int,
                        n >= 1,
                        rows as int >= 0,
                        cols as int >= 0,
                ;
            }
            match axis {
                None => {
                    let m = min_flat(&self.data);
                    let mut out: Vec<T> = Vec::new();
                    out.push(m);
                    proof {
                        assert(out@ =~= min_result(gdata, gdims, axis));
                    }
                    Ok(out)
                },
                Some(a) => {
                    if a == 0 {
                        proof {
                            lemma_groups_rank2_axis0(rows as int, cols as int, n as int);
                        }
                        let out = min_groups(&self.data, cols, 1, 1, 0, cols, rows);
                        proof {
                            assert forall|g: int| 0 <= g < out@.len() implies out@[g] == seq_min(
                                reduce_group(gdata, gdims, axis, g),
                            ) by {
                                assert(group_start(g, 1, 1, 0) == g);
                                assert(reduce_group(gdata, gdims, axis, g) == stride_seq(
                                    gdata,
                                    g,
                                    cols as int,
                                    rows as int,
                                ));
                            }
                            assert(out@ =~= min_result(gdata, gdims, axis));
                        }
                        Ok(out)
                    } else {
                        proof {
                            lemma_groups_rank2_axis1(rows as int, cols as int, n as int);
                        }
                        let out = min_groups(&self.data, rows, 1, cols, 0, 1, cols);
                        proof {
                            assert forall|g: int| 0 <= g < out@.len() implies out@[g] == seq_min(
                                reduce_group(gdata, gdims, axis, g),
                            ) by {
                                assert(group_start(g, 1, cols as int, 0) == g * cols);
                                assert(reduce_group(gdata, gdims, axis, g) == stride_seq(
                                    gdata,
                                    g * cols,
                                    1,
                                    cols as int,
                                ));
                            }
                            assert(out@ =~= min_result(gdata, gdims, axis));
                        }
                        Ok(out)
                    }
                },
            }
        } else if ndim == 3 {
            let depth = dims[0];
            let rows = dims[1];
            let cols = dims[2];
            proof {
                lemma_size_rank3(gdims);
                assert(depth >= 1 && rows >= 1 && cols >= 1) by (nonlinear_arith)
                    requires
                        n as int == depth as int * rows as int * cols as int,
                        n >= 1,
                        depth as int >= 0,
                        rows as int >= 0,
                        cols as int >= 0,
                ;
            }
            match axis {
                None => {
                    let m = min_flat(&self.data);
                    let mut out: Vec<T> = Vec::new();
                    out.push(m);
                    proof {
                        assert(out@ =~= min_result(gdata, gdims, axis));
                    }
                    Ok(out)
                },
                Some(a) => {
                    proof {
                        assert(rows as int * cols as int <= n as int && depth as int * cols as int
                            <= n as int && depth as int * rows as int <= n as int && rows as int
                            * cols as int >= 1 && depth as int * cols as int >= 1 && depth as int
                            * rows as int >= 1) by (nonlinear_arith)
                            requires
                                n as int == depth as int * rows as int * cols as int,
                                depth as int >= 1,
                                rows as int >= 1,
                                cols as int >= 1,
                        ;
                    }
                    if a == 0 {
                        let count = rows * cols;
                        proof {
                            lemma_groups_rank3_axis0(
                                depth as int,
                                rows as int,
                                cols as int,
                                n as int,
                            );
                        }
                        let out = min_groups(&self.data, count, 1, 1, 0, count, depth);
                        proof {
                            assert forall|g: int| 0 <= g < out@.len() implies out@[g] == seq_min(
                                reduce_group(gdata, gdims, axis, g),
                            ) by {
                                assert(group_start(g, 1, 1, 0) == g);
                                assert(reduce_group(gdata, gdims, axis, g) == stride_seq(
                                    gdata,
                                    g,
                                    rows as int * cols as int,
                                    depth as int,
                                ));
                            }
                            assert(out@ =~= min_result(gdata, gdims, axis));
                        }
                        Ok(out)
                    } else if a == 1 {
                        let count = depth * cols;
                        let stride_base = rows * cols;
                        proof {
                            lemma_groups_rank3_axis1(
                                depth as int,
                                rows as int,
                                cols as int,
                                n as int,
                            );
                        }
                        let out = min_groups(&self.data, count, cols, stride_base, 1, cols, rows);
                        proof {
                            assert forall|g: int| 0 <= g < out@.len() implies out@[g] == seq_min(
                                reduce_group(gdata, gdims, axis, g),
                            ) by {
                                assert(group_start(g, cols as int, stride_base as int, 1) == (g
                                    / cols as int) * (rows as int * cols as int) + (g % cols as int)
                                    * 1);
                                assert(reduce_group(gdata, gdims, axis, g) == stride_seq(
                                    gdata,
                                    (g / cols as int) * (rows as int * cols as int) + (g
                                        % cols as int) * 1,
                                    cols as int,
                                    rows as int,
                                ));
                            }
                            assert(out@ =~= min_result(gdata, gdims, axis));
                        }
                        Ok(out)
                    } else {
                        let count = depth * rows;
                        let stride_base = rows * cols;
                        proof {
                            lemma_groups_rank3_axis2(
                                depth as int,
                                rows as int,
                                cols as int,
                                n as int,
                            );
                        }
                        let out = min_groups(&self.data, count, rows, stride_base, cols, 1, cols);
                        proof {
                            assert forall|g: int| 0 <= g < out@.len() implies out@[g] == seq_min(
                                reduce_group(gdata, gdims, axis, g),
                            ) by {
                                assert(group_start(g, rows as int, stride_base as int, cols as int)
                                    == (g / rows as int) * (rows as int * cols as int) + (g
                                    % rows as int) * cols as int);
                                assert(reduce_group(gdata, gdims, axis, g) == stride_seq(
                                    gdata,
                                    (g / rows as int) * (rows as int * cols as int) + (g
                                        % rows as int) * cols as int,
                                    1,
                                    cols as int,
                                ));
                            }
                            assert(out@ =~= min_result(gdata, gdims, axis));
                        }
                        Ok(out)
                    }
                },
            }
        } else {
            Err(ArrayError::UnimplementedDimension(ndim))
        }
    }
}
impl<D: Dimension> Array<i64, D> {
    /// Computes the exact sum of each group along the given axis, or of the
    /// whole array when no axis is given, with the same grouping, ordering,
    /// and error policy as the other reductions. Sums are exact: they are
    /// accumulated in 128 bits, which the sum of any `i64` buffer fits.
    /// The mean of a group is its sum divided by its element count; that
    /// final division is left to the caller, since its result leaves the
    /// integers.
    pub fn sum_compute(&self, axis: Option<usize>) -> (r: Result<Vec<i128>, ArrayError>)
        ensures
            r is Ok <==> self.spec_data().len() > 0 && valid_axis(self.spec_dims(), axis)
                && supported_rank(self.spec_dims()),
            r is Ok ==> r.unwrap()@.len() == reduce_len(self.spec_dims(), axis),
            r is Ok ==> forall|g: int|
                0 <= g < reduce_len(self.spec_dims(), axis) ==> #[trigger] r.unwrap()@[g] as int
                    == seq_sum(reduce_group(self.spec_data(), self.spec_dims(), axis, g)),
            self.spec_data().len() == 0 ==> r == Err::<Vec<i128>, ArrayError>(
                ArrayError::EmptyArray,
            ),
            self.spec_data().len() > 0 && !valid_axis(self.spec_dims(), axis) ==> r == Err::<
                Vec<i128>,
                ArrayError,
            >(ArrayError::InvalidAxis(axis.unwrap())),
            self.spec_data().len() > 0 && valid_axis(self.spec_dims(), axis) && !supported_rank(
                self.spec_dims(),
            ) ==> r == Err::<Vec<i128>, ArrayError>(
                ArrayError::UnimplementedDimension(self.spec_dims().len() as usize),
            ),
    {
        proof {
            use_type_invariant(self);
        }
        let n = self.data.len();
        if n == 0 {
            return Err(ArrayError::EmptyArray);
        }
        let dims = self.shape.dims();
        let ndim = dims.len();
        if let Some(a) = axis {
            if a >= ndim {
                return Err(ArrayError::InvalidAxis(a));
            }
        }
        let ghost gdata = self.spec_data();
        let ghost gdims = self.spec_dims();
        if ndim == 1 {
            proof {
                lemma_size_rank1(gdims);
            }
            let m = sum_flat(&self.data);
            let mut out: Vec<i128> = Vec::new();
            out.push(m);
            proof {
                assert(reduce_len(gdims, axis) == 1);
                assert(reduce_group(gdata, gdims, axis, 0) == gdata);
            }
            Ok(out)
        } else if ndim == 2 {
            let rows = dims[0];
            let cols = dims[1];
            proof {
                lemma_size_rank2(gdims);
                assert(rows >= 1 && cols >= 1) by (nonlinear_arith)
                    requires
                        n as int == rows as int * cols as int,
                        n >= 1,
                        rows as int >= 0,
                        cols as int >= 0,
                ;
            }
            match axis {
                None => {
                    let m = sum_flat(&self.data);
                    let mut out: Vec<i128> = Vec::new();
                    out.push(m);
                    proof {
                        assert(reduce_len(gdims, axis) == 1);
                        assert(reduce_group(gdata, gdims, axis, 0) == gdata);
                    }
                    Ok(out)
                },
                Some(a) => {
                    if a == 0 {
                        proof {
                            lemma_groups_rank2_axis0(rows as int, cols as int, n as int);
                        }
                        let out = sum_groups(&self.data, cols, 1, 1, 0, cols, rows);
                        proof {
                            assert(reduce_len(gdims, axis) == cols as int);
                            assert forall|g: int| 0 <= g < reduce_len(gdims, axis) implies
                                #[trigger] out@[g] as int == seq_sum(
                                reduce_group(gdata, gdims, axis, g),
                            ) by {
                                assert(group_start(g, 1, 1, 0) == g);
                                assert(reduce_group(gdata, gdims, axis, g) == stride_seq(
                                    gdata,
                                    g,
                                    cols as int,
                                    rows as int,
                                ));
                                assert(out@[g] as int == seq_sum(
                                    stride_seq(
                                        gdata,
                                        group_start(g, 1, 1, 0),
                                        cols as int,
                                        rows as int,
                                    ),
                                ));
                            }
                        }
                        Ok(out)
                    } else {
                        proof {
                            lemma_groups_rank2_axis1(rows as int, cols as int, n as int);
                        }
                        let out = sum_groups(&self.data, rows, 1, cols, 0, 1, cols);
                        proof {
                            assert(reduce_len(gdims, axis) == rows as int);
                            assert forall|g: int| 0 <= g < reduce_len(gdims, axis) implies
                                #[trigger] out@[g] as int == seq_sum(
                                reduce_group(gdata, gdims, axis, g),
                            ) by {
                                assert(group_start(g, 1, cols as int, 0) == g * cols);
                                assert(reduce_group(gdata, gdims, axis, g) == stride_seq(
                                    gdata,
                                    g * cols,
                                    1,
                                    cols as int,
                                ));
                                assert(out@[g] as int == seq_sum(
                                    stride_seq(
                                        gdata,
                                        group_start(g, 1, cols as int, 0),
                                        1,
                                        cols as int,
                                    ),
                                ));
                            }
                        }
                        Ok(out)
                    }
                },
            }
        } else if ndim == 3 {
            let depth = dims[0];
            let rows = dims[1];
            let cols = dims[2];
            proof {
                lemma_size_rank3(gdims);
                assert(depth >= 1 && rows >= 1 && cols >= 1) by (nonlinear_arith)
                    requires
                        n as int == depth as int * rows as int * cols as int,
                        n >= 1,
                        depth as int >= 0,
                        rows as int >= 0,
                        cols as int >= 0,
                ;
            }
            match axis {
                None => {
                    let m = sum_flat(&self.data);
                    let mut out: Vec<i128> = Vec::new();
                    out.push(m);
                    proof {
                        assert(reduce_len(gdims, axis) == 1);
                        assert(reduce_group(gdata, gdims, axis, 0) == gdata);
                    }
                    Ok(out)
                },
                Some(a) => {
                    proof {
                        assert(rows as int * cols as int <= n as int && depth as int * cols as int
                            <= n as int && depth as int * rows as int <= n as int && rows as int
                            * cols as int >= 1 && depth as int * cols as int >= 1 && depth as int
                            * rows as int >= 1) by (nonlinear_arith)
                            requires
                                n as int == depth as int * rows as int * cols as int,
                                depth as int >= 1,
                                rows as int >= 1,
                                cols as int >= 1,
                        ;
                    }
                    if a == 0 {
                        let count = rows * cols;
                        proof {
                            lemma_groups_rank3_axis0(
                                depth as int,
                                rows as int,
                                cols as int,
                                n as int,
                            );
                        }
                        let out = sum_groups(&self.data, count, 1, 1, 0, count, depth);
                        proof {
                            assert(reduce_len(gdims, axis) == count as int);
                            assert forall|g: int| 0 <= g < reduce_len(gdims, axis) implies
                                #[trigger] out@[g] as int == seq_sum(
                                reduce_group(gdata, gdims, axis, g),
                            ) by {
                                assert(group_start(g, 1, 1, 0) == g);
                                assert(reduce_group(gdata, gdims, axis, g) == stride_seq(
                                    gdata,
                                    g,
                                    rows as int * cols as int,
                                    depth as int,
                                ));
                                assert(out@[g] as int == seq_sum(
                                    stride_seq(
                                        gdata,
                                        group_start(g, 1, 1, 0),
                                        count as int,
                                        depth as int,
                                    ),
                                ));
                            }
                        }
                        Ok(out)
                    } else if a == 1 {
                        let count = depth * cols;
                        let stride_base = rows * cols;
                        proof {
                            lemma_groups_rank3_axis1(
                                depth as int,
                                rows as int,
                                cols as int,
                                n as int,
                            );
                        }
                        let out = sum_groups(&self.data, count, cols, stride_base, 1, cols, rows);
                        proof {
                            assert(reduce_len(gdims, axis) == count as int);
                            assert forall|g: int| 0 <= g < reduce_len(gdims, axis) implies
                                #[trigger] out@[g] as int == seq_sum(
                                reduce_group(gdata, gdims, axis, g),
                            ) by {
                                assert(group_start(g, cols as int, stride_base as int, 1) == (g
                                    / cols as int) * (rows as int * cols as int) + (g % cols as int)
                                    * 1);
                                assert(reduce_group(gdata, gdims, axis, g) == stride_seq(
                                    gdata,
                                    (g / cols as int) * (rows as int * cols as int) + (g
                                        % cols as int) * 1,
                                    cols as int,
                                    rows as int,
                                ));
                                assert(out@[g] as int == seq_sum(
                                    stride_seq(
                                        gdata,
                                        group_start(g, cols as int, stride_base as int, 1),
                                        cols as int,
                                        rows as int,
                                    ),
                                ));
                            }
                        }
                        Ok(out)
                    } else {
                        let count = depth * rows;
                        let stride_base = rows * cols;
                        proof {
                            lemma_groups_rank3_axis2(
                                depth as int,
                                rows as int,
                                cols as int,
                                n as int,
                            );
                        }
                        let out = sum_groups(&self.data, count, rows, stride_base, cols, 1, cols);
                        proof {
                            assert(reduce_len(gdims, axis) == count as int);
                            assert forall|g: int| 0 <= g < reduce_len(gdims, axis) implies
                                #[trigger] out@[g] as int == seq_sum(
                                reduce_group(gdata, gdims, axis, g),
                            ) by {
                                assert(group_start(g, rows as int, stride_base as int, cols as int)
                                    == (g / rows as int) * (rows as int * cols as int) + (g
                                    % rows as int) * cols as int);
                                assert(reduce_group(gdata, gdims, axis, g) == stride_seq(
                                    gdata,
                                    (g / rows as int) * (rows as int * cols as int) + (g
                                        % rows as int) * cols as int,
                                    1,
                                    cols as int,
                                ));
                                assert(out@[g] as int == seq_sum(
                                    stride_seq(
                                        gdata,
                                        group_start(g, rows as int, stride_base as int, cols as int),
                                        1,
                                        cols as int,
                                    ),
                                ));
                            }
                        }
                        Ok(out)
                    }
                },
            }
        } else {
            Err(ArrayError::UnimplementedDimension(ndim))
        }
    }
}


} // verus!
