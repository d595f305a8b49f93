use vstd::prelude::*;

use crate::element::{seq_max, seq_min, Element};

verus! {

/// The elements of `data` at positions `start`, `start + stride`, up to
/// `start + (count - 1) * stride`: one strided group of an axis reduction.
pub open spec fn stride_seq<T>(data: Seq<T>, start: int, stride: int, count: int) -> Seq<T> {
    Seq::new(count as nat, |k: int| data[start + k * stride])
}

/// Whether the requested axis is in bounds for the given extents.
pub open spec fn valid_axis(dims: Seq<usize>, axis: Option<usize>) -> bool {
    match axis {
        None => true,
        Some(a) => (a as int) < dims.len(),
    }
}

/// Whether the rank is one the reduction engine implements.
pub open spec fn supported_rank(dims: Seq<usize>) -> bool {
    1 <= dims.len() <= 3
}

/// The number of groups of a reduction, which is the length of its result.
pub open spec fn reduce_len(dims: Seq<usize>, axis: Option<usize>) -> int
    recommends
        valid_axis(dims, axis),
        supported_rank(dims),
{
    match axis {
        None => 1,
        Some(a) => {
            if dims.len() <= 1 {
                1
            } else if dims.len() == 2 {
                if a == 0 {
                    dims[1] as int
                } else {
                    dims[0] as int
                }
            } else {
                if a == 0 {
                    dims[1] * dims[2]
                } else if a == 1 {
                    dims[0] * dims[2]
                } else {
                    dims[0] * dims[1]
                }
            }
        }
    }
}

/// Start offset of the `g`-th group when group starts are laid out as
/// `(g / q) * s1 + (g % q) * s2`.
pub open spec fn group_start(g: int, q: int, s1: int, s2: int) -> int {
    (g / q) * s1 + (g % q) * s2
}

/// The `g`-th group of a reduction over a row-major buffer: the elements
/// sharing coordinates on every axis except the reduced one. Groups are
/// ordered row-major over the kept coordinates.
pub open spec fn reduce_group<T>(
    data: Seq<T>,
    dims: Seq<usize>,
    axis: Option<usize>,
    g: int,
) -> Seq<T>
    recommends
        valid_axis(dims, axis),
        supported_rank(dims),
        0 <= g < reduce_len(dims, axis),
{
    match axis {
        None => data,
        Some(a) => {
            if dims.len() <= 1 {
                data
            } else if dims.len() == 2 {
                let rows = dims[0] as int;
                let cols = dims[1] as int;
                if a == 0 {
                    stride_seq(data, g, cols, rows)
                } else {
                    stride_seq(data, g * cols, 1, cols)
                }
            } else {
                let depth = dims[0] as int;
                let rows = dims[1] as int;
                let cols = dims[2] as int;
                if a == 0 {
                    stride_seq(data, g, rows * cols, depth)
                } else if a == 1 {
                    stride_seq(data, (g / cols) * (rows * cols) + (g % cols) * 1, cols, rows)
                } else {
                    stride_seq(data, (g / rows) * (rows * cols) + (g % rows) * cols, 1, cols)
                }
            }
        }
    }
}

/// The full result of a maximum reduction: one maximum per group.
pub open spec fn max_result<T: Element>(data: Seq<T>, dims: Seq<usize>, axis: Option<usize>) -> Seq<
    T,
>
    recommends
        valid_axis(dims, axis),
        supported_rank(dims),
{
    Seq::new(reduce_len(dims, axis) as nat, |g: int| seq_max(reduce_group(data, dims, axis, g)))
}

/// The full result of a minimum reduction: one minimum per group.
pub open spec fn min_result<T: Element>(data: Seq<T>, dims: Seq<usize>, axis: Option<usize>) -> Seq<
    T,
>
    recommends
        valid_axis(dims, axis),
        supported_rank(dims),
{
    Seq::new(reduce_len(dims, axis) as nat, |g: int| seq_min(reduce_group(data, dims, axis, g)))
}

/// A whole buffer is the single strided group starting at 0 with stride 1.
pub proof fn lemma_stride_seq_whole<T>(data: Seq<T>)
    ensures
        stride_seq(data, 0, 1, data.len() as int) =~= data,
{
}

/// Group layout of a rank-2, axis-0 reduction: one group per column, the
/// `g`-th starting at offset `g` and striding by `cols`.
pub proof fn lemma_groups_rank2_axis0(rows: int, cols: int, len: int)
    requires
        rows >= 1,
        cols >= 1,
        len == rows * cols,
    ensures
        forall|g: int| 0 <= g < cols ==> #[trigger] group_start(g, 1, 1, 0) == g,
        forall|g: int| 0 <= g < cols ==> #[trigger] group_start(g, 1, 1, 0) + (rows - 1) * cols
            < len,
{
    assert forall|g: int| 0 <= g < cols implies #[trigger] group_start(g, 1, 1, 0) == g by {
        vstd::arithmetic::div_mod::lemma_div_basics(g);
        vstd::arithmetic::div_mod::lemma_mod_division_less_than_divisor(g, 1);
    }
    assert forall|g: int| 0 <= g < cols implies #[trigger] group_start(g, 1, 1, 0) + (rows - 1)
        * cols < len by {
        assert(g + (rows - 1) * cols < rows * cols) by (nonlinear_arith)
            requires
                0 <= g < cols,
                rows >= 1,
                cols >= 1,
        ;
    }
}

/// Group layout of a rank-2, axis-1 reduction: one group per row, the
/// `g`-th starting at offset `g * cols` and striding by 1.
pub proof fn lemma_groups_rank2_axis1(rows: int, cols: int, len: int)
    requires
        rows >= 1,
        cols >= 1,
        len == rows * cols,
    ensures
        forall|g: int| 0 <= g < rows ==> #[trigger] group_start(g, 1, cols, 0) == g * cols,
        forall|g: int| 0 <= g < rows ==> #[trigger] group_start(g, 1, cols, 0) + (cols - 1) * 1
            < len,
{
    assert forall|g: int| 0 <= g < rows implies #[trigger] group_start(g, 1, cols, 0) == g
        * cols by {
        vstd::arithmetic::div_mod::lemma_div_basics(g);
        vstd::arithmetic::div_mod::lemma_mod_division_less_than_divisor(g, 1);
    }
    assert forall|g: int| 0 <= g < rows implies #[trigger] group_start(g, 1, cols, 0) + (cols - 1)
        * 1 < len by {
        assert(group_start(g, 1, cols, 0) == g * cols);
        assert(g * cols + (cols - 1) < rows * cols) by (nonlinear_arith)
            requires
                0 <= g < rows,
                rows >= 1,
                cols >= 1,
        ;
    }
}

/// Group layout of a rank-3, axis-0 reduction: one group per (row, col)
/// pair, the `g`-th starting at offset `g` and striding by `rows * cols`.
pub proof fn lemma_groups_rank3_axis0(depth: int, rows: int, cols: int, len: int)
    requires
        depth >= 1,
        rows >= 1,
        cols >= 1,
        len == depth * rows * cols,
    ensures
        forall|g: int| 0 <= g < rows * cols ==> #[trigger] group_start(g, 1, 1, 0) == g,
        forall|g: int| 0 <= g < rows * cols ==> #[trigger] group_start(g, 1, 1, 0) + (depth - 1)
            * (rows * cols) < len,
{
    assert forall|g: int| 0 <= g < rows * cols implies #[trigger] group_start(g, 1, 1, 0) == g by {
        vstd::arithmetic::div_mod::lemma_div_basics(g);
        vstd::arithmetic::div_mod::lemma_mod_division_less_than_divisor(g, 1);
    }
    assert forall|g: int| 0 <= g < rows * cols implies #[trigger] group_start(g, 1, 1, 0) + (depth
        - 1) * (rows * cols) < len by {
        assert(g + (depth - 1) * (rows * cols) < depth * rows * cols) by (nonlinear_arith)
            requires
                0 <= g < rows * cols,
                depth >= 1,
                rows >= 1,
                cols >= 1,
        ;
    }
}

/// Group layout of a rank-3, axis-1 reduction: one group per (depth, col)
/// pair, the `g`-th starting at `(g / cols) * rows * cols + g % cols` and
/// striding by `cols`.
pub proof fn lemma_groups_rank3_axis1(depth: int, rows: int, cols: int, len: int)
    requires
        depth >= 1,
        rows >= 1,
        cols >= 1,
        len == depth * rows * cols,
    ensures
        forall|g: int| 0 <= g < depth * cols ==> #[trigger] group_start(g, cols, rows * cols, 1)
            + (rows - 1) * cols < len,
{
    assert forall|g: int| 0 <= g < depth * cols implies #[trigger] group_start(
        g,
        cols,
        rows * cols,
        1,
    ) + (rows - 1) * cols < len by {
        assert(cols * depth == depth * cols) by (nonlinear_arith);
        vstd::arithmetic::div_mod::lemma_multiply_divide_lt(g, cols, depth);
        vstd::arithmetic::div_mod::lemma_mod_division_less_than_divisor(g, cols);
        vstd::arithmetic::div_mod::lemma_div_basics_4(g, cols);
        let dd = g / cols;
        let rem = g % cols;
        assert(dd * (rows * cols) + rem * 1 + (rows - 1) * cols < depth * rows * cols)
            by (nonlinear_arith)
            requires
                0 <= dd < depth,
                0 <= rem < cols,
                depth >= 1,
                rows >= 1,
                cols >= 1,
        ;
    }
}

/// Group layout of a rank-3, axis-2 reduction: one group per (depth, row)
/// pair, the `g`-th starting at `(g / rows) * rows * cols + (g % rows) *
/// cols` and striding by 1.
pub proof fn lemma_groups_rank3_axis2(depth: int, rows: int, cols: int, len: int)
    requires
        depth >= 1,
        rows >= 1,
        cols >= 1,
        len == depth * rows * cols,
    ensures
        forall|g: int| 0 <= g < depth * rows ==> #[trigger] group_start(g, rows, rows * cols, cols)
            + (cols - 1) * 1 < len,
{
    assert forall|g: int| 0 <= g < depth * rows implies #[trigger] group_start(
        g,
        rows,
        rows * cols,
        cols,
    ) + (cols - 1) * 1 < len by {
        assert(rows * depth == depth * rows) by (nonlinear_arith);
        vstd::arithmetic::div_mod::lemma_multiply_divide_lt(g, rows, depth);
        vstd::arithmetic::div_mod::lemma_mod_division_less_than_divisor(g, rows);
        vstd::arithmetic::div_mod::lemma_div_basics_4(g, rows);
        let dd = g / rows;
        let rem = g % rows;
        assert(dd * (rows * cols) + rem * cols + (cols - 1) * 1 < depth * rows * cols)
            by (nonlinear_arith)
            requires
                0 <= dd < depth,
                0 <= rem < rows,
                depth >= 1,
                rows >= 1,
                cols >= 1,
        ;
    }
}

/// Maximum of the whole buffer.
pub(crate) fn max_flat<T: Element>(data: &Vec<T>) -> (m: T)
    requires
        data@.len() >= 1,
    ensures
        m == seq_max(data@),
{
    let n = data.len();
    let m = max_stride(data, 0, 1, n);
    proof {
        lemma_stride_seq_whole(data@);
        assert(stride_seq(data@, 0, 1, n as int) =~= data@);
    }
    m
}

/// Minimum of the whole buffer.
pub(crate) fn min_flat<T: Element>(data: &Vec<T>) -> (m: T)
    requires
        data@.len() >= 1,
    ensures
        m == seq_min(data@),
{
    let n = data.len();
    let m = min_stride(data, 0, 1, n);
    proof {
        lemma_stride_seq_whole(data@);
        assert(stride_seq(data@, 0, 1, n as int) =~= data@);
    }
    m
}

/// Maximum of one strided group, walked left to right.
pub(crate) fn max_stride<T: Element>(data: &Vec<T>, start: usize, stride: usize, count: usize) -> (m:
    T)
    requires
        count >= 1,
        stride >= 1,
        start + (count - 1) * stride < data@.len(),
    ensures
        m == seq_max(stride_seq(data@, start as int, stride as int, count as int)),
{
    let ghost s = stride_seq(data@, start as int, stride as int, count as int);
    let mut m = data[start];
    proof {
        assert(s.take(1) =~= seq![s[0]]);
        assert(s[0] == data@[start as int]);
    }
    let mut k: usize = 1;
    while k < count
        invariant
            1 <= k <= count,
            stride >= 1,
            start + (count - 1) * stride < data@.len(),
            s == stride_seq(data@, start as int, stride as int, count as int),
            m == seq_max(s.take(k as int)),
        decreases count - k,
    {
        proof {
            vstd::std_specs::vec::axiom_spec_len(data);
            assert(k as int * stride as int <= (count - 1) as int * stride as int)
                by (nonlinear_arith)
                requires
                    k as int <= (count - 1) as int,
                    stride as int >= 1,
            ;
        }
        let idx = start + k * stride;
        let v = data[idx];
        proof {
            assert(s[k as int] == data@[start as int + k as int * stride as int]);
            assert(s.take(k as int + 1).drop_last() =~= s.take(k as int));
            assert(s.take(k as int + 1).last() == s[k as int]);
            assert(v == s[k as int]);
        }
        if m.le(v) {
            m = v;
        }
        proof {
            assert(m == seq_max(s.take(k as int + 1)));
        }
        k += 1;
    }
    proof {
        assert(s.take(count as int) =~= s);
    }
    m
}

/// Minimum of one strided group, walked left to right.
pub(crate) fn min_stride<T: Element>(data: &Vec<T>, start: usize, stride: usize, count: usize) -> (m:
    T)
    requires
        count >= 1,
        stride >= 1,
        start + (count - 1) * stride < data@.len(),
    ensures
        m == seq_min(stride_seq(data@, start as int, stride as int, count as int)),
{
    let ghost s = stride_seq(data@, start as int, stride as int, count as int);
    let mut m = data[start];
    proof {
        assert(s.take(1) =~= seq![s[0]]);
        assert(s[0] == data@[start as int]);
    }
    let mut k: usize = 1;
    while k < count
        invariant
            1 <= k <= count,
            stride >= 1,
            start + (count - 1) * stride < data@.len(),
            s == stride_seq(data@, start as int, stride as int, count as int),
            m == seq_min(s.take(k as int)),
        decreases count - k,
    {
        proof {
            vstd::std_specs::vec::axiom_spec_len(data);
            assert(k as int * stride as int <= (count - 1) as int * stride as int)
                by (nonlinear_arith)
                requires
                    k as int <= (count - 1) as int,
                    stride as int >= 1,
            ;
        }
        let idx = start + k * stride;
        let v = data[idx];
        proof {
            assert(s[k as int] == data@[start as int + k as int * stride as int]);
            assert(s.take(k as int + 1).drop_last() =~= s.take(k as int));
            assert(s.take(k as int + 1).last() == s[k as int]);
            assert(v == s[k as int]);
        }
        if !m.le(v) {
            m = v;
        }
        proof {
            assert(m == seq_min(s.take(k as int + 1)));
        }
        k += 1;
    }
    proof {
        assert(s.take(count as int) =~= s);
    }
    m
}

/// One maximum per group, for groups whose starts are laid out as
/// `(g / q) * s1 + (g % q) * s2`.
pub(crate) fn max_groups<T: Element>(
    data: &Vec<T>,
    count: usize,
    q: usize,
    s1: usize,
    s2: usize,
    stride: usize,
    glen: usize,
) -> (out: Vec<T>)
    requires
        q >= 1,
        glen >= 1,
        stride >= 1,
        forall|g: int|
            0 <= g < count ==> #[trigger] group_start(g, q as int, s1 as int, s2 as int) + (glen - 1)
                * stride < data@.len(),
    ensures
        out@.len() == count,
        forall|g: int|
            0 <= g < count ==> #[trigger] out@[g] == seq_max(
                stride_seq(
                    data@,
                    group_start(g, q as int, s1 as int, s2 as int),
                    stride as int,
                    glen as int,
                ),
            ),
{
    let mut out: Vec<T> = Vec::new();
    let mut g: usize = 0;
    while g < count
        invariant
            0 <= g <= count,
            q >= 1,
            glen >= 1,
            stride >= 1,
            forall|j: int|
                0 <= j < count ==> #[trigger] group_start(j, q as int, s1 as int, s2 as int) + (glen
                    - 1) * stride < data@.len(),
            out@.len() == g,
            forall|j: int|
                0 <= j < g ==> #[trigger] out@[j] == seq_max(
                    stride_seq(
                        data@,
                        group_start(j, q as int, s1 as int, s2 as int),
                        stride as int,
                        glen as int,
                    ),
                ),
        decreases count - g,
    {
        proof {
            vstd::std_specs::vec::axiom_spec_len(data);
            assert(group_start(g as int, q as int, s1 as int, s2 as int) + (glen - 1) * stride
                < data@.len());
            assert((g as int / q as int) * s1 as int >= 0 && (g as int % q as int) * s2 as int >= 0)
                by (nonlinear_arith)
                requires
                    g as int >= 0,
                    q as int >= 1,
                    s1 as int >= 0,
                    s2 as int >= 0,
            ;
            assert((glen - 1) * stride >= 0) by (nonlinear_arith)
                requires
                    glen as int >= 1,
                    stride as int >= 1,
            ;
        }
        let start = (g / q) * s1 + (g % q) * s2;
        proof {
            assert(start as int == group_start(g as int, q as int, s1 as int, s2 as int));
        }
        let m = max_stride(data, start, stride, glen);
        out.push(m);
        g += 1;
    }
    out
}

/// One minimum per group, for groups whose starts are laid out as
/// `(g / q) * s1 + (g % q) * s2`.
pub(crate) fn min_groups<T: Element>(
    data: &Vec<T>,
    count: usize,
    q: usize,
    s1: usize,
    s2: usize,
    stride: usize,
    glen: usize,
) -> (out: Vec<T>)
    requires
        q >= 1,
        glen >= 1,
        stride >= 1,
        forall|g: int|
            0 <= g < count ==> #[trigger] group_start(g, q as int, s1 as int, s2 as int) + (glen - 1)
                * stride < data@.len(),
    ensures
        out@.len() == count,
        forall|g: int|
            0 <= g < count ==> #[trigger] out@[g] == seq_min(
                stride_seq(
                    data@,
                    group_start(g, q as int, s1 as int, s2 as int),
                    stride as int,
                    glen as int,
                ),
            ),
{
    let mut out: Vec<T> = Vec::new();
    let mut g: usize = 0;
    while g < count
        invariant
            0 <= g <= count,
            q >= 1,
            glen >= 1,
            stride >= 1,
            forall|j: int|
                0 <= j < count ==> #[trigger] group_start(j, q as int, s1 as int, s2 as int) + (glen
                    - 1) * stride < data@.len(),
            out@.len() == g,
            forall|j: int|
                0 <= j < g ==> #[trigger] out@[j] == seq_min(
                    stride_seq(
                        data@,
                        group_start(j, q as int, s1 as int, s2 as int),
                        stride as int,
                        glen as int,
                    ),
                ),
        decreases count - g,
    {
        proof {
            vstd::std_specs::vec::axiom_spec_len(data);
            assert(group_start(g as int, q as int, s1 as int, s2 as int) + (glen - 1) * stride
                < data@.len());
            assert((g as int / q as int) * s1 as int >= 0 && (g as int % q as int) * s2 as int >= 0)
                by (nonlinear_arith)
                requires
                    g as int >= 0,
                    q as int >= 1,
                    s1 as int >= 0,
                    s2 as int >= 0,
            ;
            assert((glen - 1) * stride >= 0) by (nonlinear_arith)
                requires
                    glen as int >= 1,
                    stride as int >= 1,
            ;
        }
        let start = (g / q) * s1 + (g % q) * s2;
        proof {
            assert(start as int == group_start(g as int, q as int, s1 as int, s2 as int));
        }
        let m = min_stride(data, start, stride, glen);
        out.push(m);
        g += 1;
    }
    out
}
/// The sum of a sequence of 64-bit integers, as an unbounded integer.
pub open spec fn seq_sum(s: Seq<i64>) -> int
    decreases s.len(),
{
    if s.len() == 0 {
        0
    } else {
        seq_sum(s.drop_last()) + s.last()
    }
}

/// The sum of `n` elements of `i64` lies between `-n * 2^63` and
/// `n * (2^63 - 1)`, so it always fits in an `i128` accumulator.
pub proof fn lemma_seq_sum_bounds(s: Seq<i64>)
    ensures
        -(s.len() as int) * 0x8000_0000_0000_0000 <= seq_sum(s),
        seq_sum(s) <= (s.len() as int) * 0x7FFF_FFFF_FFFF_FFFF,
    decreases s.len(),
{
    if s.len() > 0 {
        lemma_seq_sum_bounds(s.drop_last());
    }
}

/// Exact sum of one strided group, accumulated in an `i128`.
pub(crate) fn sum_stride(data: &Vec<i64>, start: usize, stride: usize, count: usize) -> (s: i128)
    requires
        count >= 1,
        stride >= 1,
        start + (count - 1) * stride < data@.len(),
    ensures
        s as int == seq_sum(stride_seq(data@, start as int, stride as int, count as int)),
{
    let ghost sq = stride_seq(data@, start as int, stride as int, count as int);
    let first = data[start];
    let mut acc: i128 = first as i128;
    proof {
        assert(sq.take(1) =~= seq![sq[0]]);
        assert(sq[0] == data@[start as int]);
        assert(sq.take(1).drop_last() =~= Seq::<i64>::empty());
        assert(seq_sum(Seq::<i64>::empty()) == 0);
    }
    let mut k: usize = 1;
    while k < count
        invariant
            1 <= k <= count,
            stride >= 1,
            start + (count - 1) * stride < data@.len(),
            sq == stride_seq(data@, start as int, stride as int, count as int),
            acc as int == seq_sum(sq.take(k as int)),
        decreases count - k,
    {
        proof {
            vstd::std_specs::vec::axiom_spec_len(data);
            assert(k as int * stride as int <= (count - 1) as int * stride as int)
                by (nonlinear_arith)
                requires
                    k as int <= (count - 1) as int,
                    stride as int >= 1,
            ;
        }
        let idx = start + k * stride;
        let v = data[idx];
        proof {
            assert(sq[k as int] == data@[start as int + k as int * stride as int]);
            assert(sq.take(k as int + 1).drop_last() =~= sq.take(k as int));
            assert(sq.take(k as int + 1).last() == sq[k as int]);
            lemma_seq_sum_bounds(sq.take(k as int));
        }
        acc = acc + (v as i128);
        k += 1;
    }
    proof {
        assert(sq.take(count as int) =~= sq);
    }
    acc
}

/// Exact sum of the whole buffer.
pub(crate) fn sum_flat(data: &Vec<i64>) -> (s: i128)
    requires
        data@.len() >= 1,
    ensures
        s as int == seq_sum(data@),
{
    let n = data.len();
    let s = sum_stride(data, 0, 1, n);
    proof {
        lemma_stride_seq_whole(data@);
        assert(stride_seq(data@, 0, 1, n as int) =~= data@);
    }
    s
}

/// One exact sum per group, for groups whose starts are laid out as
/// `(g / q) * s1 + (g % q) * s2`.
pub(crate) fn sum_groups(
    data: &Vec<i64>,
    count: usize,
    q: usize,
    s1: usize,
    s2: usize,
    stride: usize,
    glen: usize,
) -> (out: Vec<i128>)
    requires
        q >= 1,
        glen >= 1,
        stride >= 1,
        forall|g: int|
            0 <= g < count ==> #[trigger] group_start(g, q as int, s1 as int, s2 as int) + (glen - 1)
                * stride < data@.len(),
    ensures
        out@.len() == count,
        forall|g: int|
            0 <= g < count ==> #[trigger] out@[g] as int == seq_sum(
                stride_seq(
                    data@,
                    group_start(g, q as int, s1 as int, s2 as int),
                    stride as int,
                    glen as int,
                ),
            ),
{
    let mut out: Vec<i128> = Vec::new();
    let mut g: usize = 0;
    while g < count
        invariant
            0 <= g <= count,
            q >= 1,
            glen >= 1,
            stride >= 1,
            forall|j: int|
                0 <= j < count ==> #[trigger] group_start(j, q as int, s1 as int, s2 as int) + (glen
                    - 1) * stride < data@.len(),
            out@.len() == g,
            forall|j: int|
                0 <= j < g ==> #[trigger] out@[j] as int == seq_sum(
                    stride_seq(
                        data@,
                        group_start(j, q as int, s1 as int, s2 as int),
                        stride as int,
                        glen as int,
                    ),
                ),
        decreases count - g,
    {
        proof {
            vstd::std_specs::vec::axiom_spec_len(data);
            assert(group_start(g as int, q as int, s1 as int, s2 as int) + (glen - 1) * stride
                < data@.len());
            assert((g as int / q as int) * s1 as int >= 0 && (g as int % q as int) * s2 as int >= 0)
                by (nonlinear_arith)
                requires
                    g as int >= 0,
                    q as int >= 1,
                    s1 as int >= 0,
                    s2 as int >= 0,
            ;
            assert((glen - 1) * stride >= 0) by (nonlinear_arith)
                requires
                    glen as int >= 1,
                    stride as int >= 1,
            ;
        }
        let start = (g / q) * s1 + (g % q) * s2;
        proof {
            assert(start as int == group_start(g as int, q as int, s1 as int, s2 as int));
        }
        let m = sum_stride(data, start, stride, glen);
        out.push(m);
        g += 1;
    }
    out
}



/// Each element of a maximum reduction is a member of its group, and every
/// member of the group is below or equal to it: the fold that defines the
/// result really computes the greatest element under the total order.
pub proof fn lemma_max_result_is_group_max<T: Element>(
    data: Seq<T>,
    dims: Seq<usize>,
    axis: Option<usize>,
    g: int,
)
    requires
        0 <= g < reduce_len(dims, axis),
        reduce_group(data, dims, axis, g).len() > 0,
    ensures
        reduce_group(data, dims, axis, g).contains(max_result(data, dims, axis)[g]),
        forall|i: int|
            0 <= i < reduce_group(data, dims, axis, g).len() ==> #[trigger] reduce_group(
                data,
                dims,
                axis,
                g,
            )[i].le_spec(max_result(data, dims, axis)[g]),
{
    crate::element::lemma_seq_max_properties(reduce_group(data, dims, axis, g));
}

/// Each element of a minimum reduction is a member of its group, and it is
/// below or equal to every member of the group: the fold that defines the
/// result really computes the least element under the total order.
pub proof fn lemma_min_result_is_group_min<T: Element>(
    data: Seq<T>,
    dims: Seq<usize>,
    axis: Option<usize>,
    g: int,
)
    requires
        0 <= g < reduce_len(dims, axis),
        reduce_group(data, dims, axis, g).len() > 0,
    ensures
        reduce_group(data, dims, axis, g).contains(min_result(data, dims, axis)[g]),
        forall|i: int|
            0 <= i < reduce_group(data, dims, axis, g).len() ==> #[trigger] min_result(
                data,
                dims,
                axis,
            )[g].le_spec(reduce_group(data, dims, axis, g)[i]),
{
    crate::element::lemma_seq_min_properties(reduce_group(data, dims, axis, g));
}

} // verus!
