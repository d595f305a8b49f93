use vstd::prelude::*;

verus! {

/// Mathematical product of a sequence of extents.
pub open spec fn product_of(dims: Seq<usize>) -> int
    decreases dims.len(),
{
    if dims.len() == 0 {
        1
    } else {
        product_of(dims.drop_last()) * dims.last()
    }
}

/// Element count described by an extent list: the product of all extents,
/// with an empty extent list denoting an empty array by convention.
pub open spec fn size_of_dims(dims: Seq<usize>) -> int {
    if dims.len() == 0 {
        0
    } else {
        product_of(dims)
    }
}

pub proof fn lemma_product_cons(x: usize, t: Seq<usize>)
    ensures
        product_of(seq![x] + t) == x * product_of(t),
    decreases t.len(),
{
    if t.len() == 0 {
        assert(seq![x] + t =~= seq![x]);
        assert(seq![x].drop_last() =~= Seq::<usize>::empty());
        assert(product_of(seq![x]) == product_of(seq![x].drop_last()) * x);
    } else {
        assert((seq![x] + t).drop_last() =~= seq![x] + t.drop_last());
        lemma_product_cons(x, t.drop_last());
        assert((seq![x] + t).last() == t.last());
        let a = x as int;
        let b = product_of(t.drop_last());
        let c = t.last() as int;
        assert((a * b) * c == a * (b * c)) by (nonlinear_arith);
    }
}

pub proof fn lemma_product_split(s: Seq<usize>, i: int)
    requires
        0 <= i <= s.len(),
    ensures
        product_of(s) == product_of(s.take(i)) * product_of(s.skip(i)),
    decreases s.len() - i,
{
    if i == s.len() {
        assert(s.take(i) =~= s);
        assert(s.skip(i) =~= Seq::<usize>::empty());
    } else {
        lemma_product_split(s, i + 1);
        assert(s.take(i + 1).drop_last() =~= s.take(i));
        assert(s.take(i + 1).last() == s[i]);
        assert(s.skip(i) =~= seq![s[i]] + s.skip(i + 1));
        lemma_product_cons(s[i], s.skip(i + 1));
        let a = product_of(s.take(i));
        let b = s[i] as int;
        let c = product_of(s.skip(i + 1));
        assert((a * b) * c == a * (b * c)) by (nonlinear_arith);
    }
}

pub proof fn lemma_product_zero(s: Seq<usize>, i: int)
    requires
        0 <= i < s.len(),
        s[i] == 0,
    ensures
        product_of(s) == 0,
{
    lemma_product_split(s, i);
    assert(s.skip(i) =~= seq![s[i]] + s.skip(i + 1));
    lemma_product_cons(s[i], s.skip(i + 1));
    let a = product_of(s.take(i));
    let c = product_of(s.skip(i + 1));
    assert(a * (0 * c) == 0) by (nonlinear_arith);
}

pub proof fn lemma_product_pos(s: Seq<usize>)
    requires
        forall|j: int| 0 <= j < s.len() ==> s[j] >= 1,
    ensures
        product_of(s) >= 1,
    decreases s.len(),
{
    if s.len() > 0 {
        lemma_product_pos(s.drop_last());
        let a = product_of(s.drop_last());
        let b = s.last() as int;
        assert(a >= 1 && b >= 1 ==> a * b >= 1) by (nonlinear_arith);
    }
}

pub proof fn lemma_size_rank1(s: Seq<usize>)
    requires
        s.len() == 1,
    ensures
        size_of_dims(s) == s[0],
{
    assert(s.drop_last() =~= Seq::<usize>::empty());
    assert(product_of(s) == product_of(s.drop_last()) * s.last());
    assert(product_of(Seq::<usize>::empty()) == 1);
}

pub proof fn lemma_size_rank2(s: Seq<usize>)
    requires
        s.len() == 2,
    ensures
        size_of_dims(s) == s[0] * s[1],
{
    lemma_size_rank1(s.drop_last());
    assert(s.drop_last()[0] == s[0]);
    assert(s.last() == s[1]);
}

pub proof fn lemma_size_rank3(s: Seq<usize>)
    requires
        s.len() == 3,
    ensures
        size_of_dims(s) == s[0] * s[1] * s[2],
{
    lemma_size_rank2(s.drop_last());
    assert(s.drop_last()[0] == s[0] && s.drop_last()[1] == s[1]);
    assert(s.last() == s[2]);
}

/// Computes the element count of an extent list, scanning first for a zero
/// extent so that no intermediate product can exceed the final one.
pub fn slice_size(dims: &[usize]) -> (s: usize)
    requires
        size_of_dims(dims@) <= usize::MAX,
    ensures
        s as int == size_of_dims(dims@),
{
    let n = dims.len();
    if n == 0 {
        return 0;
    }
    let mut i: usize = 0;
    while i < n
        invariant
            0 <= i <= n,
            n == dims@.len(),
            forall|j: int| 0 <= j < i ==> dims@[j] >= 1,
        decreases n - i,
    {
        if dims[i] == 0 {
            proof {
                lemma_product_zero(dims@, i as int);
            }
            return 0;
        }
        i += 1;
    }
    let mut p: usize = 1;
    let mut k: usize = 0;
    while k < n
        invariant
            0 <= k <= n,
            n == dims@.len(),
            forall|j: int| 0 <= j < n ==> dims@[j] >= 1,
            p as int == product_of(dims@.take(k as int)),
            size_of_dims(dims@) <= usize::MAX,
        decreases n - k,
    {
        proof {
            lemma_product_split(dims@, k as int);
            assert(dims@.skip(k as int) =~= seq![dims@[k as int]] + dims@.skip(k as int + 1));
            lemma_product_cons(dims@[k as int], dims@.skip(k as int + 1));
            assert(forall|j: int| 0 <= j < dims@.skip(k as int + 1).len()
                ==> #[trigger] dims@.skip(k as int + 1)[j] >= 1);
            lemma_product_pos(dims@.skip(k as int + 1));
            lemma_product_pos(dims@.take(k as int));
            let a = p as int;
            let b = dims@[k as int] as int;
            let c = product_of(dims@.skip(k as int + 1));
            assert(a >= 1 && b >= 1 && c >= 1 ==> a * b <= a * (b * c)) by (nonlinear_arith);
            assert(dims@.take(k as int + 1).drop_last() =~= dims@.take(k as int));
            assert(dims@.take(k as int + 1).last() == dims@[k as int]);
        }
        p = p * dims[k];
        k += 1;
    }
    proof {
        assert(dims@.take(n as int) =~= dims@);
    }
    p
}

/// Capability describing the dimensions of an array: a rank, a per-axis
/// extent list, and the total element count.
pub trait Dimension: Sized {
    /// The extent along each axis, outermost axis first.
    spec fn dims_spec(&self) -> Seq<usize>;

    /// The number of axes.
    fn ndim(&self) -> (n: usize)
        ensures
            n == self.dims_spec().len(),
    ;

    /// The element count: the product of all extents, or 0 for an empty
    /// extent list.
    fn size(&self) -> (s: usize)
        requires
            size_of_dims(self.dims_spec()) <= usize::MAX,
        ensures
            s as int == size_of_dims(self.dims_spec()),
    ;

    /// The extents as a read-only slice, axis 0 first.
    fn dims(&self) -> (d: &[usize])
        ensures
            d@ == self.dims_spec(),
    ;
}

/// Rank selector for callers that fix the dimensionality at runtime.
#[derive(Debug, Clone, Copy, PartialEq, Eq, Structural)]
pub enum DimensionType {
    D1,
    D2,
    D3,
}

} // verus!
