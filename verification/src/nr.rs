use vstd::prelude::*;

verus! {

/// Capability of numeric element types that have distinguished zero and one
/// values; it backs the whole-buffer fill operations.
pub trait Numeric: Sized {
    /// The zero value of the type.
    spec fn zero_spec() -> Self;

    /// The one value of the type.
    spec fn one_spec() -> Self;

    /// A vector of `len` zeros.
    fn zeros(len: usize) -> (v: Vec<Self>)
        ensures
            v@.len() == len,
            forall|i: int| 0 <= i < len ==> v@[i] == Self::zero_spec(),
    ;

    /// A vector of `len` ones.
    fn ones(len: usize) -> (v: Vec<Self>)
        ensures
            v@.len() == len,
            forall|i: int| 0 <= i < len ==> v@[i] == Self::one_spec(),
    ;
}

/// A vector holding `len` copies of `value`.
fn filled<T: Copy>(len: usize, value: T) -> (v: Vec<T>)
    ensures
        v@.len() == len,
        forall|i: int| 0 <= i < len ==> v@[i] == value,
{
    let mut v: Vec<T> = Vec::new();
    let mut i: usize = 0;
    while i < len
        invariant
            0 <= i <= len,
            v@.len() == i,
            forall|j: int| 0 <= j < i ==> v@[j] == value,
        decreases len - i,
    {
        v.push(value);
        i += 1;
    }
    v
}

impl Numeric for i64 {
    open spec fn zero_spec() -> Self {
        0
    }

    open spec fn one_spec() -> Self {
        1
    }

    fn zeros(len: usize) -> (v: Vec<Self>) {
        filled(len, 0)
    }

    fn ones(len: usize) -> (v: Vec<Self>) {
        filled(len, 1)
    }
}

/// A rank-agnostic array: a flat buffer of elements with no shape attached.
#[derive(Debug)]
pub struct Array<T> {
    data: Vec<T>,
}

impl<T> Array<T> {
    /// The elements of the array.
    pub closed spec fn spec_data(&self) -> Seq<T> {
        self.data@
    }

    /// Wraps a vector of elements into an array.
    pub fn new(data: Vec<T>) -> (a: Self)
        ensures
            a.spec_data() == data@,
    {
        Array { data }
    }

    /// Returns a read-only reference to the array's data.
    pub fn data(&self) -> (d: &Vec<T>)
        ensures
            d@ == self.spec_data(),
    {
        &self.data
    }
}

impl<T: Numeric> Array<T> {
    /// Sets every element of the array to zero; the length is unchanged.
    pub fn zeros(&mut self)
        ensures
            final(self).spec_data().len() == old(self).spec_data().len(),
            forall|i: int|
                0 <= i < final(self).spec_data().len() ==> final(self).spec_data()[i]
                    == T::zero_spec(),
    {
        let len = self.data.len();
        self.data = T::zeros(len);
    }

    /// Sets every element of the array to one; the length is unchanged.
    pub fn ones(&mut self)
        ensures
            final(self).spec_data().len() == old(self).spec_data().len(),
            forall|i: int|
                0 <= i < final(self).spec_data().len() ==> final(self).spec_data()[i]
                    == T::one_spec(),
    {
        let len = self.data.len();
        self.data = T::ones(len);
    }
}

impl Array<i64> {
    /// The name of the element type held by this array.
    pub fn dtype(&self) -> (s: &'static str)
        ensures
            s@ == "int64"@,
    {
        "int64"
    }
}

} // verus!
