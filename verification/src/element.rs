use vstd::prelude::*;

verus! {

/// A copyable element type equipped with a total order, so that maxima and
/// minima over groups of elements are well defined. The reduction engine is
/// written against this capability rather than any concrete element type.
pub trait Element: Sized + Copy {
    /// The ordering relation: `self` is less than or equal to `other`.
    spec fn le_spec(self, other: Self) -> bool;

    /// The order is total.
    proof fn lemma_le_total(a: Self, b: Self)
        ensures
            a.le_spec(b) || b.le_spec(a),
    ;

    /// The order is transitive.
    proof fn lemma_le_trans(a: Self, b: Self, c: Self)
        requires
            a.le_spec(b),
            b.le_spec(c),
        ensures
            a.le_spec(c),
    ;

    /// Executable comparison agreeing with the ordering relation.
    fn le(self, other: Self) -> (r: bool)
        ensures
            r == self.le_spec(other),
    ;
}

impl Element for i64 {
    open spec fn le_spec(self, other: Self) -> bool {
        self <= other
    }

    proof fn lemma_le_total(a: Self, b: Self) {
    }

    proof fn lemma_le_trans(a: Self, b: Self, c: Self) {
    }

    fn le(self, other: Self) -> (r: bool) {
        self <= other
    }
}

/// The maximum of a non-empty sequence, folded left to right; when several
/// elements are equally maximal, the last of them is kept.
pub open spec fn seq_max<T: Element>(s: Seq<T>) -> T
    recommends
        s.len() > 0,
    decreases s.len(),
{
    if s.len() <= 1 {
        s[0]
    } else if seq_max(s.drop_last()).le_spec(s.last()) {
        s.last()
    } else {
        seq_max(s.drop_last())
    }
}

/// The minimum of a non-empty sequence, folded left to right; when several
/// elements are equally minimal, the first of them is kept.
pub open spec fn seq_min<T: Element>(s: Seq<T>) -> T
    recommends
        s.len() > 0,
    decreases s.len(),
{
    if s.len() <= 1 {
        s[0]
    } else if seq_min(s.drop_last()).le_spec(s.last()) {
        seq_min(s.drop_last())
    } else {
        s.last()
    }
}

/// The maximum of a non-empty sequence is one of its elements, and every
/// element is below or equal to it.
pub proof fn lemma_seq_max_properties<T: Element>(s: Seq<T>)
    requires
        s.len() > 0,
    ensures
        s.contains(seq_max(s)),
        forall|i: int| 0 <= i < s.len() ==> #[trigger] s[i].le_spec(seq_max(s)),
    decreases s.len(),
{
    if s.len() == 1 {
        T::lemma_le_total(s[0], s[0]);
        assert(s[0] == seq_max(s));
    } else {
        let t = s.drop_last();
        lemma_seq_max_properties(t);
        let m = seq_max(t);
        let last = s.last();
        assert forall|i: int| 0 <= i < t.len() implies t[i] == s[i] by {}
        if m.le_spec(last) {
            assert(seq_max(s) == last);
            T::lemma_le_total(last, last);
            assert forall|i: int| 0 <= i < s.len() implies #[trigger] s[i].le_spec(last) by {
                if i < t.len() {
                    assert(s[i] == t[i]);
                    assert(t[i].le_spec(m));
                    T::lemma_le_trans(t[i], m, last);
                } else {
                    assert(s[i] == last);
                }
            }
            assert(s[s.len() - 1] == last);
        } else {
            T::lemma_le_total(m, last);
            assert(seq_max(s) == m);
            assert forall|i: int| 0 <= i < s.len() implies #[trigger] s[i].le_spec(m) by {
                if i < t.len() {
                    assert(s[i] == t[i]);
                    assert(t[i].le_spec(m));
                } else {
                    assert(s[i] == last);
                    assert(last.le_spec(m));
                }
            }
            assert(t.contains(m));
            let j = choose|j: int| 0 <= j < t.len() && t[j] == m;
            assert(s[j] == m);
        }
    }
}

/// The minimum of a non-empty sequence is one of its elements, and it is
/// below or equal to every element.
pub proof fn lemma_seq_min_properties<T: Element>(s: Seq<T>)
    requires
        s.len() > 0,
    ensures
        s.contains(seq_min(s)),
        forall|i: int| 0 <= i < s.len() ==> #[trigger] seq_min(s).le_spec(s[i]),
    decreases s.len(),
{
    if s.len() == 1 {
        T::lemma_le_total(s[0], s[0]);
        assert(s[0] == seq_min(s));
    } else {
        let t = s.drop_last();
        lemma_seq_min_properties(t);
        let m = seq_min(t);
        let last = s.last();
        assert forall|i: int| 0 <= i < t.len() implies t[i] == s[i] by {}
        if m.le_spec(last) {
            assert(seq_min(s) == m);
            assert forall|i: int| 0 <= i < s.len() implies #[trigger] m.le_spec(s[i]) by {
                if i < t.len() {
                    assert(s[i] == t[i]);
                    assert(m.le_spec(t[i]));
                } else {
                    assert(s[i] == last);
                }
            }
            assert(t.contains(m));
            let j = choose|j: int| 0 <= j < t.len() && t[j] == m;
            assert(s[j] == m);
        } else {
            T::lemma_le_total(m, last);
            T::lemma_le_total(last, last);
            assert(seq_min(s) == last);
            assert forall|i: int| 0 <= i < s.len() implies #[trigger] last.le_spec(s[i]) by {
                if i < t.len() {
                    assert(s[i] == t[i]);
                    assert(m.le_spec(t[i]));
                    T::lemma_le_trans(last, m, t[i]);
                } else {
                    assert(s[i] == last);
                }
            }
            assert(s[s.len() - 1] == last);
        }
    }
}

} // verus!
