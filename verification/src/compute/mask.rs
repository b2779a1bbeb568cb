//! Boolean selections over an array, and what it means to filter and to take.

use vstd::prelude::*;

verus! {

/// The number of `true` flags.
pub open spec fn count_true(bits: Seq<bool>) -> nat
    decreases bits.len(),
{
    if bits.len() == 0 {
        0
    } else {
        count_true(bits.drop_last()) + if bits.last() {
            1nat
        } else {
            0nat
        }
    }
}

/// The positions of the `true` flags, in increasing order.
pub open spec fn set_indices(bits: Seq<bool>) -> Seq<usize>
    decreases bits.len(),
{
    if bits.len() == 0 {
        Seq::empty()
    } else if bits.last() {
        set_indices(bits.drop_last()).push((bits.len() - 1) as usize)
    } else {
        set_indices(bits.drop_last())
    }
}

/// The items of `s` whose flag is set, in order.
pub open spec fn filter_seq<T>(s: Seq<T>, bits: Seq<bool>) -> Seq<T>
    decreases bits.len(),
{
    if bits.len() == 0 || s.len() != bits.len() {
        Seq::empty()
    } else if bits.last() {
        filter_seq(s.drop_last(), bits.drop_last()).push(s.last())
    } else {
        filter_seq(s.drop_last(), bits.drop_last())
    }
}

/// The items of `s` at `indices`, in the order of the indices.
pub open spec fn take_seq<T>(s: Seq<T>, indices: Seq<usize>) -> Seq<T> {
    Seq::new(indices.len(), |k: int| s[indices[k] as int])
}

/// The indices `0, 1, .., n - 1`.
pub open spec fn identity_indices(n: nat) -> Seq<usize> {
    Seq::new(n, |k: int| k as usize)
}

/// Whether every index is below `len`.
pub open spec fn indices_in_bounds(indices: Seq<usize>, len: int) -> bool {
    forall|k: int| 0 <= k < indices.len() ==> (#[trigger] indices[k]) < len
}

/// Whether position `i` lies in one of the half-open ranges.
pub open spec fn in_slices(slices: Seq<(usize, usize)>, i: int) -> bool {
    exists|k: int| 0 <= k < slices.len() && (#[trigger] slices[k]).0 <= i < slices[k].1
}

/// Whether the ranges, empty ones among them, lie within `len` and follow one another
/// without overlap.
pub open spec fn slices_ordered(slices: Seq<(usize, usize)>, len: int) -> bool {
    &&& forall|k: int| 0 <= k < slices.len() ==> (#[trigger] slices[k]).0 <= slices[k].1 <= len
    &&& forall|j: int, k: int| 0 <= j < k < slices.len() ==> (#[trigger] slices[j]).1 <= (#[trigger] slices[k]).0
}

/// Whether the ranges are runs: ordered within `len`, and none empty.
pub open spec fn runs_ordered(runs: Seq<(usize, usize)>, len: int) -> bool {
    &&& slices_ordered(runs, len)
    &&& forall|k: int| 0 <= k < runs.len() ==> (#[trigger] runs[k]).0 < runs[k].1
}

/// Whether the runs lie apart: between one and the next there is a position.
pub open spec fn runs_apart(runs: Seq<(usize, usize)>) -> bool {
    forall|j: int, k: int| 0 <= j < k < runs.len() ==> (#[trigger] runs[j]).1 < (#[trigger] runs[k]).0
}

/// The selection that holds exactly the positions of the ranges.
pub open spec fn slices_bits(slices: Seq<(usize, usize)>, len: int) -> Seq<bool> {
    Seq::new(len as nat, |i: int| in_slices(slices, i))
}

/// A filter keeps as many items as flags are set.
pub proof fn lemma_filter_len<T>(s: Seq<T>, bits: Seq<bool>)
    requires s.len() == bits.len(),
    ensures filter_seq(s, bits).len() == count_true(bits),
    decreases bits.len(),
{
    if bits.len() > 0 {
        lemma_filter_len(s.drop_last(), bits.drop_last());
    }
}

/// Filtering two sequences laid end to end filters each.
pub proof fn lemma_filter_concat<T>(s1: Seq<T>, m1: Seq<bool>, s2: Seq<T>, m2: Seq<bool>)
    requires
        s1.len() == m1.len(),
        s2.len() == m2.len(),
    ensures
        filter_seq(s1 + s2, m1 + m2) == filter_seq(s1, m1) + filter_seq(s2, m2),
    decreases m2.len(),
{
    if m2.len() == 0 {
        assert(s1 + s2 =~= s1);
        assert(m1 + m2 =~= m1);
        assert(filter_seq(s1, m1) + filter_seq(s2, m2) =~= filter_seq(s1, m1));
    } else {
        assert((s1 + s2).drop_last() =~= s1 + s2.drop_last());
        assert((m1 + m2).drop_last() =~= m1 + m2.drop_last());
        lemma_filter_concat(s1, m1, s2.drop_last(), m2.drop_last());
        assert((s1 + s2).last() == s2.last());
        assert((m1 + m2).last() == m2.last());
        if m2.last() {
            assert(filter_seq(s1, m1) + filter_seq(s2.drop_last(), m2.drop_last()).push(s2.last())
                =~= (filter_seq(s1, m1) + filter_seq(s2.drop_last(), m2.drop_last())).push(s2.last()));
        }
    }
}

/// A selection of all keeps everything.
pub proof fn lemma_filter_all<T>(s: Seq<T>, bits: Seq<bool>)
    requires
        s.len() == bits.len(),
        forall|i: int| 0 <= i < bits.len() ==> bits[i],
    ensures
        filter_seq(s, bits) == s,
    decreases bits.len(),
{
    if bits.len() > 0 {
        lemma_filter_all(s.drop_last(), bits.drop_last());
        assert(s.drop_last().push(s.last()) =~= s);
    }
}

/// A selection of none keeps nothing.
pub proof fn lemma_filter_none<T>(s: Seq<T>, bits: Seq<bool>)
    requires
        s.len() == bits.len(),
        forall|i: int| 0 <= i < bits.len() ==> !bits[i],
    ensures
        filter_seq(s, bits) == Seq::<T>::empty(),
    decreases bits.len(),
{
    if bits.len() > 0 {
        lemma_filter_none(s.drop_last(), bits.drop_last());
    }
}

/// The set positions are as many as flags are set, lie below the length, and increase.
pub proof fn lemma_set_indices(bits: Seq<bool>)
    requires bits.len() <= usize::MAX,
    ensures
        set_indices(bits).len() == count_true(bits),
        indices_in_bounds(set_indices(bits), bits.len() as int),
        forall|k: int| 0 <= k < set_indices(bits).len() ==> bits[(#[trigger] set_indices(bits)[k]) as int],
        forall|j: int, k: int| 0 <= j < k < set_indices(bits).len() ==> set_indices(bits)[j] < set_indices(bits)[k],
        forall|i: int| 0 <= i < bits.len() && bits[i] ==> exists|k: int| 0 <= k < set_indices(bits).len() && set_indices(bits)[k] == i,
    decreases bits.len(),
{
    if bits.len() > 0 {
        let prev = bits.drop_last();
        lemma_set_indices(prev);
        let r = set_indices(bits);
        assert forall|i: int| 0 <= i < bits.len() && bits[i] implies exists|k: int| 0 <= k < r.len() && r[k] == i by {
            if i < bits.len() - 1 {
                assert(prev[i]);
                let k = choose|k: int| 0 <= k < set_indices(prev).len() && set_indices(prev)[k] == i;
                assert(r[k] == i);
            } else {
                assert(r[r.len() - 1] == i);
            }
        }
    }
}

/// Filtering is taking at the set positions.
pub proof fn lemma_filter_is_take<T>(s: Seq<T>, bits: Seq<bool>)
    requires
        s.len() == bits.len(),
        bits.len() <= usize::MAX,
    ensures
        filter_seq(s, bits) == take_seq(s, set_indices(bits)),
    decreases bits.len(),
{
    if bits.len() == 0 {
        assert(filter_seq(s, bits) =~= take_seq(s, set_indices(bits)));
    } else {
        lemma_filter_is_take(s.drop_last(), bits.drop_last());
        lemma_set_indices(bits.drop_last());
        assert(filter_seq(s, bits) =~= take_seq(s, set_indices(bits)));
    }
}

/// Taking at `0, 1, .., n - 1` changes nothing.
pub proof fn lemma_take_identity<T>(s: Seq<T>)
    requires s.len() <= usize::MAX,
    ensures take_seq(s, identity_indices(s.len())) == s,
{
    assert(take_seq(s, identity_indices(s.len())) =~= s);
}

/// The number of set flags.
pub fn true_count_of(bits: &Vec<bool>) -> (r: usize)
    ensures r == count_true(bits@),
{
    let mut n: usize = 0;
    let mut i: usize = 0;
    while i < bits.len()
        invariant
            i <= bits@.len(),
            n == count_true(bits@.subrange(0, i as int)),
            n <= i,
        decreases bits@.len() - i,
    {
        assert(bits@.subrange(0, i + 1).drop_last() =~= bits@.subrange(0, i as int));
        if bits[i] {
            n += 1;
        }
        i += 1;
    }
    assert(bits@.subrange(0, bits@.len() as int) =~= bits@);
    n
}

/// Flags that are set up to some position and clear from it on are set up to their count.
pub proof fn lemma_set_prefix(bits: Seq<bool>)
    requires
        forall|i: int, j: int| 0 <= i <= j < bits.len() && bits[j] ==> bits[i],
    ensures
        count_true(bits) <= bits.len(),
        forall|i: int| 0 <= i < bits.len() ==> bits[i] == (i < count_true(bits)),
    decreases bits.len(),
{
    if bits.len() > 0 {
        let prev = bits.drop_last();
        assert forall|i: int, j: int| 0 <= i <= j < prev.len() && prev[j] implies prev[i] by {
            assert(bits[j] ==> bits[i]);
        }
        lemma_set_prefix(prev);
        if bits.last() {
            assert forall|i: int| 0 <= i < prev.len() implies prev[i] by {
                assert(bits[bits.len() - 1] ==> bits[i]);
            }
            if prev.len() > 0 {
                assert(prev[prev.len() - 1] == (prev.len() - 1 < count_true(prev)));
            }
            assert(count_true(prev) == prev.len());
        }
        assert forall|i: int| 0 <= i < bits.len() implies bits[i] == (i < count_true(bits)) by {
            if i < prev.len() {
                assert(prev[i] == (i < count_true(prev)));
                assert(prev[i] == bits[i]);
            }
        }
    }
}

/// A logical boolean selection over an array, with the number of selected positions.
#[derive(Debug)]
pub struct FilterMask {
    bits: Vec<bool>,
    true_count: usize,
}

impl View for FilterMask {
    type V = Seq<bool>;

    closed spec fn view(&self) -> Seq<bool> {
        self.bits@
    }
}

impl FilterMask {
    /// The cached count is the number of set flags.
    pub closed spec fn wf(&self) -> bool {
        self.true_count == count_true(self.bits@)
    }

    /// The selection with the given flags.
    pub fn from_bools(bits: Vec<bool>) -> (r: FilterMask)
        ensures
            r.wf(),
            r@ == bits@,
    {
        let n = true_count_of(&bits);
        FilterMask { bits, true_count: n }
    }

    pub fn len(&self) -> (r: usize)
        ensures r == self@.len(),
    {
        self.bits.len()
    }

    /// The number of selected positions.
    pub fn true_count(&self) -> (r: usize)
        requires self.wf(),
        ensures r == count_true(self@),
    {
        self.true_count
    }

    /// The flag of position `i`.
    pub fn value(&self, i: usize) -> (r: bool)
        requires i < self@.len(),
        ensures r == self@[i as int],
    {
        self.bits[i]
    }

    /// The flags, one per position.
    pub fn to_bools(&self) -> (r: Vec<bool>)
        ensures r@ == self@,
    {
        self.bits.clone()
    }

    /// The selected positions, in increasing order.
    pub fn iter_indices(&self) -> (r: Vec<usize>)
        ensures r@ == set_indices(self@),
    {
        let mut out: Vec<usize> = Vec::new();
        let mut i: usize = 0;
        while i < self.bits.len()
            invariant
                i <= self.bits@.len(),
                out@ == set_indices(self.bits@.subrange(0, i as int)),
            decreases self.bits@.len() - i,
        {
            assert(self.bits@.subrange(0, i + 1).drop_last() =~= self.bits@.subrange(0, i as int));
            if self.bits[i] {
                out.push(i);
            }
            i += 1;
        }
        assert(self.bits@.subrange(0, self.bits@.len() as int) =~= self.bits@);
        out
    }

    /// The selected positions as maximal runs `(start, end)`, end exclusive, in increasing
    /// order.
    #[verifier::rlimit(40)]
    pub fn iter_slices(&self) -> (r: Vec<(usize, usize)>)
        ensures
            runs_ordered(r@, self@.len() as int),
            runs_apart(r@),
            forall|i: int| 0 <= i < self@.len() ==> self@[i] == in_slices(r@, i),
    {
        let n = self.bits.len();
        let mut out: Vec<(usize, usize)> = Vec::new();
        let mut i: usize = 0;
        while i < n
            invariant
                n == self.bits@.len(),
                i <= n,
                runs_ordered(out@, i as int),
                runs_apart(out@),
                i < n && self.bits@[i as int] ==> forall|k: int| 0 <= k < out@.len() ==> (#[trigger] out@[k]).1 < i,
                forall|j: int| 0 <= j < i ==> self.bits@[j] == in_slices(out@, j),
                forall|j: int| i <= j ==> !in_slices(out@, j),
            decreases n - i,
        {
            if !self.bits[i] {
                i += 1;
            } else {
                let start = i;
                while i < n && self.bits[i]
                    invariant
                        n == self.bits@.len(),
                        start <= i <= n,
                        start < n,
                        self.bits@[start as int],
                        forall|j: int| start <= j < i ==> self.bits@[j],
                    decreases n - i,
                {
                    i += 1;
                }
                let ghost before = out@;
                out.push((start, i));
                proof {
                    let k_new = before.len() as int;
                    assert(out@[k_new] == (start, i));
                    assert forall|j: int| 0 <= j < i implies self.bits@[j] == in_slices(out@, j) by {
                        if j < start {
                            if in_slices(before, j) {
                                let k = choose|k: int| 0 <= k < before.len() && (#[trigger] before[k]).0 <= j < before[k].1;
                                assert(out@[k] == before[k]);
                            }
                            if in_slices(out@, j) {
                                let k = choose|k: int| 0 <= k < out@.len() && (#[trigger] out@[k]).0 <= j < out@[k].1;
                                assert(k < before.len());
                                assert(before[k] == out@[k]);
                            }
                        } else {
                            assert(out@[k_new].0 <= j < out@[k_new].1);
                        }
                    }
                    assert forall|j: int| i <= j implies !in_slices(out@, j) by {
                        if in_slices(out@, j) {
                            let k = choose|k: int| 0 <= k < out@.len() && (#[trigger] out@[k]).0 <= j < out@[k].1;
                            if k < before.len() {
                                assert(before[k] == out@[k]);
                                assert(in_slices(before, j));
                            }
                        }
                    }
                    assert forall|a: int, b: int| 0 <= a < b < out@.len() implies (#[trigger] out@[a]).1 < (#[trigger] out@[b]).0 by {
                        assert(out@[a] == before[a]);
                        if b < before.len() {
                            assert(out@[b] == before[b]);
                        }
                    }
                    assert forall|k: int| 0 <= k < out@.len() implies (#[trigger] out@[k]).0 < out@[k].1 <= i by {
                        if k < before.len() {
                            assert(out@[k] == before[k]);
                            if before[k].1 > start {
                                assert(before[k].0 <= before[k].1 - 1 < before[k].1);
                                assert(in_slices(before, before[k].1 - 1));
                            }
                        }
                    }
                }
            }
        }
        out
    }
}

} // verus!
