//! The bit-packed encoding, and searching it without unpacking it whole.
//!
//! Values that fit the bit width are held packed, one lane each; the others are patches: a
//! sparse sidecar with the position and the value of each. How lanes are laid out in bits
//! is the codec's concern and not modelled: a lane is read by its position.
//!
//! Searching asks for a sorted array. Nulls sort as greatest, and a patch is greater than
//! every packed value, so a sorted array is packed values first, then patches, then nulls.

use vstd::prelude::*;

use crate::array::{position_of, ArrayData, PrimitiveArray, SparseArray};
use crate::compute::mask::{count_true, lemma_set_prefix, true_count_of};
use crate::compute::scalar_at::lemma_position_of;
use crate::compute::search_sorted::{
    is_search_result, key_le, key_order, keys_sorted, search_sorted, IndexOrd, Order,
    SearchResult, SearchSortedSide,
};
use crate::dtype::{DType, Nullability, PType};
use crate::encodings::sparse::{primitive_keys, resolve_patch_search};
use crate::error::VortexError;
use crate::scalar::{InnerScalarValue, Scalar};
use crate::validity::Validity;

verus! {

/// The greatest value that fits `bit_width` bits.
pub open spec fn max_packed(bit_width: u8) -> u64 {
    if bit_width >= 64 {
        u64::MAX
    } else {
        ((1u64 << (bit_width as u64)) - 1) as u64
    }
}

/// The position of the first null of a sorted array of the given validity.
pub open spec fn first_null(validity: Validity, len: int) -> int {
    match validity {
        Validity::NonNullable | Validity::AllValid => len,
        Validity::AllInvalid => 0,
        Validity::Array(v) => count_true(v@) as int,
    }
}

/// What holds of the patches of an array of `len` values of `ptype` packed to `bit_width`
/// bits: there is at least one, and each is a valid value of the ptype that does not fit
/// the width.
pub open spec fn patches_wf(p: SparseArray, ptype: PType, bit_width: u8, len: int) -> bool {
    &&& p.wf()
    &&& p.len == len
    &&& p.indices@.len() > 0
    &&& *p.values is Primitive
    &&& (*p.values)->Primitive_0.ptype == ptype
    &&& forall|k: int| 0 <= k < p.indices@.len() ==> #[trigger] (*p.values)->Primitive_0.validity.valid_at(k)
    &&& forall|k: int| 0 <= k < p.indices@.len() ==> (#[trigger] (*p.values)->Primitive_0.values@[k]) > max_packed(bit_width)
}

/// The patch at position `i`, if there is one.
pub open spec fn patch_at(patches: Option<SparseArray>, i: int) -> Option<int> {
    if patches is Some && position_of(
        patches->Some_0.indices@,
        i + patches->Some_0.indices_offset,
    ) >= 0 {
        Some(
            (*patches->Some_0.values)->Primitive_0.values@[position_of(
                patches->Some_0.indices@,
                i + patches->Some_0.indices_offset,
            )] as int,
        )
    } else {
        None
    }
}

/// The patches that fall into `start..stop`, their positions rebased; `None` where none
/// does.
#[verifier::rlimit(40)]
fn slice_patches(p: &SparseArray, start: usize, stop: usize, Ghost(bit_width): Ghost<u8>) -> (r:
    Option<SparseArray>)
    requires
        start <= stop <= p.len,
        patches_wf(*p, (*p.values)->Primitive_0.ptype, bit_width, p.len as int),
    ensures
        r is Some ==> patches_wf(
            r->Some_0,
            (*p.values)->Primitive_0.ptype,
            bit_width,
            stop - start,
        ),
        forall|i: int| 0 <= i < stop - start ==> #[trigger] patch_at(r, i) == patch_at(Some(*p), start + i),
{
    let i0 = p.search_index(start).to_index();
    let i1 = p.search_index(stop).to_index();
    proof {
        if i1 < i0 {
            assert(p.indices@[i1 as int] >= stop + p.indices_offset);
            assert(p.indices@[i1 as int] < start + p.indices_offset);
        }
    }
    if i0 == i1 {
        proof {
            assert forall|i: int| 0 <= i < stop - start implies #[trigger] patch_at(None::<SparseArray>, i) == patch_at(Some(*p), start + i) by {
                crate::compute::slice::lemma_position_slice(
                    p.indices@,
                    start + p.indices_offset,
                    stop + p.indices_offset,
                    i0 as int,
                    i1 as int,
                    start + i + p.indices_offset,
                );
            }
        }
        return None;
    }
    match &*p.values {
        ArrayData::Primitive(pv) => {
            assert(pv.elements().len() == pv.values@.len());
            let values = PrimitiveArray {
                ptype: pv.ptype,
                values: crate::compute::scalar_at::copy_range(&pv.values, i0, i1),
                validity: pv.validity.slice(i0, i1),
            };
            let indices = crate::compute::scalar_at::copy_range(&p.indices, i0, i1);
            proof {
                assert(values.elements().len() == values.values@.len());
                assert forall|k: int| 0 <= k < values.values@.len() implies values.ptype.holds(#[trigger] values.values@[k] as int) && values.values@[k] > max_packed(bit_width) by {
                    assert(values.values@[k] == pv.values@[i0 + k]);
                }
                assert forall|k: int| 0 <= k < values.values@.len() implies #[trigger] values.validity.valid_at(k) by {
                    assert(pv.validity.valid_at(i0 + k));
                }
                assert forall|j: int, k: int| 0 <= j < k < indices@.len() implies indices@[j] < indices@[k] by {
                    assert(p.indices@[i0 + j] < p.indices@[i0 + k]);
                }
                assert forall|k: int| 0 <= k < indices@.len() implies p.indices_offset + start <= (#[trigger] indices@[k]) < p.indices_offset + start + (stop - start) by {
                    assert(indices@[k] == p.indices@[i0 + k]);
                }
            }
            let r = SparseArray {
                indices,
                values: Box::new(ArrayData::Primitive(values)),
                len: stop - start,
                indices_offset: p.indices_offset + start,
                fill: p.fill.clone(),
            };
            proof {
                assert forall|i: int| 0 <= i < stop - start implies #[trigger] patch_at(Some(r), i) == patch_at(Some(*p), start + i) by {
                    crate::compute::slice::lemma_position_slice(
                        p.indices@,
                        start + p.indices_offset,
                        stop + p.indices_offset,
                        i0 as int,
                        i1 as int,
                        start + i + p.indices_offset,
                    );
                    assert(r.indices@ == p.indices@.subrange(i0 as int, i1 as int));
                }
            }
            Some(r)
        },
        _ => None,
    }
}

/// Unsigned integers packed to a bit width, with patches for the values that do not fit.
#[derive(Debug)]
pub struct BitPackedArray {
    pub ptype: PType,
    pub packed: Vec<u64>,
    pub bit_width: u8,
    pub offset: u16,
    pub len: usize,
    pub validity: Validity,
    pub patches: Option<SparseArray>,
}

impl BitPackedArray {
    /// The patch values, where there are patches.
    pub open spec fn patch_values(self) -> PrimitiveArray {
        (*self.patches->Some_0.values)->Primitive_0
    }

    /// The value at a valid position is its patch, if it has one, else its packed lane.
    pub proof fn lemma_key_at(self, i: int)
        ensures
            self.key_at(i) == (if !self.validity.valid_at(i) {
                None
            } else {
                match patch_at(self.patches, i) {
                    Some(v) => Some(v),
                    None => Some(self.packed@[self.offset + i] as int),
                }
            }),
    {
    }

    pub open spec fn wf(self) -> bool {
        &&& self.ptype.spec_is_unsigned_int()
        &&& self.bit_width <= 64
        &&& self.offset + self.len <= self.packed@.len()
        &&& forall|i: int| 0 <= i < self.packed@.len() ==> (#[trigger] self.packed@[i]) <= max_packed(self.bit_width)
        &&& self.validity.wf(self.len as int)
        &&& self.patches is Some ==> {
            let p = self.patches->Some_0;
            &&& patches_wf(p, self.ptype, self.bit_width, self.len as int)
            &&& forall|k: int| 0 <= k < p.indices@.len() ==> self.validity.valid_at((#[trigger] p.indices@[k]) - p.indices_offset)
        }
    }

    /// The value at position `i`, or `None` for a null: the patch where there is one, else
    /// the packed lane.
    pub open spec fn key_at(self, i: int) -> Option<int> {
        if !self.validity.valid_at(i) {
            None
        } else if self.patches is Some && position_of(
            self.patches->Some_0.indices@,
            i + self.patches->Some_0.indices_offset,
        ) >= 0 {
            Some(
                self.patch_values().values@[position_of(
                    self.patches->Some_0.indices@,
                    i + self.patches->Some_0.indices_offset,
                )] as int,
            )
        } else {
            Some(self.packed@[self.offset + i] as int)
        }
    }

    /// The values of the array, nulls as `None`.
    pub open spec fn keys(self) -> Seq<Option<int>> {
        Seq::new(self.len as nat, |i: int| self.key_at(i))
    }

    /// Well formed and sorted, nulls last.
    pub open spec fn searchable(self) -> bool {
        self.wf() && keys_sorted(self.keys())
    }

    pub fn len(&self) -> (r: usize)
        ensures r == self.len,
    {
        self.len
    }

    pub fn bit_width(&self) -> (r: u8)
        ensures r == self.bit_width,
    {
        self.bit_width
    }

    pub fn offset(&self) -> (r: u16)
        ensures r == self.offset,
    {
        self.offset
    }

    pub fn ptype(&self) -> (r: PType)
        ensures r == self.ptype,
    {
        self.ptype
    }

    pub fn dtype(&self) -> (r: DType)
        ensures r@ == crate::dtype::DTypeView::Primitive(self.ptype, self.validity.spec_nullability()),
    {
        DType::Primitive(self.ptype, self.validity.nullability())
    }

    pub fn patches(&self) -> (r: Option<&SparseArray>)
        ensures
            r is Some <==> self.patches is Some,
            r is Some ==> *r->Some_0 == self.patches->Some_0,
    {
        match &self.patches {
            Some(p) => Some(p),
            None => None,
        }
    }

    /// The greatest value that fits the bit width.
    pub fn max_packed_value(&self) -> (r: u64)
        ensures r == max_packed(self.bit_width),
    {
        if self.bit_width >= 64 {
            u64::MAX
        } else {
            let w = self.bit_width as u64;
            assert((1u64 << w) >= 1) by (bit_vector)
                requires w < 64;
            (1u64 << w) - 1
        }
    }
}

/// A bit-packed array seen as sorted keys: the packed lanes up to the first position that
/// is a patch or a null, and nothing comparable from there on. Patches are not searched
/// through it.
#[derive(Debug)]
pub struct BitPackedSearch<'a> {
    packed_maybe_null_slice: &'a Vec<u64>,
    offset: u16,
    length: usize,
    bit_width: u8,
    first_invalid_idx: usize,
}

impl<'a> BitPackedSearch<'a> {
    pub closed spec fn packed(&self) -> Seq<u64> {
        self.packed_maybe_null_slice@
    }

    pub closed spec fn spec_offset(&self) -> int {
        self.offset as int
    }

    pub closed spec fn length(&self) -> int {
        self.length as int
    }

    pub closed spec fn spec_bit_width(&self) -> u8 {
        self.bit_width
    }

    pub closed spec fn first_invalid_idx(&self) -> int {
        self.first_invalid_idx as int
    }

    /// The searcher of an array. Its first invalid position is the position of the first
    /// patch or, if that comes first, of what would be the first null were the array sorted.
    pub fn new(array: &'a BitPackedArray) -> (r: Self)
        requires
            array.wf(),
        ensures
            r.packed() == array.packed@,
            r.spec_offset() == array.offset,
            r.length() == array.len,
            r.spec_bit_width() == array.bit_width,
            r.first_invalid_idx() == ({
                let min_patch_offset = if array.patches is Some {
                    array.patches->Some_0.indices@[0] - array.patches->Some_0.indices_offset
                } else {
                    array.len as int
                };
                let first_null_idx = first_null(array.validity, array.len as int);
                if min_patch_offset <= first_null_idx {
                    min_patch_offset
                } else {
                    first_null_idx
                }
            }),
            r.searchable(),
            r.keys() == packed_keys(array.packed@, array.offset as int, array.len as int, r.first_invalid_idx()),
    {
        let min_patch_offset = match &array.patches {
            Some(p) => match p.min_index() {
                Some(i) => i,
                None => array.len,
            },
            None => array.len,
        };
        let first_null_idx = match &array.validity {
            Validity::NonNullable | Validity::AllValid => array.len,
            Validity::AllInvalid => 0,
            Validity::Array(varray) => {
                proof {
                    crate::encodings::chunked_filter::lemma_count_bound(varray@);
                }
                true_count_of(varray)
            },
        };
        let first_invalid_idx = if min_patch_offset <= first_null_idx {
            min_patch_offset
        } else {
            first_null_idx
        };
        Self {
            packed_maybe_null_slice: &array.packed,
            offset: array.offset,
            length: array.len,
            bit_width: array.bit_width,
            first_invalid_idx,
        }
    }
}

/// The keys of a searcher: the lanes before the first invalid position, `None` from it on.
pub open spec fn packed_keys(packed: Seq<u64>, offset: int, length: int, first_invalid: int) -> Seq<
    Option<int>,
> {
    Seq::new(
        length as nat,
        |i: int|
            if i < first_invalid {
                Some(packed[offset + i] as int)
            } else {
                None
            },
    )
}

impl<'a> IndexOrd for BitPackedSearch<'a> {
    open spec fn keys(&self) -> Seq<Option<int>> {
        packed_keys(self.packed(), self.spec_offset(), self.length(), self.first_invalid_idx())
    }

    open spec fn searchable(&self) -> bool {
        self.spec_offset() + self.length() <= self.packed().len() && self.first_invalid_idx()
            <= self.length()
    }

    fn len(&self) -> (r: usize) {
        self.length
    }

    fn index_order(&self, idx: usize, elem: u64) -> (r: Order) {
        if idx >= self.first_invalid_idx {
            return Order::Greater;
        }
        let n = self.packed_maybe_null_slice.len();
        assert(idx + self.offset < n);
        let val = self.packed_maybe_null_slice[idx + self.offset as usize];
        if val < elem {
            Order::Less
        } else if val == elem {
            Order::Equal
        } else {
            Order::Greater
        }
    }
}

/// A search of keys that lie within longer keys, after keys that are all less and before
/// keys that are all greater, is a search of the longer keys, shifted.
#[verifier::rlimit(40)]
pub proof fn lemma_shifted_search(
    keys: Seq<Option<int>>,
    inner: Seq<Option<int>>,
    first: int,
    value: int,
    side: SearchSortedSide,
    found: SearchResult,
    res: SearchResult,
)
    requires
        0 <= first,
        first + inner.len() <= keys.len(),
        forall|j: int| 0 <= j < first ==> key_order(#[trigger] keys[j], value) == Order::Less,
        forall|j: int| first <= j < first + inner.len() ==> #[trigger] keys[j] == inner[j - first],
        forall|j: int| first + inner.len() <= j < keys.len() ==> key_order(#[trigger] keys[j], value) == Order::Greater,
        is_search_result(inner, value, side, found),
        res.spec_to_index() == first + found.spec_to_index(),
        res is Found == found is Found,
    ensures
        is_search_result(keys, value, side, res),
{
    let n = inner.len() as int;
    let i = found.spec_to_index() as int;
    match side {
        SearchSortedSide::Left => {
            assert forall|j: int| 0 <= j < first + i implies key_order(#[trigger] keys[j], value) == Order::Less by {
                if j >= first {
                    assert(key_order(inner[j - first], value) == Order::Less);
                }
            }
            assert forall|j: int| first + i <= j < keys.len() implies key_order(#[trigger] keys[j], value) != Order::Less by {
                if j < first + n {
                    assert(key_order(inner[j - first], value) != Order::Less);
                }
            }
            if i < n {
                assert(keys[first + i] == inner[i]);
            } else if first + i < keys.len() {
                assert(key_order(keys[first + i], value) == Order::Greater);
            }
        },
        SearchSortedSide::Right => {
            assert forall|j: int| 0 <= j < first + i implies key_order(#[trigger] keys[j], value) != Order::Greater by {
                if j >= first {
                    assert(key_order(inner[j - first], value) != Order::Greater);
                }
            }
            assert forall|j: int| first + i <= j < keys.len() implies key_order(#[trigger] keys[j], value) == Order::Greater by {
                if j < first + n {
                    assert(key_order(inner[j - first], value) == Order::Greater);
                }
            }
            if i > 0 {
                assert(keys[first + i - 1] == inner[i - 1]);
            } else if first > 0 {
                assert(key_order(keys[first - 1], value) == Order::Less);
            }
        },
    }
}

/// A search result that holds of keys holds of any keys that stand to the value alike.
pub proof fn lemma_search_transfer(
    a: Seq<Option<int>>,
    b: Seq<Option<int>>,
    value: int,
    side: SearchSortedSide,
    r: SearchResult,
)
    requires
        a.len() == b.len(),
        forall|j: int| 0 <= j < a.len() ==> key_order(#[trigger] a[j], value) == key_order(b[j], value),
        is_search_result(a, value, side, r),
    ensures
        is_search_result(b, value, side, r),
{
    let i = r.spec_to_index() as int;
    assert forall|j: int| 0 <= j < b.len() implies key_order(#[trigger] b[j], value) == key_order(a[j], value) by {}
    if 0 <= i < a.len() {
        assert(key_order(a[i], value) == key_order(b[i], value));
    }
    if 0 < i <= a.len() {
        assert(key_order(a[i - 1], value) == key_order(b[i - 1], value));
    }
}

impl BitPackedArray {
    /// The position of the first patch or null of a sorted array.
    pub open spec fn first_invalid(self) -> int {
        let min_patch_offset = if self.patches is Some {
            self.patches->Some_0.indices@[0] - self.patches->Some_0.indices_offset
        } else {
            self.len as int
        };
        let first_null_idx = first_null(self.validity, self.len as int);
        if min_patch_offset <= first_null_idx {
            min_patch_offset
        } else {
            first_null_idx
        }
    }

    /// In a sorted array the valid positions come first.
    pub proof fn lemma_valid_prefix(self)
        requires
            self.searchable(),
        ensures
            0 <= first_null(self.validity, self.len as int) <= self.len,
            forall|i: int| 0 <= i < self.len ==> self.validity.valid_at(i) == (i < first_null(
                self.validity,
                self.len as int,
            )),
    {
        match self.validity {
            Validity::Array(v) => {
                assert forall|i: int, j: int| 0 <= i <= j < v@.len() && v@[j] implies v@[i] by {
                    assert(key_le(self.keys()[i], self.keys()[j]));
                }
                lemma_set_prefix(v@);
            },
            _ => {},
        }
    }

    /// A sorted array is packed values, then patches at consecutive positions, then nulls.
    #[verifier::rlimit(40)]
    pub proof fn lemma_sorted_shape(self)
        requires
            self.searchable(),
        ensures
            0 <= self.first_invalid() <= self.len,
            forall|i: int| 0 <= i < self.first_invalid() ==> #[trigger] self.key_at(i) == Some(
                self.packed@[self.offset + i] as int,
            ),
            self.patches is None ==> forall|i: int| self.first_invalid() <= i < self.len ==> (#[trigger] self.key_at(i)) is None,
            self.patches is Some ==> {
                let p = self.patches->Some_0;
                let n = p.indices@.len() as int;
                let first = self.first_invalid();
                &&& first == p.indices@[0] - p.indices_offset
                &&& first + n <= self.len
                &&& forall|k: int| 0 <= k < n ==> (#[trigger] p.indices@[k]) - p.indices_offset == first + k
                &&& forall|k: int| 0 <= k < n ==> #[trigger] self.key_at(first + k) == Some(self.patch_values().values@[k] as int)
                &&& forall|i: int| first + n <= i < self.len ==> (#[trigger] self.key_at(i)) is None
            },
    {
        self.lemma_valid_prefix();
        let keys = self.keys();
        if self.patches is Some {
            let p = self.patches->Some_0;
            let n = p.indices@.len() as int;
            let off = p.indices_offset as int;
            let first = p.indices@[0] - off;
            let pv = self.patch_values();
            assert forall|k: int| 0 <= k < n implies #[trigger] self.key_at(p.indices@[k] - off) == Some(pv.values@[k] as int) by {
                lemma_position_of(p.indices@, k);
            }
            assert forall|i: int| 0 <= i < first implies #[trigger] self.key_at(i) == Some(self.packed@[self.offset + i] as int) by {
                if position_of(p.indices@, i + off) >= 0 {
                    let m = position_of(p.indices@, i + off);
                    if m > 0 {
                        assert(p.indices@[0] < p.indices@[m]);
                    }
                }
            }
            assert forall|k: int| 0 <= k < n implies (#[trigger] p.indices@[k]) - off == first + k by {
                self.lemma_patches_contiguous(k);
            }
            assert(self.validity.valid_at(p.indices@[0] - off));
            assert(first == self.first_invalid());
            self.lemma_patches_contiguous(n - 1);
            assert(p.indices@[n - 1] - off < self.len);
            assert forall|k: int| 0 <= k < n implies #[trigger] self.key_at(first + k) == Some(pv.values@[k] as int) by {
                self.lemma_patches_contiguous(k);
                assert(self.key_at(p.indices@[k] - off) == Some(pv.values@[k] as int));
            }
            assert forall|i: int| first + n <= i < self.len implies (#[trigger] self.key_at(i)) is None by {
                if self.validity.valid_at(i) {
                    let last = p.indices@[n - 1] - off;
                    self.lemma_patches_contiguous(n - 1);
                    assert(self.key_at(last) == Some(pv.values@[n - 1] as int));
                    assert(key_le(keys[last], keys[i]));
                    if position_of(p.indices@, i + off) >= 0 {
                        let m = position_of(p.indices@, i + off);
                        self.lemma_patches_contiguous(m);
                    } else {
                        assert(self.packed@[self.offset + i] <= max_packed(self.bit_width));
                    }
                }
            }
        }
    }

    /// The patches of a sorted array sit at consecutive positions.
    #[verifier::rlimit(40)]
    pub proof fn lemma_patches_contiguous(self, k: int)
        requires
            self.searchable(),
            self.patches is Some,
            0 <= k < self.patches->Some_0.indices@.len(),
        ensures
            self.patches->Some_0.indices@[k] == self.patches->Some_0.indices@[0] + k,
        decreases k,
    {
        if k > 0 {
            self.lemma_patches_contiguous(k - 1);
            let p = self.patches->Some_0;
            let off = p.indices_offset as int;
            let pv = self.patch_values();
            let keys = self.keys();
            let before = p.indices@[k - 1] - off;
            let here = p.indices@[k] - off;
            assert(p.indices@[k - 1] < p.indices@[k]);
            if here > before + 1 {
                let j = before + 1;
                lemma_position_of(p.indices@, k - 1);
                lemma_position_of(p.indices@, k);
                assert(self.validity.valid_at(before));
                assert(self.validity.valid_at(here));
                assert(self.key_at(before) == Some(pv.values@[k - 1] as int));
                assert(key_le(keys[before], keys[j]));
                assert(key_le(keys[j], keys[here]));
                if position_of(p.indices@, j + off) >= 0 {
                    let m = position_of(p.indices@, j + off);
                    if m <= k - 1 {
                        if m < k - 1 {
                            assert(p.indices@[m] < p.indices@[k - 1]);
                        }
                    } else {
                        if m > k {
                            assert(p.indices@[k] < p.indices@[m]);
                        }
                    }
                } else {
                    assert(self.packed@[self.offset + j] <= max_packed(self.bit_width));
                }
            }
        }
    }

    /// Searches a sorted array for `value`. A value greater than every packed value is
    /// searched for among the patches; any other among the packed lanes, where patches and
    /// nulls count as greatest. Either way the result is that of a search of the array's
    /// values.
    #[verifier::rlimit(40)]
    pub fn search_sorted_native(&self, value: u64, side: SearchSortedSide) -> (r: Result<
        SearchResult,
        VortexError,
    >)
        requires
            self.searchable(),
        ensures
            r is Ok,
            is_search_result(self.keys(), value as int, side, r->Ok_0),
    {
        proof {
            self.lemma_sorted_shape();
        }
        let ghost keys = self.keys();
        match &self.patches {
            Some(patches_array) => {
                if value > self.max_packed_value() {
                    let ghost pv = self.patch_values();
                    let ghost pk = primitive_keys(pv);
                    let ghost n = patches_array.indices@.len() as int;
                    let ghost first = self.first_invalid();
                    proof {
                        assert(pv.elements().len() == pv.values@.len());
                        assert forall|k: int| 0 <= k < n implies #[trigger] pk[k] == keys[first + k] by {
                            assert(self.key_at(first + k) == Some(pv.values@[k] as int));
                        }
                        assert forall|i: int, j: int| 0 <= i <= j < pk.len() implies key_le(#[trigger] pk[i], #[trigger] pk[j]) by {
                            assert(key_le(keys[first + i], keys[first + j]));
                        }
                    }
                    let r = patches_array.search_sorted_value(value, side);
                    proof {
                        let found = choose|found: SearchResult| #[trigger]
                            is_search_result(pk, value as int, side, found) && r->Ok_0
                                == resolve_patch_search(
                                patches_array.indices@,
                                patches_array.indices_offset as int,
                                found,
                            );
                        self.lemma_patch_search(value as int, side, found);
                    }
                    r
                } else {
                    let searcher = BitPackedSearch::new(self);
                    proof {
                        self.lemma_packed_keys(value as int);
                    }
                    let r = search_sorted(&searcher, value, side);
                    proof {
                        lemma_search_transfer(searcher.keys(), keys, value as int, side, r);
                    }
                    Ok(r)
                }
            },
            None => {
                let searcher = BitPackedSearch::new(self);
                proof {
                    self.lemma_packed_keys(value as int);
                }
                let r = search_sorted(&searcher, value, side);
                proof {
                    lemma_search_transfer(searcher.keys(), keys, value as int, side, r);
                }
                Ok(r)
            },
        }
    }

    /// How the values of a sorted array with patches stand to a value greater than every
    /// packed value: the packed values are less, the patches stand as they stand among
    /// themselves, and the nulls are greater.
    #[verifier::rlimit(40)]
    pub proof fn lemma_keys_by_region(self, value: int)
        requires
            self.searchable(),
            self.patches is Some,
            value > max_packed(self.bit_width),
        ensures
            ({
                let keys = self.keys();
                let pk = primitive_keys(self.patch_values());
                let n = self.patches->Some_0.indices@.len() as int;
                let first = self.first_invalid();
                &&& pk.len() == n
                &&& 0 <= first
                &&& first + n <= keys.len()
                &&& forall|j: int| 0 <= j < first ==> key_order(#[trigger] keys[j], value) == Order::Less
                &&& forall|j: int| first <= j < first + n ==> #[trigger] keys[j] == pk[j - first]
                &&& forall|j: int| first + n <= j < keys.len() ==> key_order(#[trigger] keys[j], value) == Order::Greater
                &&& forall|k: int| 0 <= k < n ==> (#[trigger] self.patches->Some_0.indices@[k])
                    - self.patches->Some_0.indices_offset == first + k
            }),
    {
        self.lemma_sorted_shape();
        let keys = self.keys();
        let p = self.patches->Some_0;
        let pv = self.patch_values();
        let pk = primitive_keys(pv);
        let n = p.indices@.len() as int;
        let first = self.first_invalid();
        assert(pv.elements().len() == pv.values@.len());
        assert forall|j: int| 0 <= j < first implies key_order(#[trigger] keys[j], value) == Order::Less by {
            assert(self.key_at(j) == Some(self.packed@[self.offset + j] as int));
            assert(self.packed@[self.offset + j] <= max_packed(self.bit_width));
        }
        assert forall|j: int| first + n <= j < self.len implies key_order(#[trigger] keys[j], value) == Order::Greater by {
            assert(self.key_at(j) is None);
        }
        assert forall|j: int| first <= j < first + n implies #[trigger] keys[j] == pk[j - first] by {
            assert(self.key_at(first + (j - first)) == Some(pv.values@[j - first] as int));
            assert(pv.validity.valid_at(j - first));
        }
    }

    /// A search among the patches for a value greater than every packed value, resolved to
    /// a position, is a search of the array.
    pub proof fn lemma_patch_search(self, value: int, side: SearchSortedSide, found: SearchResult)
        requires
            self.searchable(),
            self.patches is Some,
            value > max_packed(self.bit_width),
            is_search_result(primitive_keys(self.patch_values()), value, side, found),
        ensures
            is_search_result(
                self.keys(),
                value,
                side,
                resolve_patch_search(
                    self.patches->Some_0.indices@,
                    self.patches->Some_0.indices_offset as int,
                    found,
                ),
            ),
    {
        self.lemma_keys_by_region(value);
        let keys = self.keys();
        let p = self.patches->Some_0;
        let pk = primitive_keys(self.patch_values());
        let n = p.indices@.len() as int;
        let first = self.first_invalid();
        let res = resolve_patch_search(p.indices@, p.indices_offset as int, found);
        let i = found.spec_to_index() as int;
        if i < n {
            assert(p.indices@[i] - p.indices_offset == first + i);
        }
        if i > 0 {
            assert(p.indices@[i - 1] - p.indices_offset == first + (i - 1));
        }
        assert(p.indices@[0] - p.indices_offset == first + 0);
        assert(res.spec_to_index() == first + i);
        assert(res is Found == found is Found);
        lemma_shifted_search(keys, pk, first, value, side, found, res);
    }

    /// The keys of the searcher of a sorted array are sorted, and stand to a value as the
    /// array's values do, unless the value is greater than every packed value and there are
    /// patches.
    #[verifier::rlimit(40)]
    pub proof fn lemma_packed_keys(self, value: int)
        requires
            self.searchable(),
            self.patches is Some ==> value <= max_packed(self.bit_width),
        ensures
            ({
                let pk = packed_keys(
                    self.packed@,
                    self.offset as int,
                    self.len as int,
                    self.first_invalid(),
                );
                &&& keys_sorted(pk)
                &&& forall|j: int| 0 <= j < self.len ==> key_order(#[trigger] pk[j], value) == key_order(self.keys()[j], value)
            }),
    {
        self.lemma_sorted_shape();
        let first = self.first_invalid();
        let pk = packed_keys(self.packed@, self.offset as int, self.len as int, first);
        let keys = self.keys();
        assert forall|i: int, j: int| 0 <= i <= j < pk.len() implies key_le(#[trigger] pk[i], #[trigger] pk[j]) by {
            if j < first {
                assert(self.key_at(i) == Some(self.packed@[self.offset + i] as int));
                assert(self.key_at(j) == Some(self.packed@[self.offset + j] as int));
                assert(key_le(keys[i], keys[j]));
            }
        }
        assert forall|j: int| 0 <= j < self.len implies key_order(#[trigger] pk[j], value) == key_order(keys[j], value) by {
            if j < first {
                assert(self.key_at(j) == Some(self.packed@[self.offset + j] as int));
            } else if self.patches is Some {
                let n = self.patches->Some_0.indices@.len() as int;
                if j < first + n {
                    assert(self.key_at(first + (j - first)) == Some(self.patch_values().values@[j - first] as int));
                    assert(self.patch_values().values@[j - first] > max_packed(self.bit_width));
                } else {
                    assert(self.key_at(j) is None);
                }
            } else {
                assert(self.key_at(j) is None);
            }
        }
    }
}

/// The value of a scalar as an unsigned value of the given ptype. A null, a value of
/// another kind, a negative value or one past the ptype's range is refused with
/// `InvalidArgument`.
pub fn scalar_to_native(value: &Scalar, ptype: PType) -> (r: Result<u64, VortexError>)
    requires
        ptype.spec_is_unsigned_int(),
    ensures
        r is Ok <==> value.value@ is Primitive && 0 <= value.value@->Primitive_0 <= ptype.spec_max(),
        r is Ok ==> r->Ok_0 == value.value@->Primitive_0,
        r is Err ==> r->Err_0 == VortexError::InvalidArgument,
{
    match &value.value.0 {
        InnerScalarValue::Primitive(v) => {
            if *v >= 0 && *v <= ptype.max_value() {
                Ok(*v as u64)
            } else {
                Err(VortexError::InvalidArgument)
            }
        },
        _ => Err(VortexError::InvalidArgument),
    }
}

/// The modulus of an unsigned ptype narrower than 64 bits: one more than its greatest
/// value.
pub open spec fn modulus(ptype: PType) -> int {
    ptype.spec_max() + 1
}

/// `value` cut down to the width of the ptype, as a cast between unsigned integers cuts.
pub fn truncate_to(value: usize, ptype: PType) -> (r: u64)
    requires
        ptype.spec_is_unsigned_int(),
    ensures
        r == (value as int) % modulus(ptype),
{
    let v = value as u64;
    match ptype {
        PType::U8 => v % 0x100,
        PType::U16 => v % 0x1_0000,
        PType::U32 => v % 0x1_0000_0000,
        _ => {
            assert(modulus(ptype) == 0x1_0000_0000_0000_0000);
            assert((value as int) % 0x1_0000_0000_0000_0000 == value as int);
            v
        },
    }
}

impl BitPackedArray {
    /// Packs the values of an unsigned primitive array to `bit_width` bits. The valid values
    /// that do not fit become patches. An array of another ptype, or a width over 64, is
    /// refused with `InvalidArgument`.
    #[verifier::rlimit(40)]
    pub fn encode(values: &PrimitiveArray, bit_width: u8) -> (r: Result<BitPackedArray, VortexError>)
        requires
            values.wf(),
        ensures
            r is Ok <==> values.ptype.spec_is_unsigned_int() && bit_width <= 64,
            r is Err ==> r->Err_0 == VortexError::InvalidArgument,
            r is Ok ==> {
                &&& r->Ok_0.wf()
                &&& r->Ok_0.ptype == values.ptype
                &&& r->Ok_0.bit_width == bit_width
                &&& r->Ok_0.offset == 0
                &&& r->Ok_0.keys() == primitive_keys(*values)
            },
    {
        if !values.ptype.is_unsigned_int() || bit_width > 64 {
            return Err(VortexError::InvalidArgument);
        }
        let max: u64 = if bit_width >= 64 {
            u64::MAX
        } else {
            let w = bit_width as u64;
            assert((1u64 << w) >= 1) by (bit_vector)
                requires w < 64;
            (1u64 << w) - 1
        };
        let n = values.values.len();
        let mut packed: Vec<u64> = Vec::new();
        let mut patch_indices: Vec<usize> = Vec::new();
        let mut patch_values: Vec<i128> = Vec::new();
        let mut i: usize = 0;
        while i < n
            invariant
                values.wf(),
                values.ptype.spec_is_unsigned_int(),
                n == values.values@.len(),
                max == max_packed(bit_width),
                i <= n,
                packed@.len() == i,
                patch_indices@.len() == patch_values@.len(),
                crate::array::strictly_increasing(patch_indices@),
                forall|k: int| 0 <= k < patch_indices@.len() ==> (#[trigger] patch_indices@[k]) < i,
                forall|k: int| 0 <= k < patch_indices@.len() ==> values.validity.valid_at((#[trigger] patch_indices@[k]) as int),
                forall|k: int| 0 <= k < patch_values@.len() ==> (#[trigger] patch_values@[k]) > max && values.ptype.holds(patch_values@[k] as int),
                forall|q: int| 0 <= q < i ==> (#[trigger] packed@[q]) <= max,
                forall|q: int| 0 <= q < i ==> (if position_of(patch_indices@, q) >= 0 {
                    patch_values@[position_of(patch_indices@, q)] == #[trigger] values.values@[q]
                } else {
                    !values.validity.valid_at(q) || packed@[q] == values.values@[q]
                }),
            decreases n - i,
        {
            let v = values.values[i];
            let valid = values.validity.is_valid(i);
            let ghost old_indices = patch_indices@;
            let ghost old_values = patch_values@;
            let ghost old_packed = packed@;
            assert(values.ptype.holds(values.values@[i as int] as int));
            if valid && v > max as i128 {
                packed.push(0);
                patch_indices.push(i);
                patch_values.push(v);
                proof {
                    assert forall|q: int| 0 <= q < i + 1 implies (if position_of(patch_indices@, q) >= 0 {
                        patch_values@[position_of(patch_indices@, q)] == #[trigger] values.values@[q]
                    } else {
                        !values.validity.valid_at(q) || packed@[q] == values.values@[q]
                    }) by {
                        crate::compute::take::lemma_position_push(old_indices, i, q);
                        if q < i {
                            assert(packed@[q] == old_packed[q]);
                            if position_of(old_indices, q) >= 0 {
                                assert(patch_values@[position_of(old_indices, q)] == old_values[position_of(old_indices, q)]);
                            }
                        }
                    }
                    crate::compute::take::lemma_position_push(old_indices, i, 0);
                }
            } else {
                let lane: u64 = if valid {
                    v as u64
                } else {
                    0
                };
                packed.push(lane);
                proof {
                    assert forall|q: int| 0 <= q < i + 1 implies (if position_of(patch_indices@, q) >= 0 {
                        patch_values@[position_of(patch_indices@, q)] == #[trigger] values.values@[q]
                    } else {
                        !values.validity.valid_at(q) || packed@[q] == values.values@[q]
                    }) by {
                        if q < i {
                            assert(packed@[q] == old_packed[q]);
                        } else {
                            if position_of(patch_indices@, q) >= 0 {
                                let m = position_of(patch_indices@, q);
                                assert(patch_indices@[m] < i);
                            }
                        }
                    }
                }
            }
            i += 1;
        }
        let patches = if patch_indices.len() > 0 {
            let pv = PrimitiveArray {
                ptype: values.ptype,
                values: patch_values,
                validity: Validity::AllValid,
            };
            let fill = Scalar::null(DType::Primitive(values.ptype, Nullability::Nullable));
            assert(pv.elements().len() == pv.values@.len());
            Some(
                SparseArray {
                    indices: patch_indices,
                    values: Box::new(ArrayData::Primitive(pv)),
                    len: n,
                    indices_offset: 0,
                    fill,
                },
            )
        } else {
            None
        };
        let r = BitPackedArray {
            ptype: values.ptype,
            packed,
            bit_width,
            offset: 0,
            len: n,
            validity: values.validity.clone(),
            patches,
        };
        proof {
            assert forall|q: int| 0 <= q < n implies r.key_at(q) == primitive_keys(*values)[q] by {
                if r.patches is None {
                    if position_of(patch_indices@, q) >= 0 {
                        let m = position_of(patch_indices@, q);
                    }
                }
            }
            assert(r.keys() =~= primitive_keys(*values));
        }
        Ok(r)
    }

    /// The elements `start..stop`. The packed lanes are cut at a block of 1024 lanes and the
    /// rest of the way is kept as the offset; the patches that fall into the range are kept,
    /// their positions rebased. A range that does not lie within the array is refused with
    /// `InvalidArgument`.
    #[verifier::rlimit(40)]
    pub fn slice(&self, start: usize, stop: usize) -> (r: Result<BitPackedArray, VortexError>)
        requires
            self.wf(),
        ensures
            start <= stop <= self.len <==> r is Ok,
            r is Err ==> r->Err_0 == VortexError::InvalidArgument,
            r is Ok ==> {
                &&& r->Ok_0.wf()
                &&& r->Ok_0.ptype == self.ptype
                &&& r->Ok_0.bit_width == self.bit_width
                &&& r->Ok_0.len == stop - start
                &&& r->Ok_0.offset == (self.offset + start) % 1024
                &&& r->Ok_0.keys() == self.keys().subrange(start as int, stop as int)
            },
    {
        if start > stop || stop > self.len {
            return Err(VortexError::InvalidArgument);
        }
        let n = self.packed.len();
        let first_lane = self.offset as usize + start;
        let offset = first_lane % 1024;
        let block_start = first_lane - offset;
        let packed = crate::compute::scalar_at::copy_range(
            &self.packed,
            block_start,
            self.offset as usize + stop,
        );
        let validity = self.validity.slice(start, stop);
        let patches = match &self.patches {
            None => None,
            Some(p) => slice_patches(p, start, stop, Ghost(self.bit_width)),
        };
        let r = BitPackedArray {
            ptype: self.ptype,
            packed,
            bit_width: self.bit_width,
            offset: offset as u16,
            len: stop - start,
            validity,
            patches,
        };
        proof {
            assert forall|i: int| 0 <= i < r.packed@.len() implies (#[trigger] r.packed@[i]) <= max_packed(r.bit_width) by {
                assert(r.packed@[i] == self.packed@[block_start + i]);
            }
            if r.patches is Some {
                let q = r.patches->Some_0;
                let p = self.patches->Some_0;
                assert forall|k: int| 0 <= k < q.indices@.len() implies r.validity.valid_at((#[trigger] q.indices@[k]) - q.indices_offset) by {
                    let j = q.indices@[k] - q.indices_offset;
                    lemma_position_of(q.indices@, k);
                    assert(patch_at(r.patches, j) is Some);
                    assert(patch_at(r.patches, j) == patch_at(Some(p), start + j));
                    let m = position_of(p.indices@, start + j + p.indices_offset);
                    assert(p.indices@[m] == start + j + p.indices_offset);
                    assert(self.validity.valid_at(p.indices@[m] - p.indices_offset));
                }
            }
            assert forall|i: int| 0 <= i < stop - start implies r.key_at(i) == self.key_at(start + i) by {
                r.lemma_key_at(i);
                self.lemma_key_at(start + i);
                if self.patches is Some {
                    assert(patch_at(r.patches, i) == patch_at(Some(self.patches->Some_0), start + i));
                }
                assert(r.packed@[r.offset + i] == self.packed@[block_start + (r.offset + i)]);
            }
            assert(r.keys() =~= self.keys().subrange(start as int, stop as int));
        }
        Ok(r)
    }

    /// Searches a sorted array for a scalar, which must hold a value of the array's ptype.
    pub fn search_sorted(&self, value: &Scalar, side: SearchSortedSide) -> (r: Result<
        SearchResult,
        VortexError,
    >)
        requires
            self.searchable(),
        ensures
            r is Ok <==> value.value@ is Primitive && 0 <= value.value@->Primitive_0
                <= self.ptype.spec_max(),
            r is Ok ==> is_search_result(self.keys(), value.value@->Primitive_0, side, r->Ok_0),
            r is Err ==> r->Err_0 == VortexError::InvalidArgument,
    {
        match scalar_to_native(value, self.ptype) {
            Ok(native_value) => self.search_sorted_native(native_value, side),
            Err(e) => Err(e),
        }
    }

    /// Searches a sorted array for each of the scalars, in order. One scalar that does not
    /// hold a value of the array's ptype fails the whole search.
    pub fn search_sorted_many(&self, values: &Vec<Scalar>, side: SearchSortedSide) -> (r: Result<
        Vec<SearchResult>,
        VortexError,
    >)
        requires
            self.searchable(),
        ensures
            r is Ok <==> forall|k: int| 0 <= k < values@.len() ==> (#[trigger] values@[k]).value@ is Primitive
                && 0 <= values@[k].value@->Primitive_0 <= self.ptype.spec_max(),
            r is Err ==> r->Err_0 == VortexError::InvalidArgument,
            r is Ok ==> r->Ok_0@.len() == values@.len() && forall|k: int| 0 <= k < values@.len() ==> is_search_result(
                    self.keys(),
                    values@[k].value@->Primitive_0,
                    side,
                    #[trigger] r->Ok_0@[k],
                ),
    {
        let mut out: Vec<SearchResult> = Vec::new();
        let mut k: usize = 0;
        while k < values.len()
            invariant
                self.searchable(),
                k <= values@.len(),
                out@.len() == k,
                forall|j: int| 0 <= j < k ==> (#[trigger] values@[j]).value@ is Primitive && 0
                    <= values@[j].value@->Primitive_0 <= self.ptype.spec_max(),
                forall|j: int| 0 <= j < k ==> is_search_result(
                    self.keys(),
                    values@[j].value@->Primitive_0,
                    side,
                    #[trigger] out@[j],
                ),
            decreases values@.len() - k,
        {
            match self.search_sorted(&values[k], side) {
                Ok(found) => out.push(found),
                Err(e) => {
                    return Err(e);
                },
            }
            k += 1;
        }
        Ok(out)
    }

    /// Searches a sorted array for a position-sized value. One too large for the array's
    /// ptype lies past every element.
    pub fn search_sorted_usize(&self, value: usize, side: SearchSortedSide) -> (r: Result<
        SearchResult,
        VortexError,
    >)
        requires
            self.searchable(),
        ensures
            r is Ok,
            value <= self.ptype.spec_max() ==> is_search_result(
                self.keys(),
                value as int,
                side,
                r->Ok_0,
            ),
            value > self.ptype.spec_max() ==> r->Ok_0 == SearchResult::NotFound(self.len),
    {
        if (value as u64) as i128 <= self.ptype.max_value() {
            self.search_sorted_native(value as u64, side)
        } else {
            Ok(SearchResult::NotFound(self.len))
        }
    }

    /// Searches a sorted array for each of the values, each first cut down to the width of
    /// the array's ptype.
    pub fn search_sorted_usize_many(&self, values: &Vec<usize>, side: SearchSortedSide) -> (r:
        Result<Vec<SearchResult>, VortexError>)
        requires
            self.searchable(),
        ensures
            r is Ok,
            r->Ok_0@.len() == values@.len(),
            forall|k: int| 0 <= k < values@.len() ==> is_search_result(
                self.keys(),
                (values@[k] as int) % modulus(self.ptype),
                side,
                #[trigger] r->Ok_0@[k],
            ),
    {
        let searcher = BitPackedSearch::new(self);
        let mut out: Vec<SearchResult> = Vec::new();
        let mut k: usize = 0;
        while k < values.len()
            invariant
                self.searchable(),
                k <= values@.len(),
                out@.len() == k,
                forall|j: int| 0 <= j < k ==> is_search_result(
                    self.keys(),
                    (values@[j] as int) % modulus(self.ptype),
                    side,
                    #[trigger] out@[j],
                ),
            decreases values@.len() - k,
        {
            let cast_value = truncate_to(values[k], self.ptype);
            match self.search_sorted_native(cast_value, side) {
                Ok(found) => out.push(found),
                Err(e) => {
                    return Err(e);
                },
            }
            k += 1;
        }
        Ok(out)
    }
}

/// Keys each of which may stand before the next are sorted.
pub proof fn lemma_steps_sorted(keys: Seq<Option<int>>, i: int, j: int)
    requires
        forall|k: int| 0 < k < keys.len() ==> key_le(keys[k - 1], #[trigger] keys[k]),
        0 <= i <= j < keys.len(),
    ensures
        key_le(keys[i], keys[j]),
    decreases j - i,
{
    if i < j {
        lemma_steps_sorted(keys, i, j - 1);
        assert(key_le(keys[j - 1], keys[j]));
    }
}

impl BitPackedArray {
    /// Whether the array is well formed.
    #[verifier::rlimit(40)]
    #[verifier::loop_isolation(false)]
    pub fn validate(&self) -> (r: bool)
        ensures
            r == self.wf(),
    {
        if !self.ptype.is_unsigned_int() || self.bit_width > 64 {
            return false;
        }
        let n = self.packed.len();
        if self.len > n || self.offset as usize > n - self.len {
            return false;
        }
        let max = self.max_packed_value();
        let mut i: usize = 0;
        while i < n
            invariant
                i <= n,
                n == self.packed@.len(),
                max == max_packed(self.bit_width),
                forall|j: int| 0 <= j < i ==> (#[trigger] self.packed@[j]) <= max,
            decreases n - i,
        {
            if self.packed[i] > max {
                return false;
            }
            i += 1;
        }
        match &self.validity {
            Validity::Array(v) => {
                if v.len() != self.len {
                    return false;
                }
            },
            _ => {},
        }
        match &self.patches {
            None => true,
            Some(p) => {
                if !p.validate() {
                    return false;
                }
                if p.len != self.len || p.indices.len() == 0 {
                    return false;
                }
                let pv = match &*p.values {
                    ArrayData::Primitive(pv) => pv,
                    _ => {
                        return false;
                    },
                };
                if pv.ptype != self.ptype {
                    return false;
                }
                assert(pv.elements().len() == pv.values@.len());
                let m = p.indices.len();
                let mut k: usize = 0;
                while k < m
                    invariant
                        k <= m,
                        m == p.indices@.len(),
                        m == pv.values@.len(),
                        p.wf(),
                        p.len == self.len,
                        pv.wf(),
                        self.validity.wf(self.len as int),
                        max == max_packed(self.bit_width),
                        forall|j: int| 0 <= j < k ==> #[trigger] pv.validity.valid_at(j),
                        forall|j: int| 0 <= j < k ==> (#[trigger] pv.values@[j]) > max,
                        forall|j: int| 0 <= j < k ==> self.validity.valid_at((#[trigger] p.indices@[j]) - p.indices_offset),
                    decreases m - k,
                {
                    if !pv.validity.is_valid(k) {
                        return false;
                    }
                    if pv.values[k] <= max as i128 {
                        return false;
                    }
                    assert(p.indices_offset <= p.indices@[k as int] < p.indices_offset + p.len);
                    if !self.validity.is_valid(p.indices[k] - p.indices_offset) {
                        return false;
                    }
                    k += 1;
                }
                true
            },
        }
    }

    /// The value at position `i` of a well-formed array, `None` for a null.
    pub fn key(&self, i: usize) -> (r: Option<i128>)
        requires
            self.wf(),
            i < self.len,
        ensures
            r is Some == self.key_at(i as int) is Some,
            r is Some ==> r->Some_0 == self.key_at(i as int)->Some_0,
    {
        if !self.validity.is_valid(i) {
            return None;
        }
        let n = self.packed.len();
        assert(self.offset + i < n);
        match &self.patches {
            Some(p) => {
                match p.search_index(i) {
                    SearchResult::Found(k) => {
                        match &*p.values {
                            ArrayData::Primitive(pv) => {
                                assert(pv.elements().len() == pv.values@.len());
                                Some(pv.values[k])
                            },
                            _ => None,
                        }
                    },
                    SearchResult::NotFound(_) => Some(self.packed[self.offset as usize + i] as i128),
                }
            },
            None => Some(self.packed[self.offset as usize + i] as i128),
        }
    }

    /// Whether a well-formed array is sorted, nulls last: whether it may be searched.
    pub fn is_sorted(&self) -> (r: bool)
        requires
            self.wf(),
        ensures
            r == keys_sorted(self.keys()),
            r == self.searchable(),
    {
        let ghost keys = self.keys();
        if self.len == 0 {
            return true;
        }
        let mut previous = self.key(0);
        let mut i: usize = 1;
        while i < self.len
            invariant
                self.wf(),
                keys == self.keys(),
                1 <= i <= self.len,
                previous is Some == keys[i - 1] is Some,
                previous is Some ==> previous->Some_0 == keys[i - 1]->Some_0,
                forall|k: int| 0 < k < i ==> key_le(keys[k - 1], #[trigger] keys[k]),
            decreases self.len - i,
        {
            let current = self.key(i);
            let in_order = match (previous, current) {
                (_, None) => true,
                (None, Some(_)) => false,
                (Some(x), Some(y)) => x <= y,
            };
            if !in_order {
                proof {
                    assert(!key_le(keys[i - 1], keys[i as int]));
                }
                return false;
            }
            previous = current;
            i += 1;
        }
        proof {
            assert forall|a: int, b: int| 0 <= a <= b < keys.len() implies key_le(#[trigger] keys[a], #[trigger] keys[b]) by {
                lemma_steps_sorted(keys, a, b);
            }
        }
        true
    }
}

} // verus!
