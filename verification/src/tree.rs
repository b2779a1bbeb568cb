//! An array as a tree of buffers: which buffers it holds, in depth-first order, and where
//! each would lie if they were written one after another.

use vstd::prelude::*;

use crate::array::ArrayData;
use crate::error::VortexError;
use crate::validity::Validity;

verus! {

/// The size in bytes of a packed buffer of `len` bits.
pub open spec fn bits_size(len: int) -> int {
    (len + 7) / 8
}

/// The buffers of a validity: one of packed bits where it is an array of flags.
pub open spec fn validity_sizes(validity: Validity, len: int) -> Seq<int> {
    if validity is Array {
        seq![bits_size(len)]
    } else {
        Seq::empty()
    }
}

/// The total length of the first `n` byte strings.
pub open spec fn total_len(values: Seq<Vec<u8>>, n: int) -> int
    decreases n,
{
    if n <= 0 || n > values.len() {
        0
    } else {
        total_len(values, n - 1) + values[n - 1]@.len()
    }
}

/// The sizes in bytes of the buffers of the first `n` arrays, in depth-first order.
pub open spec fn buffer_sizes_of(arrays: Seq<ArrayData>, n: int) -> Seq<int>
    decreases arrays, n,
{
    if n <= 0 || n > arrays.len() {
        Seq::empty()
    } else {
        buffer_sizes_of(arrays, n - 1) + buffer_sizes(arrays[n - 1])
    }
}

/// The sizes in bytes of the buffers of an array and of its children, in depth-first
/// order: a node's own buffer, then those of its children in their order, the validity
/// last. Booleans take a bit each, primitives their ptype's width, string views sixteen
/// bytes and their data; offsets and positions are primitive children.
pub open spec fn buffer_sizes(a: ArrayData) -> Seq<int>
    decreases a, 0int,
{
    match a {
        ArrayData::Null(_) => Seq::empty(),
        ArrayData::Constant(_) => Seq::empty(),
        ArrayData::Bool(b) => seq![bits_size(b.values@.len() as int)] + validity_sizes(
            b.validity,
            b.values@.len() as int,
        ),
        ArrayData::Primitive(p) => seq![(p.values@.len() * p.ptype.spec_byte_width()) as int]
            + validity_sizes(p.validity, p.values@.len() as int),
        ArrayData::VarBin(v) => seq![
            (v.offsets@.len() * v.offsets_ptype.spec_byte_width()) as int,
            v.bytes@.len() as int,
        ] + validity_sizes(v.validity, v.offsets@.len() - 1),
        ArrayData::VarBinView(v) => seq![
            (16 * v.values@.len()) as int,
            total_len(v.values@, v.values@.len() as int),
        ] + validity_sizes(v.validity, v.values@.len() as int),
        ArrayData::Struct(s) => buffer_sizes_of(s.fields@, s.fields@.len() as int) + validity_sizes(
            s.validity,
            s.len as int,
        ),
        ArrayData::List(l) => (seq![(8 * l.offsets@.len()) as int] + validity_sizes(
            l.validity,
            l.offsets@.len() - 1,
        )) + buffer_sizes(*l.elements),
        ArrayData::Extension(e) => buffer_sizes(*e.storage),
        ArrayData::Chunked(c) => seq![(8 * c.chunk_ends@.len()) as int] + buffer_sizes_of(
            c.chunks@,
            c.chunks@.len() as int,
        ),
        ArrayData::Sparse(s) => seq![(8 * s.indices@.len()) as int] + buffer_sizes(*s.values),
    }
}

/// The sum of sizes.
pub open spec fn sum_sizes(sizes: Seq<int>) -> int
    decreases sizes.len(),
{
    if sizes.len() == 0 {
        0
    } else {
        sum_sizes(sizes.drop_last()) + sizes.last()
    }
}

/// `size` rounded up to a multiple of `alignment`.
pub open spec fn align_up(size: int, alignment: int) -> int {
    ((size + alignment - 1) / alignment) * alignment
}

/// The offsets at which buffers of the given sizes begin when each is padded to the
/// alignment, and after them the offset at which the last one ends.
pub open spec fn aligned_offsets(sizes: Seq<int>, alignment: int) -> Seq<int>
    decreases sizes.len(),
{
    if sizes.len() == 0 {
        seq![0int]
    } else {
        let before = aligned_offsets(sizes.drop_last(), alignment);
        before.push(before.last() + align_up(sizes.last(), alignment))
    }
}

/// The views of sizes as integers.
pub open spec fn sizes_view(sizes: Seq<u128>) -> Seq<int> {
    Seq::new(sizes.len(), |i: int| sizes[i] as int)
}

fn push_validity(validity: &Validity, len: usize, out: &mut Vec<u128>)
    ensures
        sizes_view(final(out)@) == sizes_view(old(out)@) + validity_sizes(*validity, len as int),
{
    let ghost before = out@;
    match validity {
        Validity::Array(_) => {
            let size: u128 = (len as u128 + 7) / 8;
            out.push(size);
            assert(sizes_view(out@) =~= sizes_view(before) + seq![bits_size(len as int)]);
        },
        _ => {
            assert(sizes_view(out@) =~= sizes_view(before) + Seq::<int>::empty());
        },
    }
}

/// Appends the sizes of the buffers of an array, in depth-first order.
#[verifier::loop_isolation(false)]
#[verifier::rlimit(40)]
pub fn collect_buffer_sizes(array: &ArrayData, out: &mut Vec<u128>)
    ensures
        sizes_view(final(out)@) == sizes_view(old(out)@) + buffer_sizes(*array),
    decreases array,
{
    let ghost start = sizes_view(out@);
    match array {
        ArrayData::Null(_) => {
            assert(start + Seq::<int>::empty() =~= start);
        },
        ArrayData::Constant(_) => {
            assert(start + Seq::<int>::empty() =~= start);
        },
        ArrayData::Bool(b) => {
            let n = b.values.len();
            let ghost before = out@;
            out.push((n as u128 + 7) / 8);
            assert(sizes_view(out@) =~= start + seq![bits_size(n as int)]);
            push_validity(&b.validity, n, out);
            assert((start + seq![bits_size(n as int)]) + validity_sizes(b.validity, n as int) =~= start + (
            seq![bits_size(n as int)] + validity_sizes(b.validity, n as int)));
        },
        ArrayData::Primitive(p) => {
            let n = p.values.len();
            let w = p.ptype.byte_width();
            let size: u128 = (n as u128) * (w as u128);
            out.push(size);
            assert(sizes_view(out@) =~= start + seq![(n * p.ptype.spec_byte_width()) as int]);
            push_validity(&p.validity, n, out);
            assert((start + seq![(n * p.ptype.spec_byte_width()) as int]) + validity_sizes(p.validity, n as int)
                =~= start + (seq![(n * p.ptype.spec_byte_width()) as int] + validity_sizes(p.validity, n as int)));
        },
        ArrayData::VarBin(v) => {
            let n = v.offsets.len();
            let w = v.offsets_ptype.byte_width();
            out.push((n as u128) * (w as u128));
            out.push(v.bytes.len() as u128);
            let ghost two = seq![(n * v.offsets_ptype.spec_byte_width()) as int, v.bytes@.len() as int];
            assert(sizes_view(out@) =~= start + two);
            let len = if n == 0 {
                0
            } else {
                n - 1
            };
            match &v.validity {
                Validity::Array(_) => {
                    let ghost before = out@;
                    let size: u128 = if n == 0 {
                        0
                    } else {
                        (len as u128 + 7) / 8
                    };
                    if n == 0 {
                        assert(bits_size(-1) == 0);
                    }
                    out.push(size);
                    assert(sizes_view(out@) =~= start + (two + validity_sizes(v.validity, n - 1)));
                },
                _ => {
                    assert(sizes_view(out@) =~= start + (two + validity_sizes(v.validity, n - 1)));
                },
            }
        },
        ArrayData::VarBinView(v) => {
            let n = v.values.len();
            let mut total: u128 = 0;
            let mut i: usize = 0;
            while i < n
                invariant
                    i <= n,
                    n == v.values@.len(),
                    total == total_len(v.values@, i as int),
                    total <= i * usize::MAX,
                decreases n - i,
            {
                let len = v.values[i].len();
                assert((i + 1) * usize::MAX == i * usize::MAX + usize::MAX) by (nonlinear_arith);
                assert(i * usize::MAX <= 0xffff_ffff_ffff_ffff * 0xffff_ffff_ffff_ffff) by (nonlinear_arith)
                    requires i <= 0xffff_ffff_ffff_ffff, usize::MAX <= 0xffff_ffff_ffff_ffff;
                total = total + len as u128;
                i += 1;
            }
            out.push(16 * (n as u128));
            out.push(total);
            let ghost two = seq![(16 * v.values@.len()) as int, total_len(v.values@, v.values@.len() as int)];
            assert(sizes_view(out@) =~= start + two);
            push_validity(&v.validity, n, out);
            assert((start + two) + validity_sizes(v.validity, n as int) =~= start + (two + validity_sizes(
                v.validity,
                n as int,
            )));
        },
        ArrayData::Struct(s) => {
            let mut f: usize = 0;
            assert(start + buffer_sizes_of(s.fields@, 0) =~= start);
            while f < s.fields.len()
                invariant
                    f <= s.fields@.len(),
                    sizes_view(out@) == start + buffer_sizes_of(s.fields@, f as int),
                decreases s.fields@.len() - f,
            {
                proof {
                    vstd::std_specs::vec::axiom_vec_index_decreases(s.fields, f as int);
                    assert(decreases_to!(*array => array->Struct_0));
                    assert(decreases_to!(array->Struct_0 => (array->Struct_0).fields));
                    assert((start + buffer_sizes_of(s.fields@, f as int)) + buffer_sizes(s.fields@[f as int])
                        =~= start + buffer_sizes_of(s.fields@, f + 1));
                }
                collect_buffer_sizes(&s.fields[f], out);
                f += 1;
            }
            let ghost fields = buffer_sizes_of(s.fields@, s.fields@.len() as int);
            push_validity(&s.validity, s.len, out);
            assert((start + fields) + validity_sizes(s.validity, s.len as int) =~= start + (fields
                + validity_sizes(s.validity, s.len as int)));
        },
        ArrayData::List(l) => {
            let n = l.offsets.len();
            out.push(8 * (n as u128));
            let ghost one = seq![(8 * l.offsets@.len()) as int];
            assert(sizes_view(out@) =~= start + one);
            match &l.validity {
                Validity::Array(_) => {
                    let size: u128 = if n == 0 {
                        0
                    } else {
                        ((n - 1) as u128 + 7) / 8
                    };
                    if n == 0 {
                        assert(bits_size(-1) == 0);
                    }
                    out.push(size);
                    assert(sizes_view(out@) =~= start + (one + validity_sizes(l.validity, n - 1)));
                },
                _ => {
                    assert(sizes_view(out@) =~= start + (one + validity_sizes(l.validity, n - 1)));
                },
            }
            let ghost own = one + validity_sizes(l.validity, n - 1);
            collect_buffer_sizes(&l.elements, out);
            assert((start + own) + buffer_sizes(*l.elements) =~= start + (own + buffer_sizes(*l.elements)));
        },
        ArrayData::Extension(e) => {
            collect_buffer_sizes(&e.storage, out);
        },
        ArrayData::Chunked(c) => {
            out.push(8 * (c.chunk_ends.len() as u128));
            let ghost one = seq![(8 * c.chunk_ends@.len()) as int];
            assert(sizes_view(out@) =~= (start + one) + buffer_sizes_of(c.chunks@, 0));
            let mut k: usize = 0;
            while k < c.chunks.len()
                invariant
                    k <= c.chunks@.len(),
                    sizes_view(out@) == (start + one) + buffer_sizes_of(c.chunks@, k as int),
                decreases c.chunks@.len() - k,
            {
                proof {
                    vstd::std_specs::vec::axiom_vec_index_decreases(c.chunks, k as int);
                    assert(decreases_to!(*array => array->Chunked_0));
                    assert(decreases_to!(array->Chunked_0 => (array->Chunked_0).chunks));
                    assert(((start + one) + buffer_sizes_of(c.chunks@, k as int)) + buffer_sizes(c.chunks@[k as int])
                        =~= (start + one) + buffer_sizes_of(c.chunks@, k + 1));
                }
                collect_buffer_sizes(&c.chunks[k], out);
                k += 1;
            }
            assert((start + one) + buffer_sizes_of(c.chunks@, c.chunks@.len() as int) =~= start + (one
                + buffer_sizes_of(c.chunks@, c.chunks@.len() as int)));
        },
        ArrayData::Sparse(s) => {
            out.push(8 * (s.indices.len() as u128));
            let ghost one = seq![(8 * s.indices@.len()) as int];
            assert(sizes_view(out@) =~= start + one);
            collect_buffer_sizes(&s.values, out);
            assert((start + one) + buffer_sizes(*s.values) =~= start + (one + buffer_sizes(*s.values)));
        },
    }
}

/// The offsets at which buffers of the given sizes begin when each is padded to the
/// alignment, and last the offset at which they end. An end past `u64` is refused with
/// `InvalidArgument`.
#[verifier::rlimit(40)]
pub fn offsets_of(sizes: &Vec<u128>, alignment: usize) -> (r: Result<Vec<u64>, VortexError>)
    requires
        alignment > 0,
    ensures
        r is Ok <==> aligned_offsets(sizes_view(sizes@), alignment as int).last() <= u64::MAX,
        r is Err ==> r->Err_0 == VortexError::InvalidArgument,
        r is Ok ==> r->Ok_0@.len() == sizes@.len() + 1 && forall|k: int| 0 <= k <= sizes@.len() ==> (#[trigger] r->Ok_0@[k]) == aligned_offsets(
                sizes_view(sizes@),
                alignment as int,
            )[k],
{
    let ghost sv = sizes_view(sizes@);
    let ghost a = alignment as int;
    let mut offsets: Vec<u64> = Vec::new();
    let mut offset: u64 = 0;
    let mut i: usize = 0;
    assert(sv.subrange(0, 0) =~= Seq::<int>::empty());
    while i < sizes.len()
        invariant
            alignment > 0,
            a == alignment,
            sv == sizes_view(sizes@),
            i <= sizes@.len(),
            offsets@.len() == i,
            aligned_offsets(sv.subrange(0, i as int), a).len() == i + 1,
            offset == aligned_offsets(sv.subrange(0, i as int), a).last(),
            forall|k: int| 0 <= k < i ==> (#[trigger] offsets@[k]) == aligned_offsets(sv.subrange(0, i as int), a)[k],
            forall|k: int| 0 <= k <= i ==> 0 <= #[trigger] aligned_offsets(sv.subrange(0, i as int), a)[k],
        decreases sizes@.len() - i,
    {
        let buffer_size = sizes[i];
        proof {
            assert(sv.subrange(0, i + 1).drop_last() =~= sv.subrange(0, i as int));
            assert(sv.subrange(0, i + 1).last() == buffer_size);
            lemma_align_up_bounds(buffer_size as int, a);
        }
        proof {
            assert forall|k: int| 0 <= k < sv.len() implies sv[k] >= 0 by {}
            assert(aligned_offsets(sv.subrange(0, i + 1), a).last() == offset + align_up(
                buffer_size as int,
                a,
            ));
        }
        if buffer_size > u128::MAX - alignment as u128 {
            proof {
                lemma_offsets_monotone(sv, a, i + 1);
            }
            return Err(VortexError::InvalidArgument);
        }
        let aligned_size: u128 = ((buffer_size + (alignment as u128 - 1)) / alignment as u128)
            * alignment as u128;
        if aligned_size > (u64::MAX - offset) as u128 {
            proof {
                lemma_offsets_monotone(sv, a, i + 1);
            }
            return Err(VortexError::InvalidArgument);
        }
        offsets.push(offset);
        offset = offset + aligned_size as u64;
        i += 1;
    }
    offsets.push(offset);
    proof {
        assert(sv.subrange(0, sizes@.len() as int) =~= sv);
    }
    Ok(offsets)
}

/// Rounding up gives no less than the size and less than the size and the alignment.
pub proof fn lemma_align_up_bounds(size: int, alignment: int)
    requires
        size >= 0,
        alignment > 0,
    ensures
        size <= align_up(size, alignment) < size + alignment,
{
    let q = (size + alignment - 1) / alignment;
    assert(q * alignment <= size + alignment - 1 < q * alignment + alignment) by (nonlinear_arith)
        requires q == (size + alignment - 1) / alignment, alignment > 0;
}

/// The end of the first `k` buffers is no later than the end of all.
pub proof fn lemma_offsets_monotone(sizes: Seq<int>, alignment: int, k: int)
    requires
        alignment > 0,
        0 <= k <= sizes.len(),
        forall|i: int| 0 <= i < sizes.len() ==> sizes[i] >= 0,
    ensures
        aligned_offsets(sizes.subrange(0, k), alignment).last() <= aligned_offsets(
            sizes,
            alignment,
        ).last(),
        aligned_offsets(sizes, alignment).len() == sizes.len() + 1,
    decreases sizes.len() - k,
{
    if k == sizes.len() {
        assert(sizes.subrange(0, k) =~= sizes);
        lemma_offsets_len(sizes, alignment);
    } else {
        lemma_offsets_monotone(sizes, alignment, k + 1);
        assert(sizes.subrange(0, k + 1).drop_last() =~= sizes.subrange(0, k));
        lemma_align_up_bounds(sizes[k], alignment);
        lemma_offsets_len(sizes.subrange(0, k), alignment);
    }
}

/// There is one offset more than there are buffers.
pub proof fn lemma_offsets_len(sizes: Seq<int>, alignment: int)
    ensures
        aligned_offsets(sizes, alignment).len() == sizes.len() + 1,
    decreases sizes.len(),
{
    if sizes.len() > 0 {
        lemma_offsets_len(sizes.drop_last(), alignment);
    }
}

impl ArrayData {
    /// The sizes in bytes of the buffers of the array and of its children, in depth-first
    /// order.
    pub fn buffer_sizes(&self) -> (r: Vec<u128>)
        ensures
            sizes_view(r@) == buffer_sizes(*self),
    {
        let mut out: Vec<u128> = Vec::new();
        assert(sizes_view(out@) + buffer_sizes(*self) =~= buffer_sizes(*self));
        collect_buffer_sizes(self, &mut out);
        out
    }

    /// The number of buffers that the array and its children hold.
    pub fn cumulative_nbuffers(&self) -> (r: usize)
        ensures
            r == buffer_sizes(*self).len(),
    {
        let sizes = self.buffer_sizes();
        assert(sizes_view(sizes@).len() == sizes@.len());
        sizes.len()
    }

    /// The offset of each buffer and, last, the length of all, when the buffers are written
    /// in depth-first order, each padded to the alignment. A total past `u64` is refused
    /// with `InvalidArgument`.
    pub fn all_buffer_offsets(&self, alignment: usize) -> (r: Result<Vec<u64>, VortexError>)
        requires
            alignment > 0,
        ensures
            r is Ok <==> aligned_offsets(buffer_sizes(*self), alignment as int).last() <= u64::MAX,
            r is Err ==> r->Err_0 == VortexError::InvalidArgument,
            r is Ok ==> r->Ok_0@.len() == buffer_sizes(*self).len() + 1 && forall|k: int|
                0 <= k <= buffer_sizes(*self).len() ==> (#[trigger] r->Ok_0@[k]) == aligned_offsets(
                    buffer_sizes(*self),
                    alignment as int,
                )[k],
    {
        let sizes = self.buffer_sizes();
        assert(sizes_view(sizes@).len() == sizes@.len());
        offsets_of(&sizes, alignment)
    }

    /// The size of the array in bytes, all children and buffers counted; `None` where it
    /// does not fit `usize`.
    pub fn nbytes(&self) -> (r: Option<usize>)
        ensures
            r is Some <==> sum_sizes(buffer_sizes(*self)) <= usize::MAX,
            r is Some ==> r->Some_0 == sum_sizes(buffer_sizes(*self)),
    {
        let sizes = self.buffer_sizes();
        let ghost sv = sizes_view(sizes@);
        let mut total: usize = 0;
        let mut i: usize = 0;
        assert(sv.subrange(0, 0) =~= Seq::<int>::empty());
        while i < sizes.len()
            invariant
                sv == sizes_view(sizes@),
                sv == buffer_sizes(*self),
                i <= sizes@.len(),
                total == sum_sizes(sv.subrange(0, i as int)),
            decreases sizes@.len() - i,
        {
            let size = sizes[i];
            proof {
                assert(sv.subrange(0, i + 1).drop_last() =~= sv.subrange(0, i as int));
                assert(sv.subrange(0, i + 1).last() == size);
            }
            proof {
                assert forall|k: int| 0 <= k < sv.len() implies sv[k] >= 0 by {}
                assert(sum_sizes(sv.subrange(0, i + 1)) == total + size);
            }
            if size > (usize::MAX - total) as u128 {
                proof {
                    lemma_sum_monotone(sv, i + 1);
                }
                return None;
            }
            total = total + size as usize;
            i += 1;
        }
        assert(sv.subrange(0, sizes@.len() as int) =~= sv);
        Some(total)
    }
}

/// The sum of the first `k` sizes is no more than the sum of all.
pub proof fn lemma_sum_monotone(sizes: Seq<int>, k: int)
    requires
        0 <= k <= sizes.len(),
        forall|i: int| 0 <= i < sizes.len() ==> sizes[i] >= 0,
    ensures
        sum_sizes(sizes.subrange(0, k)) <= sum_sizes(sizes),
    decreases sizes.len() - k,
{
    if k == sizes.len() {
        assert(sizes.subrange(0, k) =~= sizes);
    } else {
        lemma_sum_monotone(sizes, k + 1);
        assert(sizes.subrange(0, k + 1).drop_last() =~= sizes.subrange(0, k));
    }
}

/// The child arrays of a node, in order: the fields of a struct, the chunks of a chunked
/// array, the elements of a list array, the storage of an extension array, the values of a
/// sparse array. Validity,
/// offsets and positions are held by the node itself.
pub open spec fn children_spec(a: ArrayData) -> Seq<ArrayData> {
    match a {
        ArrayData::Struct(s) => s.fields@,
        ArrayData::Chunked(c) => c.chunks@,
        ArrayData::List(l) => seq![*l.elements],
        ArrayData::Extension(e) => seq![*e.storage],
        ArrayData::Sparse(s) => seq![*s.values],
        _ => Seq::empty(),
    }
}

/// The nodes of the first `n` arrays, each before its children.
pub open spec fn preorder_of(arrays: Seq<ArrayData>, n: int) -> Seq<ArrayData>
    decreases arrays, n,
{
    if n <= 0 || n > arrays.len() {
        Seq::empty()
    } else {
        preorder_of(arrays, n - 1) + preorder(arrays[n - 1])
    }
}

/// The nodes of an array's tree in depth-first order, each before its children.
pub open spec fn preorder(a: ArrayData) -> Seq<ArrayData>
    decreases a, 0int,
{
    match a {
        ArrayData::Struct(s) => seq![a] + preorder_of(s.fields@, s.fields@.len() as int),
        ArrayData::Chunked(c) => seq![a] + preorder_of(c.chunks@, c.chunks@.len() as int),
        ArrayData::List(l) => seq![a] + preorder(*l.elements),
        ArrayData::Extension(e) => seq![a] + preorder(*e.storage),
        ArrayData::Sparse(s) => seq![a] + preorder(*s.values),
        _ => seq![a],
    }
}

/// The nodes behind the references.
pub open spec fn nodes(refs: Seq<&ArrayData>) -> Seq<ArrayData> {
    Seq::new(refs.len(), |i: int| *refs[i])
}

/// Appends the nodes of an array's tree, each before its children.
#[verifier::loop_isolation(false)]
#[verifier::rlimit(40)]
fn collect_preorder<'a>(array: &'a ArrayData, out: &mut Vec<&'a ArrayData>)
    ensures
        nodes(final(out)@) == nodes(old(out)@) + preorder(*array),
    decreases array,
{
    let ghost start = nodes(out@);
    out.push(array);
    assert(nodes(out@) =~= start + seq![*array]);
    match array {
        ArrayData::Struct(s) => {
            let mut f: usize = 0;
            assert((start + seq![*array]) + preorder_of(s.fields@, 0) =~= start + seq![*array]);
            while f < s.fields.len()
                invariant
                    f <= s.fields@.len(),
                    nodes(out@) == (start + seq![*array]) + preorder_of(s.fields@, f as int),
                decreases s.fields@.len() - f,
            {
                proof {
                    vstd::std_specs::vec::axiom_vec_index_decreases(s.fields, f as int);
                    assert(decreases_to!(*array => array->Struct_0));
                    assert(decreases_to!(array->Struct_0 => (array->Struct_0).fields));
                    assert(((start + seq![*array]) + preorder_of(s.fields@, f as int)) + preorder(s.fields@[f as int])
                        =~= (start + seq![*array]) + preorder_of(s.fields@, f + 1));
                }
                collect_preorder(&s.fields[f], out);
                f += 1;
            }
            assert((start + seq![*array]) + preorder_of(s.fields@, s.fields@.len() as int) =~= start + (
            seq![*array] + preorder_of(s.fields@, s.fields@.len() as int)));
        },
        ArrayData::Chunked(c) => {
            let mut k: usize = 0;
            assert((start + seq![*array]) + preorder_of(c.chunks@, 0) =~= start + seq![*array]);
            while k < c.chunks.len()
                invariant
                    k <= c.chunks@.len(),
                    nodes(out@) == (start + seq![*array]) + preorder_of(c.chunks@, k as int),
                decreases c.chunks@.len() - k,
            {
                proof {
                    vstd::std_specs::vec::axiom_vec_index_decreases(c.chunks, k as int);
                    assert(decreases_to!(*array => array->Chunked_0));
                    assert(decreases_to!(array->Chunked_0 => (array->Chunked_0).chunks));
                    assert(((start + seq![*array]) + preorder_of(c.chunks@, k as int)) + preorder(c.chunks@[k as int])
                        =~= (start + seq![*array]) + preorder_of(c.chunks@, k + 1));
                }
                collect_preorder(&c.chunks[k], out);
                k += 1;
            }
            assert((start + seq![*array]) + preorder_of(c.chunks@, c.chunks@.len() as int) =~= start + (
            seq![*array] + preorder_of(c.chunks@, c.chunks@.len() as int)));
        },
        ArrayData::List(l) => {
            collect_preorder(&l.elements, out);
            assert((start + seq![*array]) + preorder(*l.elements) =~= start + (seq![*array] + preorder(
                *l.elements,
            )));
        },
        ArrayData::Extension(e) => {
            collect_preorder(&e.storage, out);
            assert((start + seq![*array]) + preorder(*e.storage) =~= start + (seq![*array] + preorder(
                *e.storage,
            )));
        },
        ArrayData::Sparse(s) => {
            collect_preorder(&s.values, out);
            assert((start + seq![*array]) + preorder(*s.values) =~= start + (seq![*array] + preorder(
                *s.values,
            )));
        },
        _ => {},
    }
}

impl ArrayData {
    /// The child arrays, in order.
    pub fn children(&self) -> (r: Vec<&ArrayData>)
        ensures
            nodes(r@) == children_spec(*self),
    {
        let mut out: Vec<&ArrayData> = Vec::new();
        match self {
            ArrayData::Struct(s) => {
                let mut f: usize = 0;
                while f < s.fields.len()
                    invariant
                        f <= s.fields@.len(),
                        out@.len() == f,
                        forall|j: int| 0 <= j < f ==> *(#[trigger] out@[j]) == s.fields@[j],
                    decreases s.fields@.len() - f,
                {
                    out.push(&s.fields[f]);
                    f += 1;
                }
            },
            ArrayData::Chunked(c) => {
                let mut k: usize = 0;
                while k < c.chunks.len()
                    invariant
                        k <= c.chunks@.len(),
                        out@.len() == k,
                        forall|j: int| 0 <= j < k ==> *(#[trigger] out@[j]) == c.chunks@[j],
                    decreases c.chunks@.len() - k,
                {
                    out.push(&c.chunks[k]);
                    k += 1;
                }
            },
            ArrayData::List(l) => {
                out.push(&l.elements);
            },
            ArrayData::Extension(e) => {
                out.push(&e.storage);
            },
            ArrayData::Sparse(s) => {
                out.push(&s.values);
            },
            _ => {},
        }
        assert(nodes(out@) =~= children_spec(*self));
        out
    }

    /// The number of child arrays.
    pub fn nchildren(&self) -> (r: usize)
        ensures
            r == children_spec(*self).len(),
    {
        match self {
            ArrayData::Struct(s) => s.fields.len(),
            ArrayData::Chunked(c) => c.chunks.len(),
            ArrayData::List(_) => 1,
            ArrayData::Extension(_) => 1,
            ArrayData::Sparse(_) => 1,
            _ => 0,
        }
    }

    /// Child `idx`, which must be of the given dtype and length: else `InvalidArgument`.
    pub fn child(&self, idx: usize, dtype: &crate::dtype::DType, len: usize) -> (r: Result<
        &ArrayData,
        VortexError,
    >)
        requires
            forall|i: int| 0 <= i < children_spec(*self).len() ==> (#[trigger] children_spec(*self)[i]).wf(),
        ensures
            r is Ok <==> idx < children_spec(*self).len() && children_spec(*self)[idx as int].dtype_spec()
                == dtype@ && children_spec(*self)[idx as int].elements().len() == len,
            r is Ok ==> *r->Ok_0 == children_spec(*self)[idx as int],
            r is Err ==> r->Err_0 == VortexError::InvalidArgument,
    {
        let c: &ArrayData = match self {
            ArrayData::Struct(s) => {
                if idx >= s.fields.len() {
                    return Err(VortexError::InvalidArgument);
                }
                &s.fields[idx]
            },
            ArrayData::Chunked(c) => {
                if idx >= c.chunks.len() {
                    return Err(VortexError::InvalidArgument);
                }
                &c.chunks[idx]
            },
            ArrayData::List(l) => {
                if idx >= 1 {
                    return Err(VortexError::InvalidArgument);
                }
                &l.elements
            },
            ArrayData::Extension(e) => {
                if idx >= 1 {
                    return Err(VortexError::InvalidArgument);
                }
                &e.storage
            },
            ArrayData::Sparse(s) => {
                if idx >= 1 {
                    return Err(VortexError::InvalidArgument);
                }
                &s.values
            },
            _ => {
                return Err(VortexError::InvalidArgument);
            },
        };
        assert(*c == children_spec(*self)[idx as int]);
        if !c.dtype().eq(dtype) || c.len() != len {
            return Err(VortexError::InvalidArgument);
        }
        Ok(c)
    }

    /// The nodes of the array's tree in depth-first order, each before its children.
    pub fn depth_first_traversal(&self) -> (r: Vec<&ArrayData>)
        ensures
            nodes(r@) == preorder(*self),
    {
        let mut out: Vec<&ArrayData> = Vec::new();
        assert(nodes(out@) + preorder(*self) =~= preorder(*self));
        collect_preorder(self, &mut out);
        out
    }
}

/// The nodes of the trees of the arrays from `i` on, each before its children.
pub open spec fn preorder_from(arrays: Seq<ArrayData>, i: int) -> Seq<ArrayData>
    decreases arrays.len() - i,
{
    if i < 0 || i >= arrays.len() {
        Seq::empty()
    } else {
        preorder(arrays[i]) + preorder_from(arrays, i + 1)
    }
}

/// The nodes that a stack of trees still holds, the top of the stack first.
pub open spec fn pending_of(stack: Seq<&ArrayData>, n: int) -> Seq<ArrayData>
    decreases n,
{
    if n <= 0 || n > stack.len() {
        Seq::empty()
    } else {
        preorder(*stack[n - 1]) + pending_of(stack, n - 1)
    }
}

/// Laying trees end to end from the first is laying them end to end up to the last.
pub proof fn lemma_preorder_from(arrays: Seq<ArrayData>, i: int, n: int)
    requires
        0 <= i <= n <= arrays.len(),
    ensures
        preorder_of(arrays, i) + preorder_from(arrays.subrange(0, n), i) == preorder_of(arrays, n),
    decreases n - i,
{
    let cut = arrays.subrange(0, n);
    if i == n {
        assert(preorder_of(arrays, i) + Seq::<ArrayData>::empty() =~= preorder_of(arrays, i));
    } else {
        lemma_preorder_from(arrays, i + 1, n);
        assert(cut[i] == arrays[i]);
        assert((preorder_of(arrays, i) + preorder(arrays[i])) + preorder_from(cut, i + 1)
            =~= preorder_of(arrays, i) + (preorder(arrays[i]) + preorder_from(cut, i + 1)));
    }
}

/// A tree is its root and then the trees of its children.
pub proof fn lemma_preorder_children(a: ArrayData)
    ensures
        preorder(a) == seq![a] + preorder_of(children_spec(a), children_spec(a).len() as int),
{
    let c = children_spec(a);
    match a {
        ArrayData::List(_) | ArrayData::Extension(_) | ArrayData::Sparse(_) => {
            assert(preorder_of(c, 0) + preorder(c[0]) =~= preorder(c[0]));
        },
        ArrayData::Struct(_) | ArrayData::Chunked(_) => {},
        _ => {
            assert(seq![a] + Seq::<ArrayData>::empty() =~= seq![a]);
        },
    }
}

/// An iterator over the nodes of an array's tree in depth-first order, each before its
/// children.
pub struct ArrayChildrenIterator<'a> {
    stack: Vec<&'a ArrayData>,
}

impl<'a> ArrayChildrenIterator<'a> {
    /// The nodes yet to come, in the order in which they come.
    pub closed spec fn pending(&self) -> Seq<ArrayData> {
        pending_of(self.stack@, self.stack@.len() as int)
    }

    /// The iterator over the tree of `array`.
    pub fn new(array: &'a ArrayData) -> (r: Self)
        ensures
            r.pending() == preorder(*array),
    {
        let mut stack: Vec<&'a ArrayData> = Vec::new();
        stack.push(array);
        assert(pending_of(stack@, 0) =~= Seq::<ArrayData>::empty());
        assert(*stack@[0] == *array);
        assert(pending_of(stack@, 1) =~= preorder(*array));
        Self { stack }
    }

    /// The next node, if there is one.
    pub fn next(&mut self) -> (r: Option<&'a ArrayData>)
        ensures
            old(self).pending().len() == 0 ==> r is None && final(self).pending().len() == 0,
            old(self).pending().len() > 0 ==> r is Some && *r->Some_0 == old(self).pending()[0]
                && final(self).pending() == old(self).pending().subrange(
                1,
                old(self).pending().len() as int,
            ),
    {
        let ghost before = self.stack@;
        let next = match self.stack.pop() {
            Some(n) => n,
            None => {
                return None;
            },
        };
        let ghost rest = self.stack@;
        let children = next.children();
        let ghost kids = children_spec(*next);
        let m = children.len();
        proof {
            assert(before =~= rest.push(next));
            lemma_pending_prefix(before, rest, rest.len() as int);
            lemma_preorder_children(*next);
            assert(preorder_from(kids.subrange(0, m as int), m as int) + pending_of(rest, rest.len() as int)
                =~= pending_of(rest, rest.len() as int));
        }
        let mut i: usize = m;
        while i > 0
            invariant
                i <= m,
                m == children@.len(),
                nodes(children@) == kids,
                self.stack@.len() == rest.len() + (m - i),
                pending_of(self.stack@, self.stack@.len() as int) == preorder_from(
                    kids.subrange(0, m as int),
                    i as int,
                ) + pending_of(rest, rest.len() as int),
            decreases i,
        {
            i -= 1;
            let ghost old_stack = self.stack@;
            self.stack.push(children[i]);
            proof {
                lemma_pending_prefix(self.stack@, old_stack, old_stack.len() as int);
                assert(kids[i as int] == *children@[i as int]);
                assert(kids.subrange(0, m as int)[i as int] == kids[i as int]);
                assert(preorder(kids[i as int]) + (preorder_from(kids.subrange(0, m as int), i + 1)
                    + pending_of(rest, rest.len() as int)) =~= (preorder(kids[i as int]) + preorder_from(
                    kids.subrange(0, m as int),
                    i + 1,
                )) + pending_of(rest, rest.len() as int));
            }
        }
        proof {
            lemma_preorder_from(kids, 0, m as int);
            assert(kids.subrange(0, m as int) =~= kids);
            assert(preorder_of(kids, 0) + preorder_from(kids, 0) =~= preorder_from(kids, 0));
            let old_pending = pending_of(before, before.len() as int);
            let tail = preorder_of(kids, m as int) + pending_of(rest, rest.len() as int);
            assert(old_pending =~= seq![*next] + tail);
            assert(old_pending.subrange(1, old_pending.len() as int) =~= tail);
        }
        Some(next)
    }
}

/// What a stack holds below its top does not depend on the top.
pub proof fn lemma_pending_prefix(a: Seq<&ArrayData>, b: Seq<&ArrayData>, n: int)
    requires
        0 <= n <= a.len(),
        n <= b.len(),
        forall|j: int| 0 <= j < n ==> a[j] == b[j],
    ensures
        pending_of(a, n) == pending_of(b, n),
    decreases n,
{
    if n > 0 {
        lemma_pending_prefix(a, b, n - 1);
    }
}

} // verus!
