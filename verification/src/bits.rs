//! Packed boolean buffers, built and combined by `arrow_buffer`.
//!
//! What this module states of `arrow_buffer` is not proved here: each item's comment says
//! what is taken on trust.

use vstd::prelude::*;

verus! {

/// `arrow_buffer::BooleanBufferBuilder`, a growable packed buffer of bits. Nothing inside
/// it is visible to proofs.
#[verifier::external_type_specification]
#[verifier::external_body]
pub struct ExBooleanBufferBuilder(arrow_buffer::BooleanBufferBuilder);

/// The bits that a builder holds, the first appended first.
pub uninterp spec fn builder_bits(b: arrow_buffer::BooleanBufferBuilder) -> Seq<bool>;

/// `BooleanBufferBuilder::new`: a builder that holds no bit yet. The capacity is a hint.
#[verifier::external_body]
pub(crate) fn builder_new(capacity: usize) -> (b: arrow_buffer::BooleanBufferBuilder)
    ensures
        builder_bits(b) == Seq::<bool>::empty(),
{
    arrow_buffer::BooleanBufferBuilder::new(capacity)
}

/// `BooleanBufferBuilder::append_n`: appends `additional` bits of value `v` after the bits
/// already held. The new length is computed in `usize`, which the precondition keeps from
/// overflowing.
#[verifier::external_body]
pub(crate) fn builder_append_n(
    b: &mut arrow_buffer::BooleanBufferBuilder,
    additional: usize,
    v: bool,
)
    requires
        builder_bits(*old(b)).len() + additional <= usize::MAX,
    ensures
        builder_bits(*final(b)) == builder_bits(*old(b)) + Seq::new(
            additional as nat,
            |i: int| v,
        ),
{
    b.append_n(additional, v)
}

/// `BooleanBufferBuilder::finish`: hands out the bits held, in order, and leaves the builder
/// empty. The bits come back one `bool` each.
#[verifier::external_body]
pub(crate) fn builder_finish(b: &mut arrow_buffer::BooleanBufferBuilder) -> (r: Vec<bool>)
    ensures
        r@ == builder_bits(*old(b)),
        builder_bits(*final(b)) == Seq::<bool>::empty(),
{
    b.finish().iter().collect()
}

/// `&BooleanBuffer & &BooleanBuffer`: the bitwise AND of two buffers of one length, which
/// the operator asserts.
#[verifier::external_body]
pub(crate) fn buffer_and(a: &Vec<bool>, b: &Vec<bool>) -> (r: Vec<bool>)
    requires
        a@.len() == b@.len(),
    ensures
        r@.len() == a@.len(),
        forall|i: int| 0 <= i < a@.len() ==> r@[i] == (a@[i] && b@[i]),
{
    let x = arrow_buffer::BooleanBuffer::from(a.as_slice());
    let y = arrow_buffer::BooleanBuffer::from(b.as_slice());
    (&x & &y).iter().collect()
}

/// `BooleanBuffer::new_unset`: `len` bits, all `false`.
#[verifier::external_body]
pub(crate) fn buffer_unset(len: usize) -> (r: Vec<bool>)
    ensures
        r@.len() == len,
        forall|i: int| 0 <= i < len ==> !r@[i],
{
    arrow_buffer::BooleanBuffer::new_unset(len).iter().collect()
}

} // verus!
