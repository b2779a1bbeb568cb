use vortex::array::{ArrayData, PrimitiveArray, SparseArray};
use vortex::canonical::into_canonical;
use vortex::compute::slice::slice;
use vortex::compute::take::take;
use vortex::dtype::{Nullability, PType};
use vortex::error::VortexError;
use vortex::scalar::Scalar;
use vortex::validity::Validity;

fn primitive(ptype: PType, values: Vec<i128>) -> ArrayData {
    PrimitiveArray::try_new(ptype, values, Validity::NonNullable)
        .unwrap()
        .into_array()
}

fn sparse_values(array: &ArrayData) -> Vec<i128> {
    match array {
        ArrayData::Sparse(s) => into_canonical(s.values().clone())
            .unwrap()
            .into_primitive()
            .unwrap()
            .values,
        _ => panic!("not sparse"),
    }
}

fn example() -> ArrayData {
    let values = primitive(PType::U32, vec![15, 135, 13531, 42]);
    let indices = vec![10, 11, 50, 100];
    SparseArray::try_new(
        indices,
        values,
        101,
        Scalar::primitive(0, PType::U32, Nullability::NonNullable),
    )
    .unwrap()
    .into_array()
}

#[test]
fn test_slice() {
    let sparse = example();

    let sliced = slice(&sparse, 15, 100).unwrap();
    assert_eq!(sliced.len(), 100 - 15);
    assert_eq!(sparse_values(&sliced), vec![13531]);
}

#[test]
fn doubly_sliced() {
    let sparse = example();

    let sliced = slice(&sparse, 15, 100).unwrap();
    assert_eq!(sliced.len(), 100 - 15);
    assert_eq!(sparse_values(&sliced), vec![13531]);

    let doubly_sliced = slice(&sliced, 35, 36).unwrap();
    assert_eq!(sparse_values(&doubly_sliced), vec![13531]);
}

#[test]
fn slice_partially_invalid() {
    let values = primitive(PType::U64, vec![0]);
    let indices = vec![0];

    let sparse = SparseArray::try_new(
        indices,
        values,
        1000,
        Scalar::primitive(999, PType::U64, Nullability::NonNullable),
    )
    .unwrap()
    .into_array();
    let sliced = slice(&sparse, 0, 1000).unwrap();
    let mut expected = vec![999i128; 1000];
    expected[0] = 0;

    let actual = into_canonical(sliced).unwrap().into_primitive().unwrap().values;
    assert_eq!(expected, actual);
}

#[test]
fn slice_rebases_by_the_offset() {
    let sliced = slice(&example(), 15, 100).unwrap();
    match &sliced {
        ArrayData::Sparse(s) => {
            assert_eq!(s.indices_offset(), 15);
            assert_eq!(*s.indices(), vec![50]);
            assert_eq!(s.min_index(), Some(35));
        }
        _ => panic!("not sparse"),
    }
    let materialized = into_canonical(sliced).unwrap().into_primitive().unwrap().values;
    assert_eq!(materialized.len(), 85);
    assert_eq!(materialized[35], 13531);
    assert_eq!(materialized.iter().filter(|v| **v != 0).count(), 1);
}

#[test]
fn take_hits_patches_and_fill() {
    let taken = take(&example(), &vec![100, 0, 10, 10, 50]).unwrap();
    let values = into_canonical(taken).unwrap().into_primitive().unwrap().values;
    assert_eq!(values, vec![42, 0, 15, 15, 13531]);
}

#[test]
fn constructor_asks_for_increasing_indices_within_the_length() {
    let fill = || Scalar::primitive(0, PType::U32, Nullability::NonNullable);
    let r = SparseArray::try_new(vec![2, 1], primitive(PType::U32, vec![1, 2]), 5, fill());
    assert_eq!(r.err(), Some(VortexError::InvalidArgument));
    let r = SparseArray::try_new(vec![1, 5], primitive(PType::U32, vec![1, 2]), 5, fill());
    assert_eq!(r.err(), Some(VortexError::InvalidArgument));
    let r = SparseArray::try_new(vec![1], primitive(PType::U32, vec![1, 2]), 5, fill());
    assert_eq!(r.err(), Some(VortexError::InvalidArgument));
    let r = SparseArray::try_new(
        vec![1, 2],
        primitive(PType::U32, vec![1, 2]),
        5,
        Scalar::primitive(0, PType::U64, Nullability::NonNullable),
    );
    assert_eq!(r.err(), Some(VortexError::InvalidArgument));
}
