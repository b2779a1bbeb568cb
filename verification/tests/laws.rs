use vortex::array::{ArrayData, ChunkedArray, PrimitiveArray, SparseArray, StructArray};
use vortex::canonical::into_canonical;
use vortex::compressors::{SamplingCompressor, SparseCompressor};
use vortex::compute::compare::{compare, Operator};
use vortex::compute::filter::filter;
use vortex::compute::mask::FilterMask;
use vortex::compute::scalar_at::scalar_at;
use vortex::compute::slice::slice;
use vortex::compute::take::{take, take_array};
use vortex::dtype::{DType, Nullability, PType};
use vortex::fuzz::slice_canonical_array;
use vortex::scalar::Scalar;
use vortex::validity::Validity;

fn ints(values: Vec<i128>) -> ArrayData {
    PrimitiveArray::try_new(PType::I64, values, Validity::NonNullable)
        .unwrap()
        .into_array()
}

fn nullable_ints(values: Vec<Option<i128>>) -> ArrayData {
    let flags = values.iter().map(|v| v.is_some()).collect();
    let raw = values.iter().map(|v| v.unwrap_or(0)).collect();
    PrimitiveArray::try_new(PType::I64, raw, Validity::Array(flags))
        .unwrap()
        .into_array()
}

fn elements(array: &ArrayData) -> Vec<Option<i128>> {
    (0..array.len())
        .map(|i| {
            let s = scalar_at(array, i).unwrap();
            match s.value.0 {
                vortex::scalar::InnerScalarValue::Primitive(v) => Some(v),
                vortex::scalar::InnerScalarValue::Null => None,
                _ => panic!("not primitive"),
            }
        })
        .collect()
}

fn bools(array: &ArrayData) -> Vec<Option<bool>> {
    (0..array.len())
        .map(|i| {
            let s = scalar_at(array, i).unwrap();
            match s.value.0 {
                vortex::scalar::InnerScalarValue::Bool(v) => Some(v),
                vortex::scalar::InnerScalarValue::Null => None,
                _ => panic!("not bool"),
            }
        })
        .collect()
}

fn samples() -> Vec<ArrayData> {
    let chunked = ChunkedArray::try_new(
        vec![ints(vec![1, 2]), ints(vec![]), ints(vec![3, 4, 5, 6])],
        DType::Primitive(PType::I64, Nullability::NonNullable),
    )
    .unwrap()
    .into_array();
    let sparse = SparseArray::try_new(
        vec![1, 4],
        ints(vec![7, 8]),
        6,
        Scalar::primitive(-1, PType::I64, Nullability::NonNullable),
    )
    .unwrap()
    .into_array();
    vec![
        ints(vec![5, 3, 9, 1, 0, 2]),
        nullable_ints(vec![Some(1), None, Some(3), None, None, Some(6)]),
        chunked,
        sparse,
    ]
}

#[test]
fn slice_of_slice_is_one_slice() {
    for a in samples() {
        let inner = slice(&a, 1, 6).unwrap();
        let outer = slice(&inner, 1, 4).unwrap();
        let direct = slice(&a, 2, 5).unwrap();
        assert_eq!(elements(&outer), elements(&direct));
        assert_eq!(outer.len(), 3);
    }
}

#[test]
fn filter_is_take_of_the_set_positions() {
    let mask = FilterMask::from_bools(vec![true, false, true, true, false, true]);
    for a in samples() {
        let filtered = filter(&a, &mask).unwrap();
        let taken = take(&a, &mask.iter_indices()).unwrap();
        assert_eq!(elements(&filtered), elements(&taken));
        assert_eq!(filtered.len(), mask.true_count());
    }
}

#[test]
fn take_of_every_position_is_the_array() {
    for a in samples() {
        let all: Vec<usize> = (0..a.len()).collect();
        let taken = take(&a, &all).unwrap();
        assert_eq!(elements(&taken), elements(&a));
        assert!(taken.dtype().eq(&a.dtype()));
        assert_eq!(taken.len(), all.len());
    }
}

#[test]
fn take_by_an_index_array() {
    let array = nullable_ints(vec![Some(10), None, Some(30)]);
    let indices = PrimitiveArray::try_new(
        PType::U8,
        vec![2, 0, 0, 1],
        Validity::Array(vec![true, false, true, true]),
    )
    .unwrap()
    .into_array();
    let taken = take_array(&array, &indices).unwrap();
    assert_eq!(elements(&taken), vec![Some(30), None, Some(10), None]);
    assert!(taken.dtype().eq(&array.dtype()));
    // Null indices need a nullable array; indices must be integers within the length.
    assert!(take_array(&ints(vec![1, 2, 3]), &indices).is_err());
    let plain = ints(vec![2, 1]);
    assert_eq!(elements(&take_array(&ints(vec![7, 8, 9]), &plain).unwrap()), vec![Some(9), Some(8)]);
    assert!(take_array(&ints(vec![7, 8, 9]), &ints(vec![3])).is_err());
    assert!(take_array(&ints(vec![7, 8, 9]), &ints(vec![-1])).is_err());
    let bools = vortex::array::BoolArray::from_vec(vec![true]).into_array();
    assert!(take_array(&ints(vec![7]), &bools).is_err());
}

#[test]
fn not_eq_is_the_negation_of_eq() {
    let lhs = nullable_ints(vec![Some(1), None, Some(3), Some(4)]);
    let rhs = nullable_ints(vec![Some(1), Some(2), None, Some(5)]);
    let eq = bools(&compare(&lhs, &rhs, Operator::Eq).unwrap());
    let ne = bools(&compare(&lhs, &rhs, Operator::NotEq).unwrap());
    assert_eq!(eq, vec![Some(true), None, None, Some(false)]);
    assert_eq!(ne, vec![Some(false), None, None, Some(true)]);
}

#[test]
fn constant_and_spelled_out_compare_alike() {
    let lhs = ints(vec![1, 2, 3, 2]);
    let constant = vortex::array::ConstantArray::new(
        Scalar::primitive(2, PType::I64, Nullability::NonNullable),
        4,
    )
    .into_array();
    let spelled = ints(vec![2, 2, 2, 2]);
    for op in [
        Operator::Eq,
        Operator::NotEq,
        Operator::Lt,
        Operator::Lte,
        Operator::Gt,
        Operator::Gte,
    ] {
        assert_eq!(
            bools(&compare(&lhs, &constant, op).unwrap()),
            bools(&compare(&lhs, &spelled, op).unwrap())
        );
    }
    assert_eq!(
        bools(&compare(&lhs, &constant, Operator::Lt).unwrap()),
        vec![Some(true), Some(false), Some(false), Some(false)]
    );
    let primitive = match &lhs {
        ArrayData::Primitive(p) => p,
        _ => panic!("not primitive"),
    };
    assert!(primitive.maybe_compare(&constant, Operator::Eq).is_some());
    let chunked = ChunkedArray::try_new(vec![spelled], lhs.dtype()).unwrap().into_array();
    assert!(primitive.maybe_compare(&chunked, Operator::Eq).is_none());
}

#[test]
fn chunked_compare_lays_results_end_to_end() {
    let chunked = ChunkedArray::try_new(
        vec![ints(vec![1, 2]), ints(vec![3, 4, 5])],
        DType::Primitive(PType::I64, Nullability::NonNullable),
    )
    .unwrap();
    let rhs = ints(vec![1, 0, 3, 0, 5]);
    let result = chunked.compare(&rhs, Operator::Eq).unwrap();
    assert!(matches!(&result, ArrayData::Chunked(c) if c.nchunks() == 2));
    assert_eq!(
        bools(&result),
        vec![Some(true), Some(false), Some(true), Some(false), Some(true)]
    );
    assert!(chunked.compare(&ints(vec![1]), Operator::Eq).is_err());
}

#[test]
fn floats_compare_in_total_order() {
    let f = |x: f32| x.to_bits() as i128;
    let lhs = PrimitiveArray::try_new(
        PType::F32,
        vec![f(-1.5), f(-0.0), f(0.0), f(2.0), f(f32::NAN)],
        Validity::NonNullable,
    )
    .unwrap()
    .into_array();
    let rhs = PrimitiveArray::try_new(
        PType::F32,
        vec![f(-1.0), f(0.0), f(0.0), f(1.0), f(f32::NAN)],
        Validity::NonNullable,
    )
    .unwrap()
    .into_array();
    assert_eq!(
        bools(&compare(&lhs, &rhs, Operator::Lt).unwrap()),
        vec![Some(true), Some(true), Some(false), Some(false), Some(false)]
    );
    assert_eq!(
        bools(&compare(&lhs, &rhs, Operator::Eq).unwrap()),
        vec![Some(false), Some(false), Some(true), Some(false), Some(true)]
    );
}

#[test]
fn compression_keeps_the_canonical_form() {
    let sparse = SparseArray::try_new(
        vec![1, 4],
        ints(vec![7, 8]),
        6,
        Scalar::primitive(-1, PType::I64, Nullability::NonNullable),
    )
    .unwrap()
    .into_array();
    let compressed = SamplingCompressor::new().compress(&sparse, None).unwrap();
    assert!(compressed.path.is_some());
    assert_eq!(compressed.path.as_ref().unwrap().children.len(), 2);
    let before = into_canonical(sparse.clone()).unwrap().into_primitive().unwrap();
    let after = into_canonical(compressed.array).unwrap().into_primitive().unwrap();
    assert_eq!(before.values, after.values);
    assert_eq!(before.values, vec![-1, 7, -1, -1, 8, -1]);
    let plain = ints(vec![1, 2]);
    assert!(!SparseCompressor.can_compress(&plain));
    assert!(SamplingCompressor::new().compress(&plain, None).unwrap().path.is_none());
    assert!(SparseCompressor
        .compress(&plain, None, SamplingCompressor::new())
        .is_err());
    // Twice the same input, twice the same tree.
    let again = SamplingCompressor::new().compress(&sparse, None).unwrap();
    assert_eq!(elements(&again.array), vec![Some(-1), Some(7), Some(-1), Some(-1), Some(8), Some(-1)]);
}

#[test]
fn reference_slice_agrees_with_the_kernels() {
    for a in samples() {
        let reference = slice_canonical_array(&a, 1, 5);
        let sliced = slice(&a, 1, 5).unwrap();
        assert_eq!(elements(&reference), elements(&sliced));
        assert!(reference.is_canonical());
    }
    let nested = StructArray::try_new(
        vec!["a".to_string()],
        vec![ints(vec![1, 2, 3])],
        3,
        Validity::NonNullable,
    )
    .unwrap()
    .into_array();
    let reference = slice_canonical_array(&nested, 1, 3);
    match reference {
        ArrayData::Struct(s) => {
            assert_eq!(s.len, 2);
            assert_eq!(elements(&s.fields[0]), vec![Some(2), Some(3)]);
        }
        _ => panic!("not a struct"),
    }
}
