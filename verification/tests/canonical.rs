use vortex::array::{
    ArrayData, ChunkedArray, ConstantArray, ExtensionArray, ListArray, PrimitiveArray,
    SparseArray, StructArray, VarBinArray,
};
use vortex::builders::{default_value, from_values};
use vortex::canonical::{into_canonical, Canonical};
use vortex::compressors::{SamplingCompressor, SparseCompressor};
use vortex::compute::compare::Operator;
use vortex::compute::mask::FilterMask;
use vortex::compute::scalar_at::{scalar_at, value_at};
use vortex::dtype::{DType, ExtDType, Nullability, PType, StructDType};
use vortex::encodings::chunked_filter::{filter_slices, slices_to_mask};
use vortex::error::VortexError;
use vortex::fuzz::slice_canonical_array;
use vortex::interop::{temporal_metadata, TemporalMetadata, TimeUnit};
use vortex::scalar::{InnerScalarValue, Scalar, ScalarValue};
use vortex::validity::Validity;

fn ints(values: Vec<i128>) -> ArrayData {
    PrimitiveArray::try_new(PType::I64, values, Validity::NonNullable)
        .unwrap()
        .into_array()
}

fn int_dtype() -> DType {
    DType::Primitive(PType::I64, Nullability::NonNullable)
}

fn plain(array: &ArrayData) -> Vec<i128> {
    (0..array.len())
        .map(|i| match value_at(array, i).0 {
            InnerScalarValue::Primitive(v) => v,
            _ => panic!("not primitive"),
        })
        .collect()
}

fn pairs(a: Vec<i128>, b: Vec<i128>, validity: Validity) -> ArrayData {
    let len = a.len();
    StructArray::try_new(
        vec!["a".to_string(), "b".to_string()],
        vec![ints(a), ints(b)],
        len,
        validity,
    )
    .unwrap()
    .into_array()
}

fn pair(a: i128, b: i128) -> ScalarValue {
    ScalarValue::list(vec![ScalarValue::primitive(a), ScalarValue::primitive(b)])
}

fn pair_dtype(nullability: Nullability) -> DType {
    DType::Struct(
        StructDType {
            names: vec!["a".to_string(), "b".to_string()],
            dtypes: vec![int_dtype(), int_dtype()],
        },
        nullability,
    )
}

fn timestamp() -> ExtDType {
    ExtDType {
        id: "vortex.timestamp".to_string(),
        storage: Box::new(int_dtype()),
        metadata: vec![2, 0, 0],
    }
}

fn timestamps(values: Vec<i128>) -> ArrayData {
    ArrayData::Extension(ExtensionArray::try_new(timestamp(), ints(values)).unwrap())
}

fn lists(items: Vec<i128>, offsets: Vec<usize>, validity: Validity) -> ArrayData {
    ArrayData::List(ListArray::try_new(ints(items), PType::U32, offsets, validity).unwrap())
}

#[test]
fn chunks_of_extension_arrays_become_one_extension_array() {
    let chunked = ChunkedArray::try_new(
        vec![timestamps(vec![1, 2]), timestamps(vec![]), timestamps(vec![3])],
        DType::Extension(timestamp()),
    )
    .unwrap()
    .into_array();
    let ext = into_canonical(chunked).unwrap().into_extension().unwrap();
    assert_eq!(ext.dtype.eq(&DType::Extension(timestamp())), true);
    assert_eq!(plain(&ext.storage), vec![1, 2, 3]);
    // Chunks none of which is there: spelled out, an extension array without elements.
    let none = ChunkedArray::try_new(vec![], DType::Extension(timestamp()))
        .unwrap()
        .into_array();
    let ext = into_canonical(none).unwrap().into_extension().unwrap();
    assert_eq!(ext.storage.len(), 0);
}

#[test]
fn chunks_of_lists_become_one_list() {
    let first = lists(vec![1, 2, 3], vec![0, 2, 3], Validity::Array(vec![true, true]));
    let second = lists(vec![9, 4, 5], vec![1, 1, 3], Validity::Array(vec![false, true]));
    let dtype = DType::List(Box::new(int_dtype()), Nullability::Nullable);
    let chunked = ChunkedArray::try_new(vec![first, second], dtype)
        .unwrap()
        .into_array();
    let list = into_canonical(chunked).unwrap().into_list().unwrap();
    assert_eq!(list.offsets, vec![0, 2, 3, 3, 5]);
    assert_eq!(list.offsets_ptype(), PType::U64);
    assert_eq!(plain(&list.elements), vec![1, 2, 3, 4, 5]);
    assert_eq!(list.validity.to_bools(4), vec![true, true, false, true]);
    let empty = ChunkedArray::try_new(
        vec![],
        DType::List(Box::new(int_dtype()), Nullability::NonNullable),
    )
    .unwrap()
    .into_array();
    let list = into_canonical(empty).unwrap().into_list().unwrap();
    assert_eq!(list.offsets, vec![0]);
    assert_eq!(list.elements.len(), 0);
}

#[test]
fn sparse_and_constant_structs_are_spelled_out() {
    let fill = Scalar { dtype: pair_dtype(Nullability::NonNullable), value: pair(0, -1) };
    let sparse = SparseArray::try_new(
        vec![1, 3],
        pairs(vec![10, 30], vec![11, 31], Validity::NonNullable),
        4,
        fill,
    )
    .unwrap()
    .into_array();
    let rows = into_canonical(sparse).unwrap().into_struct().unwrap();
    assert_eq!(rows.len, 4);
    assert_eq!(plain(&rows.fields[0]), vec![0, 10, 0, 30]);
    assert_eq!(plain(&rows.fields[1]), vec![-1, 11, -1, 31]);
    assert_eq!(rows.dtype.eq(&pair_dtype(Nullability::NonNullable)), true);

    let constant = ArrayData::Constant(ConstantArray::new(
        Scalar { dtype: pair_dtype(Nullability::NonNullable), value: pair(7, 8) },
        3,
    ));
    let rows = into_canonical(constant).unwrap().into_struct().unwrap();
    assert_eq!(plain(&rows.fields[0]), vec![7, 7, 7]);
    assert_eq!(plain(&rows.fields[1]), vec![8, 8, 8]);

    let nulls = ArrayData::Constant(ConstantArray::new(
        Scalar { dtype: pair_dtype(Nullability::Nullable), value: ScalarValue::null() },
        2,
    ));
    let rows = into_canonical(nulls).unwrap().into_struct().unwrap();
    assert_eq!(rows.validity.to_bools(2), vec![false, false]);
    assert_eq!(plain(&rows.fields[0]), vec![0, 0]);
}

#[test]
fn what_is_no_value_of_the_dtype_is_refused() {
    let null_in_non_nullable = ArrayData::Constant(ConstantArray::new(
        Scalar { dtype: pair_dtype(Nullability::NonNullable), value: ScalarValue::null() },
        2,
    ));
    assert_eq!(
        into_canonical(null_in_non_nullable).err(),
        Some(VortexError::InvalidArgument)
    );
    let short_row = ArrayData::Constant(ConstantArray::new(
        Scalar {
            dtype: pair_dtype(Nullability::NonNullable),
            value: ScalarValue::list(vec![ScalarValue::primitive(1)]),
        },
        1,
    ));
    assert_eq!(into_canonical(short_row).err(), Some(VortexError::InvalidArgument));
    // Without elements there is nothing to refuse.
    let none = ArrayData::Constant(ConstantArray::new(
        Scalar { dtype: pair_dtype(Nullability::NonNullable), value: ScalarValue::null() },
        0,
    ));
    assert_eq!(into_canonical(none).unwrap().into_struct().unwrap().len, 0);
}

#[test]
fn canonical_forms_are_kept_by_canonicalizing_again() {
    let chunked = ChunkedArray::try_new(
        vec![pairs(vec![1], vec![2], Validity::NonNullable), pairs(vec![3], vec![4], Validity::NonNullable)],
        pair_dtype(Nullability::NonNullable),
    )
    .unwrap()
    .into_array();
    let once = into_canonical(chunked).unwrap().into_array();
    assert!(once.is_canonical());
    let twice = into_canonical(once.clone()).unwrap().into_array();
    assert_eq!(twice.len(), 2);
    match (&once, &twice) {
        (ArrayData::Struct(a), ArrayData::Struct(b)) => {
            assert_eq!(plain(&a.fields[0]), vec![1, 3]);
            assert_eq!(plain(&b.fields[0]), vec![1, 3]);
            assert_eq!(plain(&b.fields[1]), vec![2, 4]);
        }
        _ => panic!("not a struct"),
    }
}

#[test]
fn arrays_from_values_follow_the_dtype() {
    let dtype = DType::List(Box::new(pair_dtype(Nullability::Nullable)), Nullability::Nullable);
    let values = vec![
        ScalarValue::list(vec![pair(1, 2), ScalarValue::null()]),
        ScalarValue::null(),
        ScalarValue::list(vec![]),
        ScalarValue::list(vec![pair(5, 6)]),
    ];
    let built = from_values(&dtype, &values).unwrap();
    let list = match built {
        Canonical::List(l) => l,
        _ => panic!("not a list"),
    };
    assert_eq!(list.offsets, vec![0, 2, 2, 2, 3]);
    assert_eq!(list.validity.to_bools(4), vec![true, false, true, true]);
    let rows = match *list.elements {
        ArrayData::Struct(s) => s,
        _ => panic!("not a struct"),
    };
    assert_eq!(rows.validity.to_bools(3), vec![true, false, true]);
    assert_eq!(plain(&rows.fields[0]), vec![1, 0, 5]);
    assert_eq!(plain(&rows.fields[1]), vec![2, 0, 6]);
    assert_eq!(default_value(&pair_dtype(Nullability::Nullable)).eq(&pair(0, 0)), true);
    // A value of another kind, and a dtype without a name for each field.
    assert_eq!(
        from_values(&int_dtype(), &vec![ScalarValue::bool(true)]).err(),
        Some(VortexError::InvalidArgument)
    );
    let unnamed = DType::Struct(
        StructDType { names: vec![], dtypes: vec![int_dtype()] },
        Nullability::NonNullable,
    );
    assert_eq!(from_values(&unnamed, &vec![]).err(), Some(VortexError::InvalidArgument));
}

#[test]
fn reference_slice_of_chunked_structs() {
    let chunked = ChunkedArray::try_new(
        vec![
            pairs(vec![1, 2], vec![10, 20], Validity::Array(vec![true, false])),
            pairs(vec![3, 4, 5], vec![30, 40, 50], Validity::Array(vec![true, true, true])),
        ],
        pair_dtype(Nullability::Nullable),
    )
    .unwrap()
    .into_array();
    let reference = slice_canonical_array(&chunked, 1, 4);
    let rows = match reference {
        ArrayData::Struct(s) => s,
        _ => panic!("not a struct"),
    };
    assert_eq!(rows.len, 3);
    assert_eq!(rows.validity.to_bools(3), vec![false, true, true]);
    assert_eq!(plain(&rows.fields[0])[1..], [3, 4]);
    assert_eq!(plain(&rows.fields[1])[1..], [30, 40]);
    assert_eq!(rows.dtype.eq(&pair_dtype(Nullability::Nullable)), true);
    // The dtype is kept: what could hold no null still cannot.
    let kept = slice_canonical_array(&ints(vec![1, 2, 3]), 1, 2);
    assert_eq!(kept.dtype().eq(&int_dtype()), true);
    assert_eq!(plain(&kept), vec![2]);
}

#[test]
fn filtering_by_slices_leaves_at_most_one_array_per_chunk() {
    let chunks = vec![ints(vec![10, 11, 12]), ints(vec![]), ints(vec![13, 14]), ints(vec![15, 16]), ints(vec![17])];
    let chunked = ChunkedArray::try_new(chunks, int_dtype()).unwrap();
    // One run from position 1 to 6: the chunk of 13 and 14 lies strictly inside, and so
    // does the empty one. The last chunk has no selected position.
    let mask = FilterMask::from_bools(vec![false, true, true, true, true, true, true, false]);
    let kept = filter_slices(&chunked, &mask);
    assert_eq!(kept.len(), 4);
    assert_eq!(plain(&kept[0]), vec![11, 12]);
    assert_eq!(kept[1].len(), 0);
    assert_eq!(plain(&kept[2]), vec![13, 14]);
    assert_eq!(kept[2].encoding(), chunked.chunks[2].encoding());
    assert_eq!(plain(&kept[3]), vec![15, 16]);
    // Nothing selected in the first chunks, nothing left of them.
    let tail = FilterMask::from_bools(vec![false, false, false, false, false, false, false, true]);
    let kept = filter_slices(&chunked, &tail);
    assert_eq!(kept.len(), 1);
    assert_eq!(plain(&kept[0]), vec![17]);
}

#[test]
fn empty_ranges_set_nothing() {
    let mask = slices_to_mask(&vec![(0, 0), (1, 3), (3, 3), (4, 5), (6, 6)], 6);
    assert_eq!(mask.to_bools(), vec![false, true, true, false, true, false]);
    assert_eq!(mask.true_count(), 3);
    assert_eq!(slices_to_mask(&vec![], 2).to_bools(), vec![false, false]);
}

#[test]
fn varbin_take_gives_a_varbin_array_from_offset_zero() {
    let array = VarBinArray::from_vec(
        vec![b"ab".to_vec(), b"cde".to_vec(), b"f".to_vec()],
        DType::Binary(Nullability::NonNullable),
    );
    let sliced = array.slice(1, 3).unwrap();
    let sliced = match sliced {
        ArrayData::VarBin(v) => v,
        _ => panic!("not varbin"),
    };
    assert_eq!(sliced.offsets[0], 2);
    let taken = match sliced.take(&vec![1, 0, 1]).unwrap() {
        ArrayData::VarBin(v) => v,
        _ => panic!("not varbin"),
    };
    assert_eq!(taken.offsets, vec![0, 1, 4, 5]);
    assert_eq!(taken.bytes, b"fcdef".to_vec());
    assert_eq!(sliced.take(&vec![2]).err(), Some(VortexError::InvalidArgument));
}

#[test]
fn chunked_compare_is_chunked_as_its_input() {
    let chunked = ChunkedArray::try_new(
        vec![ints(vec![1, 2, 3]), ints(vec![]), ints(vec![4, 5])],
        int_dtype(),
    )
    .unwrap();
    let other = ints(vec![1, 0, 3, 0, 5]);
    let result = match chunked.compare(&other, Operator::Eq).unwrap() {
        ArrayData::Chunked(c) => c,
        _ => panic!("not chunked"),
    };
    let lengths: Vec<usize> = result.chunks.iter().map(|c| c.len()).collect();
    assert_eq!(lengths, vec![3, 0, 2]);
    let whole = ArrayData::Chunked(result);
    let flags: Vec<bool> = (0..5)
        .map(|i| scalar_at(&whole, i).unwrap().try_into_bool().unwrap())
        .collect();
    assert_eq!(flags, vec![true, false, true, false, true]);
}

#[test]
fn sparse_compression_keeps_the_fill() {
    let sparse = SparseArray::try_new(
        vec![0, 1],
        ints(vec![7, 8]),
        2,
        Scalar::primitive(-1, PType::I64, Nullability::NonNullable),
    )
    .unwrap()
    .into_array();
    let compressed = SparseCompressor
        .compress(&sparse, None, SamplingCompressor::new())
        .unwrap();
    match compressed.array {
        ArrayData::Sparse(s) => {
            assert_eq!(s.fill.value.eq(&ScalarValue::primitive(-1)), true);
            assert_eq!(s.indices, vec![0, 1]);
            assert_eq!(s.len, 2);
        }
        _ => panic!("not sparse"),
    }
}

#[test]
fn temporal_metadata_is_read_from_identifier_and_unit() {
    let read = |id: &str, metadata: Vec<u8>| temporal_metadata(&id.to_string(), &metadata);
    assert_eq!(read("vortex.time", vec![0]), Some(TemporalMetadata::Time(TimeUnit::Ns)));
    assert_eq!(read("vortex.time", vec![1]), Some(TemporalMetadata::Time(TimeUnit::Us)));
    assert_eq!(read("vortex.date", vec![2]), Some(TemporalMetadata::Date(TimeUnit::Ms)));
    assert_eq!(read("vortex.date", vec![4]), Some(TemporalMetadata::Date(TimeUnit::D)));
    assert_eq!(
        read("vortex.timestamp", vec![3, 0, 0]),
        Some(TemporalMetadata::Timestamp(TimeUnit::S))
    );
    assert_eq!(read("vortex.timestamp", vec![]), None);
    assert_eq!(read("vortex.timestamp", vec![5]), None);
    assert_eq!(read("vortex.interval", vec![0]), None);
}

#[test]
fn canonical_arrays_can_be_checked() {
    let good = into_canonical(ints(vec![1, 2])).unwrap();
    assert!(good.validate());
    let bad = Canonical::Primitive(PrimitiveArray {
        ptype: PType::U8,
        values: vec![256],
        validity: Validity::NonNullable,
    });
    assert!(!bad.validate());
    let short = Canonical::List(ListArray {
        dtype: DType::List(Box::new(int_dtype()), Nullability::NonNullable),
        elements: Box::new(ints(vec![1])),
        offsets_ptype: PType::U8,
        offsets: vec![0, 2],
        validity: Validity::NonNullable,
    });
    assert!(!short.validate());
}

#[test]
fn what_no_encoder_takes_is_stored_canonically() {
    let strings = VarBinArray::from_vec(
        vec![b"ab".to_vec(), b"c".to_vec()],
        DType::Utf8(Nullability::NonNullable),
    )
    .into_array();
    let stored = SamplingCompressor::new().compress(&strings, None).unwrap();
    assert!(stored.path.is_none());
    match stored.array {
        ArrayData::VarBinView(v) => assert_eq!(v.values, vec![b"ab".to_vec(), b"c".to_vec()]),
        _ => panic!("not a view array"),
    }
    // With no depth left, the sparse encoder is not asked.
    let sparse = SparseArray::try_new(
        vec![1],
        ints(vec![7]),
        3,
        Scalar::primitive(0, PType::I64, Nullability::NonNullable),
    )
    .unwrap()
    .into_array();
    let exhausted = SamplingCompressor::new().descend().descend().descend();
    let stored = exhausted.compress(&sparse, None).unwrap();
    assert!(stored.path.is_none());
    assert!(stored.array.is_canonical());
    assert_eq!(plain(&stored.array), vec![0, 7, 0]);
}
