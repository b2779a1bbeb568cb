use vortex::array::{ArrayData, ChunkedArray, PrimitiveArray};
use vortex::canonical::into_canonical;
use vortex::compute::cast::try_cast;
use vortex::compute::filter::filter;
use vortex::compute::mask::FilterMask;
use vortex::compute::scalar_at::scalar_at;
use vortex::compute::slice::slice;
use vortex::compute::take::take;
use vortex::dtype::{DType, Nullability, PType};
use vortex::encodings::chunked::find_chunk_idx;
use vortex::encodings::chunked_filter::{
    chunk_filters, filter_indices, filter_slices, slices_to_mask, uses_slices, ChunkFilter,
};
use vortex::error::VortexError;
use vortex::validity::Validity;

fn primitive(ptype: PType, values: Vec<i128>) -> ArrayData {
    PrimitiveArray::try_new(ptype, values, Validity::NonNullable)
        .unwrap()
        .into_array()
}

fn values_of(array: ArrayData) -> Vec<i128> {
    into_canonical(array)
        .unwrap()
        .into_primitive()
        .unwrap()
        .values
}

fn f16_bits(value: f32) -> i128 {
    half::f16::from_f32(value).to_bits() as i128
}

#[test]
fn test_slices_to_predicate() {
    let slices = vec![(2, 4), (6, 8), (9, 10)];
    let predicate = slices_to_mask(&slices, 11);

    let bools = predicate.to_bools();

    assert_eq!(
        bools,
        vec![false, false, true, true, false, false, true, true, false, true, false],
    )
}

#[test]
fn filter_chunked_floats() {
    let nan = half::f16::NAN.to_bits() as i128;
    let chunked = ChunkedArray::try_new(
        vec![
            primitive(PType::F16, vec![f16_bits(0.1463623)]),
            primitive(
                PType::F16,
                vec![
                    nan,
                    f16_bits(0.24987793),
                    f16_bits(0.22497559),
                    f16_bits(0.22497559),
                    f16_bits(-36160.0),
                ],
            ),
            primitive(
                PType::F16,
                vec![
                    nan,
                    nan,
                    f16_bits(0.22497559),
                    f16_bits(0.22497559),
                    f16_bits(3174.0),
                ],
            ),
        ],
        DType::Primitive(PType::F16, Nullability::NonNullable),
    )
    .unwrap()
    .into_array();
    let mask = FilterMask::from_bools(vec![
        true, false, false, true, true, true, true, true, true, true, true,
    ]);
    let filtered = filter(&chunked, &mask).unwrap();
    assert_eq!(filtered.len(), 9);
    assert_eq!(
        values_of(filtered),
        vec![
            f16_bits(0.1463623),
            f16_bits(0.22497559),
            f16_bits(0.22497559),
            f16_bits(-36160.0),
            nan,
            nan,
            f16_bits(0.22497559),
            f16_bits(0.22497559),
            f16_bits(3174.0),
        ]
    );
}

#[test]
fn test_cast_chunked() {
    let arr0 = primitive(PType::U32, vec![0, 1]);
    let arr1 = primitive(PType::U32, vec![2, 3]);

    let chunked = ChunkedArray::try_new(
        vec![arr0, arr1],
        DType::Primitive(PType::U32, Nullability::NonNullable),
    )
    .unwrap()
    .into_array();

    // Two levels of chunking, just to be fancy.
    let root = ChunkedArray::try_new(
        vec![chunked],
        DType::Primitive(PType::U32, Nullability::NonNullable),
    )
    .unwrap()
    .into_array();

    let cast = try_cast(
        &root,
        &DType::Primitive(PType::U64, Nullability::NonNullable),
    )
    .unwrap();
    let canonical = into_canonical(cast).unwrap().into_primitive().unwrap();
    assert_eq!(canonical.ptype, PType::U64);
    assert_eq!(canonical.values, vec![0, 1, 2, 3]);
}

fn three_chunks() -> ChunkedArray {
    ChunkedArray::try_new(
        vec![
            primitive(PType::I32, vec![10, 11, 12]),
            primitive(PType::I32, vec![]),
            primitive(PType::I32, vec![13, 14]),
            primitive(PType::I32, vec![15, 16, 17, 18]),
        ],
        DType::Primitive(PType::I32, Nullability::NonNullable),
    )
    .unwrap()
}

#[test]
fn chunk_addressing_passes_over_empty_chunks() {
    let chunked = three_chunks();
    assert_eq!(chunked.chunk_ends, vec![0, 3, 3, 5, 9]);
    assert_eq!(find_chunk_idx(0, &chunked.chunk_ends), (0, 0));
    assert_eq!(find_chunk_idx(2, &chunked.chunk_ends), (0, 2));
    assert_eq!(find_chunk_idx(3, &chunked.chunk_ends), (2, 0));
    assert_eq!(find_chunk_idx(4, &chunked.chunk_ends), (2, 1));
    assert_eq!(find_chunk_idx(8, &chunked.chunk_ends), (3, 3));
    // Past the end: addressed in the last chunk.
    assert_eq!(find_chunk_idx(9, &chunked.chunk_ends), (3, 4));
}

#[test]
fn both_filter_strategies_agree() {
    let chunked = three_chunks();
    let bits = vec![false, true, true, true, true, false, true, true, true];
    let mask = FilterMask::from_bools(bits);
    let by_slices = ChunkedArray::try_new(filter_slices(&chunked, &mask), chunked.dtype.clone())
        .unwrap()
        .into_array();
    let by_indices = ChunkedArray::try_new(filter_indices(&chunked, &mask), chunked.dtype.clone())
        .unwrap()
        .into_array();
    let expected = vec![11, 12, 13, 14, 16, 17, 18];
    assert_eq!(values_of(by_slices), expected);
    assert_eq!(values_of(by_indices), expected);
    assert_eq!(mask.true_count(), 7);
    assert_eq!(mask.iter_slices(), vec![(1, 5), (6, 9)]);
    assert_eq!(mask.iter_indices(), vec![1, 2, 3, 4, 6, 7, 8]);
}

#[test]
fn chunk_filters_keep_covered_chunks_whole() {
    let ends = vec![0u64, 3, 3, 5, 9];
    let filters = chunk_filters(&ends, &vec![(1, 7)]);
    assert_eq!(filters.len(), 4);
    assert!(matches!(&filters[0], ChunkFilter::Slices(s) if *s == vec![(1, 3)]));
    assert!(matches!(&filters[1], ChunkFilter::All));
    assert!(matches!(&filters[2], ChunkFilter::All));
    assert!(matches!(&filters[3], ChunkFilter::Slices(s) if *s == vec![(0, 2)]));
    let untouched = chunk_filters(&ends, &vec![(0, 1)]);
    assert!(matches!(&untouched[3], ChunkFilter::Skip));
}

#[test]
fn selectivity_threshold_is_four_fifths() {
    assert!(!uses_slices(8, 10));
    assert!(uses_slices(9, 10));
    assert!(!uses_slices(4, 5));
    assert!(uses_slices(5, 5));
    assert!(!uses_slices(0, 0));
}

#[test]
fn filter_refuses_a_mask_of_another_length() {
    let chunked = three_chunks().into_array();
    let mask = FilterMask::from_bools(vec![true, false]);
    assert_eq!(filter(&chunked, &mask).err(), Some(VortexError::InvalidArgument));
    let flat = primitive(PType::I32, vec![1, 2, 3]);
    assert_eq!(filter(&flat, &mask).err(), Some(VortexError::InvalidArgument));
}

#[test]
fn chunked_slice_take_and_scalar_at() {
    let chunked = three_chunks().into_array();
    assert_eq!(values_of(slice(&chunked, 2, 6).unwrap()), vec![12, 13, 14, 15]);
    assert_eq!(values_of(slice(&chunked, 4, 4).unwrap()), Vec::<i128>::new());
    assert_eq!(slice(&chunked, 4, 10).err(), Some(VortexError::InvalidArgument));
    assert_eq!(slice(&chunked, 5, 4).err(), Some(VortexError::InvalidArgument));
    assert_eq!(
        values_of(take(&chunked, &vec![8, 0, 3, 3, 4]).unwrap()),
        vec![18, 10, 13, 13, 14]
    );
    assert_eq!(take(&chunked, &vec![9]).err(), Some(VortexError::InvalidArgument));
    let s = scalar_at(&chunked, 5).unwrap();
    assert!(s.value.eq(&vortex::scalar::ScalarValue::primitive(15)));
    assert!(scalar_at(&chunked, 9).is_err());
}

#[test]
fn chunks_must_share_the_dtype() {
    let r = ChunkedArray::try_new(
        vec![primitive(PType::I32, vec![1]), primitive(PType::I64, vec![2])],
        DType::Primitive(PType::I32, Nullability::NonNullable),
    );
    assert_eq!(r.err(), Some(VortexError::MismatchedTypes));
}

#[test]
fn cast_refuses_what_does_not_fit() {
    let wide = primitive(PType::U32, vec![1, 300]);
    assert_eq!(
        try_cast(&wide, &DType::Primitive(PType::U8, Nullability::NonNullable)).err(),
        Some(VortexError::InvalidArgument)
    );
    assert_eq!(
        try_cast(&wide, &DType::Utf8(Nullability::NonNullable)).err(),
        Some(VortexError::Unsupported)
    );
    let nullable = PrimitiveArray::try_new(
        PType::U32,
        vec![1, 0],
        Validity::Array(vec![true, false]),
    )
    .unwrap()
    .into_array();
    assert_eq!(
        try_cast(&nullable, &DType::Primitive(PType::U32, Nullability::NonNullable)).err(),
        Some(VortexError::InvalidArgument)
    );
}
