use vortex::array::PrimitiveArray;
use vortex::compute::search_sorted::{search_sorted, SearchResult, SearchSortedSide};
use vortex::dtype::{Nullability, PType};
use vortex::encodings::bitpacked::{BitPackedArray, BitPackedSearch};
use vortex::error::VortexError;
use vortex::scalar::Scalar;
use vortex::validity::Validity;

fn primitive_u32(values: Vec<i128>) -> PrimitiveArray {
    PrimitiveArray::try_new(PType::U32, values, Validity::NonNullable).unwrap()
}

fn nullable_u64(values: Vec<Option<u64>>) -> PrimitiveArray {
    let flags: Vec<bool> = values.iter().map(|v| v.is_some()).collect();
    let raw: Vec<i128> = values.iter().map(|v| v.unwrap_or(0) as i128).collect();
    PrimitiveArray::try_new(PType::U64, raw, Validity::Array(flags)).unwrap()
}

#[test]
fn search_with_patches() {
    let bitpacked = BitPackedArray::encode(&primitive_u32(vec![1, 2, 3, 4, 5]), 2).unwrap();
    assert_eq!(
        bitpacked.search_sorted_usize(4, SearchSortedSide::Left).unwrap(),
        SearchResult::Found(3)
    );
    assert_eq!(
        bitpacked.search_sorted_usize(5, SearchSortedSide::Left).unwrap(),
        SearchResult::Found(4)
    );
    assert_eq!(
        bitpacked.search_sorted_usize(6, SearchSortedSide::Left).unwrap(),
        SearchResult::NotFound(5)
    );
    assert_eq!(
        bitpacked.search_sorted_usize(0, SearchSortedSide::Left).unwrap(),
        SearchResult::NotFound(0)
    );
}

#[test]
fn search_sliced() {
    let bitpacked = BitPackedArray::encode(&primitive_u32(vec![1, 2, 3, 4, 5]), 2)
        .unwrap()
        .slice(2, 4)
        .unwrap();
    assert_eq!(
        bitpacked.search_sorted_usize(3, SearchSortedSide::Left).unwrap(),
        SearchResult::Found(0)
    );
    assert_eq!(
        bitpacked.search_sorted_usize(4, SearchSortedSide::Left).unwrap(),
        SearchResult::Found(1)
    );
}

#[test]
fn test_search_sorted_nulls() {
    let bitpacked =
        BitPackedArray::encode(&nullable_u64(vec![Some(1u64), None, None]), 2).unwrap();

    let found = bitpacked
        .search_sorted(
            &Scalar::primitive(1, PType::U64, Nullability::Nullable),
            SearchSortedSide::Left,
        )
        .unwrap();
    assert_eq!(found, SearchResult::Found(0));
}

#[test]
fn test_search_sorted_many() {
    let bitpacked = BitPackedArray::encode(
        &nullable_u64(vec![
            Some(1u64),
            Some(2u64),
            Some(3u64),
            None,
            None,
            None,
            None,
        ]),
        3,
    )
    .unwrap();

    let values = vec![
        Scalar::primitive(3, PType::U64, Nullability::NonNullable),
        Scalar::primitive(2, PType::U64, Nullability::NonNullable),
        Scalar::primitive(1, PType::U64, Nullability::NonNullable),
    ];
    let results = bitpacked
        .search_sorted_many(&values, SearchSortedSide::Left)
        .unwrap();

    assert_eq!(
        results,
        vec![
            SearchResult::Found(2),
            SearchResult::Found(1),
            SearchResult::Found(0),
        ]
    );
}

#[test]
fn encode_keeps_what_fits_and_patches_the_rest() {
    let bitpacked = BitPackedArray::encode(&primitive_u32(vec![1, 2, 3, 4, 5]), 2).unwrap();
    assert_eq!(bitpacked.packed, vec![1, 2, 3, 0, 0]);
    assert_eq!(bitpacked.max_packed_value(), 3);
    let patches = bitpacked.patches().unwrap();
    assert_eq!(patches.indices, vec![3, 4]);
    assert_eq!(patches.min_index(), Some(3));
    let search = BitPackedSearch::new(&bitpacked);
    assert_eq!(
        search_sorted(&search, 3, SearchSortedSide::Left),
        SearchResult::Found(2)
    );
    // The searcher alone does not see the patches.
    assert_eq!(
        search_sorted(&search, 4, SearchSortedSide::Left),
        SearchResult::NotFound(3)
    );
}

#[test]
fn only_sorted_arrays_may_be_searched() {
    let sorted = BitPackedArray::encode(&nullable_u64(vec![Some(1), Some(9), None]), 2).unwrap();
    assert!(sorted.validate());
    assert!(sorted.is_sorted());
    assert_eq!(sorted.key(1), Some(9));
    assert_eq!(sorted.key(2), None);
    let null_first = BitPackedArray::encode(&nullable_u64(vec![None, Some(1)]), 2).unwrap();
    assert!(null_first.validate());
    assert!(!null_first.is_sorted());
    let unsorted = BitPackedArray::encode(&primitive_u32(vec![2, 1]), 2).unwrap();
    assert!(!unsorted.is_sorted());
    let mut broken = BitPackedArray::encode(&primitive_u32(vec![1, 2]), 2).unwrap();
    broken.packed[0] = 7;
    assert!(!broken.validate());
}

#[test]
fn encode_refuses_signed_and_wide() {
    let signed = PrimitiveArray::try_new(PType::I32, vec![1, 2], Validity::NonNullable).unwrap();
    assert_eq!(
        BitPackedArray::encode(&signed, 2).err(),
        Some(VortexError::InvalidArgument)
    );
    assert_eq!(
        BitPackedArray::encode(&primitive_u32(vec![1]), 65).err(),
        Some(VortexError::InvalidArgument)
    );
}

#[test]
fn search_sides_on_repeats() {
    let values: Vec<u64> = vec![1, 2, 2, 2, 5];
    assert_eq!(
        search_sorted(&values, 2, SearchSortedSide::Left),
        SearchResult::Found(1)
    );
    assert_eq!(
        search_sorted(&values, 2, SearchSortedSide::Right),
        SearchResult::Found(4)
    );
    assert_eq!(
        search_sorted(&values, 3, SearchSortedSide::Left),
        SearchResult::NotFound(4)
    );
    assert_eq!(
        search_sorted(&values, 3, SearchSortedSide::Right),
        SearchResult::NotFound(4)
    );
    assert_eq!(
        search_sorted(&values, 9, SearchSortedSide::Right),
        SearchResult::NotFound(5)
    );
    assert_eq!(SearchResult::NotFound(5).to_ends_index(5), 4);
    assert_eq!(SearchResult::Found(2).to_found(), Some(2));
}

#[test]
fn search_usize_past_the_ptype() {
    let small = PrimitiveArray::try_new(PType::U8, vec![1, 2, 3], Validity::NonNullable).unwrap();
    let bitpacked = BitPackedArray::encode(&small, 2).unwrap();
    assert_eq!(
        bitpacked.search_sorted_usize(300, SearchSortedSide::Left).unwrap(),
        SearchResult::NotFound(3)
    );
    // 258 cut down to eight bits is 2.
    assert_eq!(
        bitpacked
            .search_sorted_usize_many(&vec![258, 1], SearchSortedSide::Left)
            .unwrap(),
        vec![SearchResult::Found(1), SearchResult::Found(0)]
    );
    assert_eq!(
        bitpacked
            .search_sorted(
                &Scalar::null(bitpacked.dtype()),
                SearchSortedSide::Left
            )
            .err(),
        Some(VortexError::InvalidArgument)
    );
}
