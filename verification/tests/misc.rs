use vortex::array::{ArrayData, ChunkedArray, EncodingId, PrimitiveArray, StructArray};
use vortex::canonical::into_canonical;
use vortex::compute::boolean::{and, null_count, or, true_count};
use vortex::dtype::{DType, Field, Nullability, PType, StructDType};
use vortex::encodings::chunked_variants::{field_of, project_of, storage_of};
use vortex::error::VortexError;
use vortex::expr::{expr_project, Select, VortexExpr};
use vortex::interop::{pushdown_filter, EngineExpr, EngineOperator};
use vortex::stats::{chunked_array_stats, infer_stats, ColumnStatistics, Precision};
use vortex::tpch::{tpch_queries, tpch_query, trim};
use vortex::tree::ArrayChildrenIterator;
use vortex::validity::Validity;

fn ints(values: Vec<i128>) -> ArrayData {
    PrimitiveArray::try_new(PType::I32, values, Validity::NonNullable)
        .unwrap()
        .into_array()
}

fn rows(a: Vec<i128>, b: Vec<i128>, validity: Validity) -> ArrayData {
    let len = a.len();
    StructArray::try_new(
        vec!["a".to_string(), "b".to_string()],
        vec![ints(a), ints(b)],
        len,
        validity,
    )
    .unwrap()
    .into_array()
}

fn struct_dtype(nullability: Nullability) -> DType {
    DType::Struct(
        StructDType {
            names: vec!["a".to_string(), "b".to_string()],
            dtypes: vec![
                DType::Primitive(PType::I32, Nullability::NonNullable),
                DType::Primitive(PType::I32, Nullability::NonNullable),
            ],
        },
        nullability,
    )
}

fn chunked_rows() -> ArrayData {
    ChunkedArray::try_new(
        vec![
            rows(vec![1, 2], vec![10, 20], Validity::Array(vec![true, false])),
            rows(vec![3], vec![30], Validity::AllValid),
        ],
        struct_dtype(Nullability::Nullable),
    )
    .unwrap()
    .into_array()
}

fn values_of(array: ArrayData) -> Vec<i128> {
    into_canonical(array).unwrap().into_primitive().unwrap().values
}

#[test]
fn statements_are_split_and_trimmed() {
    let text = b"  select 1 ;\n\n select 'a b'\t;;  \n".to_vec();
    let statements = tpch_query(&text);
    assert_eq!(statements, vec![b"select 1".to_vec(), b"select 'a b'".to_vec()]);
    assert_eq!(tpch_query(&b"".to_vec()), Vec::<Vec<u8>>::new());
    assert_eq!(tpch_query(&b" ; ".to_vec()), Vec::<Vec<u8>>::new());
    assert_eq!(tpch_query(&b"x".to_vec()), vec![b"x".to_vec()]);
    assert_eq!(trim(&b" a b ".to_vec(), 0, 5), b"a b".to_vec());
    assert_eq!(trim(&b" a b ".to_vec(), 2, 3), Vec::<u8>::new());
    let queries = tpch_queries(&vec![b"a;b".to_vec(), b"c".to_vec()]);
    assert_eq!(queries.len(), 2);
    assert_eq!(queries[0], (1, vec![b"a".to_vec(), b"b".to_vec()]));
    assert_eq!(queries[1], (2, vec![b"c".to_vec()]));
}

#[test]
fn iterator_walks_parents_first() {
    let array = chunked_rows();
    let mut iter = ArrayChildrenIterator::new(&array);
    let mut seen = Vec::new();
    while let Some(node) = iter.next() {
        seen.push(node.encoding());
    }
    assert_eq!(
        seen,
        vec![
            EncodingId::Chunked,
            EncodingId::Struct,
            EncodingId::Primitive,
            EncodingId::Primitive,
            EncodingId::Struct,
            EncodingId::Primitive,
            EncodingId::Primitive,
        ]
    );
    assert!(iter.next().is_none());
    assert_eq!(array.depth_first_traversal().len(), 7);
}

#[test]
fn chunked_struct_fields_and_projection() {
    let array = chunked_rows();
    let b = field_of(&array, 1).unwrap();
    assert!(matches!(&b, ArrayData::Chunked(c) if c.nchunks() == 2));
    assert_eq!(values_of(b), vec![10, 20, 30]);
    assert!(field_of(&array, 2).is_none());
    let projected = project_of(&array, &vec![Field::Name("b".to_string()), Field::Index(0)]).unwrap();
    assert_eq!(projected.len(), 3);
    assert_eq!(values_of(field_of(&projected, 0).unwrap()), vec![10, 20, 30]);
    assert_eq!(values_of(field_of(&projected, 1).unwrap()), vec![1, 2, 3]);
    assert_eq!(
        project_of(&array, &vec![Field::Name("c".to_string())]).err(),
        Some(VortexError::InvalidArgument)
    );
}

#[test]
fn chunked_struct_becomes_a_struct_of_chunked_fields() {
    let canonical = into_canonical(chunked_rows()).unwrap().into_struct().unwrap();
    assert_eq!(canonical.len, 3);
    assert_eq!(canonical.validity.to_bools(3), vec![true, false, true]);
    assert!(matches!(&canonical.fields[0], ArrayData::Chunked(_)));
    assert_eq!(values_of(canonical.field(0).unwrap()), vec![1, 2, 3]);
    assert!(canonical.dtype.eq(&struct_dtype(Nullability::Nullable)));
}

#[test]
fn chunked_extension_storage() {
    let ext = || vortex::dtype::ExtDType {
        id: "vortex.date".to_string(),
        storage: Box::new(DType::Primitive(PType::I32, Nullability::NonNullable)),
        metadata: vec![4],
    };
    let chunk = |values| {
        vortex::array::ExtensionArray::try_new(ext(), ints(values))
            .unwrap()
            .into_array()
    };
    let chunked = ChunkedArray::try_new(
        vec![chunk(vec![1, 2]), chunk(vec![3])],
        DType::Extension(ext()),
    )
    .unwrap()
    .into_array();
    assert_eq!(values_of(storage_of(&chunked)), vec![1, 2, 3]);
}

#[test]
fn selections_project_onto_their_fields() {
    let select = VortexExpr::Select(Select::Include(vec![
        Field::Name("a".to_string()),
        Field::Name("b".to_string()),
    ]));
    let onto_b = expr_project(&select, &vec![Field::Name("b".to_string())]).unwrap();
    match onto_b {
        VortexExpr::Select(Select::Include(fs)) => {
            assert_eq!(fs.len(), 1);
            assert!(fs[0].eq(&Field::Name("b".to_string())));
        }
        _ => panic!("not a selection"),
    }
    // Onto one field that it does not name, a selection is kept, empty.
    assert!(expr_project(&select, &vec![Field::Name("z".to_string())]).is_some());
    assert!(expr_project(
        &select,
        &vec![Field::Name("y".to_string()), Field::Name("z".to_string())]
    )
    .is_none());
}

#[test]
fn statistics_of_projected_fields() {
    let chunked = match chunked_rows() {
        ArrayData::Chunked(c) => c,
        _ => panic!("not chunked"),
    };
    let stats = chunked_array_stats(&chunked, &vec![1]).unwrap();
    assert_eq!(stats.num_rows, Precision::Exact(3));
    assert_eq!(stats.column_statistics.len(), 1);
    assert_eq!(stats.column_statistics[0].null_count, Precision::Exact(0));
    // The chunk ends of the field, and the values of its two chunks.
    assert_eq!(stats.column_statistics[0].byte_size, Precision::Exact(24 + 8 + 4));
    assert_eq!(stats.total_byte_size, Precision::Exact(36));
    assert_eq!(
        chunked_array_stats(&chunked, &vec![2]).err(),
        Some(VortexError::InvalidArgument)
    );
    let inferred = infer_stats(
        7,
        vec![
            ColumnStatistics { null_count: Precision::Absent, byte_size: Precision::Exact(10) },
            ColumnStatistics { null_count: Precision::Absent, byte_size: Precision::Absent },
            ColumnStatistics { null_count: Precision::Absent, byte_size: Precision::Inexact(5) },
        ],
    );
    assert_eq!(inferred.num_rows, Precision::Exact(7));
    assert_eq!(inferred.total_byte_size, Precision::Inexact(15));
    let huge = infer_stats(
        0,
        vec![
            ColumnStatistics { null_count: Precision::Absent, byte_size: Precision::Exact(usize::MAX) },
            ColumnStatistics { null_count: Precision::Absent, byte_size: Precision::Exact(1) },
        ],
    );
    assert_eq!(huge.total_byte_size, Precision::Absent);
}

#[test]
fn pushdown_keeps_what_converts() {
    let good = || EngineExpr::Binary(
        Box::new(EngineExpr::Column("a".to_string())),
        EngineOperator::Eq,
        Box::new(EngineExpr::Column("b".to_string())),
    );
    let filter = pushdown_filter(&vec![EngineExpr::Other, good(), good()]).unwrap();
    assert_eq!(filter.conjunction.len(), 2);
    assert!(pushdown_filter(&vec![EngineExpr::Other]).is_none());
    assert!(pushdown_filter(&vec![]).is_none());
}

#[test]
fn validation_tells_well_formed_arrays() {
    assert!(chunked_rows().validate());
    assert!(ints(vec![1, 2]).validate());
    let out_of_range = ArrayData::Primitive(PrimitiveArray {
        ptype: PType::U8,
        values: vec![256],
        validity: Validity::NonNullable,
    });
    assert!(!out_of_range.validate());
    let short_validity = ArrayData::Primitive(PrimitiveArray {
        ptype: PType::U8,
        values: vec![1, 2],
        validity: Validity::Array(vec![true]),
    });
    assert!(!short_validity.validate());
    let mut chunked = match chunked_rows() {
        ArrayData::Chunked(c) => c,
        _ => panic!("not chunked"),
    };
    chunked.chunk_ends[1] = 1;
    assert!(!chunked.validate());
    let mut rows = match rows(vec![1], vec![2], Validity::NonNullable) {
        ArrayData::Struct(s) => s,
        _ => panic!("not a struct"),
    };
    rows.len = 2;
    assert!(!rows.validate());
}

#[test]
fn boolean_kernels() {
    let bools = |values: Vec<Option<bool>>| {
        let flags = values.iter().map(|v| v.is_some()).collect();
        let raw = values.iter().map(|v| v.unwrap_or(false)).collect();
        vortex::array::BoolArray::try_new(raw, Validity::Array(flags))
            .unwrap()
            .into_array()
    };
    let a = bools(vec![Some(true), Some(true), None, Some(false)]);
    let b = bools(vec![Some(true), Some(false), Some(true), None]);
    assert_eq!(true_count(&a), 2);
    assert_eq!(null_count(&a), 1);
    let both = and(&a, &b).unwrap();
    assert_eq!(true_count(&both), 1);
    assert_eq!(null_count(&both), 2);
    let either = or(&a, &b).unwrap();
    assert_eq!(true_count(&either), 2);
    assert!(and(&a, &ints(vec![1, 2, 3, 4])).is_err());
    assert!(and(&a, &bools(vec![None])).is_err());
}
