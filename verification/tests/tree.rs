use vortex::array::{
    ArrayData, BoolArray, ChunkedArray, EncodingId, ListArray, PrimitiveArray, StructArray,
};
use vortex::compute::scalar_at::scalar_at;
use vortex::compute::slice::slice;
use vortex::compute::take::take;
use vortex::canonical::{into_canonical, Canonical};
use vortex::dtype::{DType, ExtDType, Nullability, PType};
use vortex::encodings::fsst::FSSTArray;
use vortex::error::VortexError;
use vortex::interop::{
    convert_expr_to_vortex, list_offsets_ptype, temporal_to_arrow, ArrowTemporal, Context,
    EngineExpr, EngineOperator, FileCompression, FilePushdownSupport, TemporalMetadata, TimeUnit,
    VortexFormat,
};
use vortex::ipc::{IPCArray, IPCBatch, IPCMessage, IPCPage, MessageHeader, ALIGNMENT};
use vortex::scalar::{Scalar, ScalarValue};
use vortex::validity::Validity;

fn ints(values: Vec<i128>) -> ArrayData {
    PrimitiveArray::try_new(PType::I32, values, Validity::NonNullable)
        .unwrap()
        .into_array()
}

fn nested() -> ArrayData {
    let flags = BoolArray::try_new(vec![true; 10], Validity::Array(vec![true; 10]))
        .unwrap()
        .into_array();
    let chunked = ChunkedArray::try_new(
        vec![ints(vec![1, 2, 3]), ints(vec![4, 5, 6, 7, 8, 9, 10])],
        DType::Primitive(PType::I32, Nullability::NonNullable),
    )
    .unwrap()
    .into_array();
    StructArray::try_new(
        vec!["flags".to_string(), "ints".to_string()],
        vec![flags, chunked],
        10,
        Validity::NonNullable,
    )
    .unwrap()
    .into_array()
}

#[test]
fn buffers_in_depth_first_order() {
    let array = nested();
    // flags: bits and validity; the chunk ends; then each chunk.
    assert_eq!(array.buffer_sizes(), vec![2, 2, 24, 12, 28]);
    assert_eq!(array.cumulative_nbuffers(), 5);
    assert_eq!(array.nbytes(), Some(68));
    assert_eq!(
        array.all_buffer_offsets(64).unwrap(),
        vec![0, 64, 128, 192, 256, 320]
    );
    assert_eq!(
        array.all_buffer_offsets(8).unwrap(),
        vec![0, 8, 16, 40, 56, 88]
    );
    assert_eq!(array.all_buffer_offsets(1).unwrap(), vec![0, 2, 4, 28, 40, 68]);
}

#[test]
fn traversal_meets_parents_first() {
    let array = nested();
    let encodings: Vec<EncodingId> = array
        .depth_first_traversal()
        .iter()
        .map(|a| a.encoding())
        .collect();
    assert_eq!(
        encodings,
        vec![
            EncodingId::Struct,
            EncodingId::Bool,
            EncodingId::Chunked,
            EncodingId::Primitive,
            EncodingId::Primitive,
        ]
    );
    assert_eq!(array.nchildren(), 2);
    assert_eq!(array.children().len(), 2);
    let int_dtype = DType::Primitive(PType::I32, Nullability::NonNullable);
    assert!(array.child(1, &int_dtype, 10).is_ok());
    assert_eq!(array.child(1, &int_dtype, 9).err(), Some(VortexError::InvalidArgument));
    assert_eq!(array.child(2, &int_dtype, 10).err(), Some(VortexError::InvalidArgument));
    assert_eq!(EncodingId::Chunked.code(), 10);
    assert!(array.is_encoding(EncodingId::Struct));
    assert!(array.is_canonical());
    assert!(!array.is_empty());
}

#[test]
fn batch_header_pads_to_the_alignment() {
    let array = nested();
    let header = IPCBatch(&array).header().unwrap();
    assert_eq!(header.length, 10);
    assert_eq!(header.buffer_size, 320);
    let offsets: Vec<u64> = header.buffers.iter().map(|b| b.offset).collect();
    let paddings: Vec<u16> = header.buffers.iter().map(|b| b.padding).collect();
    assert_eq!(offsets, vec![0, 64, 128, 192, 256]);
    assert_eq!(paddings, vec![62, 62, 40, 52, 36]);
    assert_eq!(ALIGNMENT, 64);
    assert_eq!(IPCMessage::Batch(IPCBatch(&array)).header_type(), MessageHeader::Batch);
}

#[test]
fn page_header_pads_to_the_alignment() {
    let page = vec![0u8; 100];
    let header = IPCPage(&page).header().unwrap();
    assert_eq!(header.buffer_size, 100);
    assert_eq!(header.padding, 28);
    let aligned = vec![0u8; 128];
    assert_eq!(IPCPage(&aligned).header().unwrap().padding, 0);
    let empty: Vec<u8> = vec![];
    assert_eq!(IPCPage(&empty).header().unwrap().padding, 0);
}

#[test]
fn children_take_their_buffers_after_the_parents() {
    let array = nested();
    let indices = IPCArray(&array, 3).child_buffer_indices(1, &vec![2, 0, 3]).unwrap();
    assert_eq!(indices, vec![4, 6, 6]);
    assert!(IPCArray(&array, usize::MAX)
        .child_buffer_indices(1, &vec![])
        .is_none());
}

#[test]
fn canonical_unwraps_only_as_what_it_is() {
    let canonical = into_canonical(ints(vec![1])).unwrap();
    assert!(matches!(canonical, Canonical::Primitive(_)));
    assert_eq!(canonical.into_bool().err(), Some(VortexError::InvalidArgument));
    let canonical = into_canonical(ints(vec![1])).unwrap();
    assert!(canonical.into_primitive().is_ok());
    assert!(into_canonical(ints(vec![1])).unwrap().into_null().is_err());
    assert!(into_canonical(ints(vec![1])).unwrap().into_struct().is_err());
    assert!(into_canonical(ints(vec![1])).unwrap().into_varbinview().is_err());
    assert!(into_canonical(ints(vec![1])).unwrap().into_extension().is_err());
    assert!(into_canonical(nested()).unwrap().into_struct().is_ok());
}

#[test]
fn test_canonicalize_nested_struct() {
    let sparse = vortex::array::SparseArray::try_new(
        vec![0],
        PrimitiveArray::try_new(PType::I64, vec![100], Validity::NonNullable)
            .unwrap()
            .into_array(),
        1,
        Scalar::primitive(0, PType::I64, Nullability::NonNullable),
    )
    .unwrap()
    .into_array();
    let inner = StructArray::try_new(vec!["inner_a".to_string()], vec![sparse], 1, Validity::NonNullable)
        .unwrap()
        .into_array();
    let a = PrimitiveArray::try_new(PType::U64, vec![1], Validity::NonNullable)
        .unwrap()
        .into_array();
    let outer = StructArray::try_new(
        vec!["a".to_string(), "b".to_string()],
        vec![a, inner],
        1,
        Validity::NonNullable,
    )
    .unwrap()
    .into_array();
    let canonical = into_canonical(outer).unwrap().into_struct().unwrap();
    // A canonical struct may hold fields that are not canonical; each is brought to its
    // own canonical form when asked.
    let first = into_canonical(canonical.field(0).unwrap()).unwrap().into_primitive().unwrap();
    assert_eq!(first.ptype, PType::U64);
    let inner = into_canonical(canonical.field(1).unwrap()).unwrap().into_struct().unwrap();
    let inner_a = into_canonical(inner.field(0).unwrap()).unwrap().into_primitive().unwrap();
    assert_eq!(inner_a.ptype, PType::I64);
    assert_eq!(inner_a.values, vec![100]);
}

#[test]
fn extension_array_keeps_values_and_validity() {
    let storage = PrimitiveArray::try_new(
        PType::I64,
        vec![1_700_000_000_000_000, 0, 1_700_000_000_000_001],
        Validity::Array(vec![true, false, true]),
    )
    .unwrap()
    .into_array();
    let ext = ExtDType {
        id: "vortex.timestamp".to_string(),
        storage: Box::new(DType::Primitive(PType::I64, Nullability::Nullable)),
        metadata: vec![1],
    };
    let array = vortex::array::ExtensionArray::try_new(ext, storage).unwrap().into_array();
    let canonical = into_canonical(array).unwrap().into_extension().unwrap();
    let values = into_canonical(canonical.storage().clone())
        .unwrap()
        .into_primitive()
        .unwrap();
    assert_eq!(values.values[0], 1_700_000_000_000_000);
    assert_eq!(values.values[2], 1_700_000_000_000_001);
    assert_eq!(values.validity.to_bools(3), vec![true, false, true]);
    assert_eq!(
        temporal_to_arrow(TemporalMetadata::Timestamp(TimeUnit::Us)).unwrap(),
        (ArrowTemporal::TimestampMicrosecond, PType::I64)
    );
    let wrong = ExtDType {
        id: "vortex.timestamp".to_string(),
        storage: Box::new(DType::Primitive(PType::I32, Nullability::Nullable)),
        metadata: vec![],
    };
    assert!(vortex::array::ExtensionArray::try_new(wrong, ints(vec![1])).is_err());
}

#[test]
fn empty_canonical_arrays() {
    let dtype = DType::Struct(
        vortex::dtype::StructDType {
            names: vec!["a".to_string()],
            dtypes: vec![DType::Utf8(Nullability::Nullable)],
        },
        Nullability::NonNullable,
    );
    let empty = Canonical::empty(&dtype).unwrap().into_array();
    assert_eq!(empty.len(), 0);
    assert!(empty.dtype().eq(&dtype));
    let list = DType::List(Box::new(DType::Null), Nullability::Nullable);
    let empty = Canonical::empty(&list).unwrap().into_list().unwrap();
    assert_eq!(empty.offsets, vec![0]);
    let unnamed = DType::Struct(
        vortex::dtype::StructDType { names: vec![], dtypes: vec![DType::Null] },
        Nullability::NonNullable,
    );
    assert_eq!(Canonical::empty(&unnamed).err(), Some(VortexError::Unsupported));
}

#[test]
fn lists_slice_take_and_read() {
    let list = ListArray::try_new(
        ints(vec![1, 2, 3, 4, 5, 6]),
        PType::U8,
        vec![0, 2, 2, 5, 6],
        Validity::Array(vec![true, true, false, true]),
    )
    .unwrap()
    .into_array();
    assert_eq!(list.len(), 4);
    let of = |values: Vec<i128>| ScalarValue::list(values.into_iter().map(ScalarValue::primitive).collect());
    assert!(scalar_at(&list, 0).unwrap().value.eq(&of(vec![1, 2])));
    assert!(scalar_at(&list, 1).unwrap().value.eq(&of(vec![])));
    assert!(scalar_at(&list, 2).unwrap().is_null());
    assert!(scalar_at(&list, 3).unwrap().value.eq(&of(vec![6])));
    let sliced = slice(&list, 1, 4).unwrap();
    assert_eq!(sliced.len(), 3);
    assert!(scalar_at(&sliced, 2).unwrap().value.eq(&of(vec![6])));
    let taken = take(&list, &vec![3, 0, 0]).unwrap();
    match &taken {
        ArrayData::List(l) => {
            assert_eq!(*l.offsets(), vec![0, 1, 3, 5]);
            assert_eq!(l.offsets_ptype(), PType::U8);
        }
        _ => panic!("not a list"),
    }
    assert!(scalar_at(&taken, 0).unwrap().value.eq(&of(vec![6])));
    assert!(scalar_at(&taken, 2).unwrap().value.eq(&of(vec![1, 2])));
    assert!(ListArray::try_new(ints(vec![1]), PType::U32, vec![0, 2], Validity::NonNullable).is_err());
    assert!(ListArray::try_new(ints(vec![1]), PType::U32, vec![1, 0], Validity::NonNullable).is_err());
    assert!(ListArray::try_new(ints(vec![1]), PType::U32, vec![], Validity::NonNullable).is_err());
    // Offsets are integers, and the ptype holds the last of them.
    assert!(ListArray::try_new(ints(vec![1]), PType::F32, vec![0, 1], Validity::NonNullable).is_err());
    assert!(ListArray::try_new(ints((0..300).collect()), PType::U8, vec![0, 300], Validity::NonNullable).is_err());
    assert!(ListArray::try_new(ints((0..300).collect()), PType::U16, vec![0, 300], Validity::NonNullable).is_ok());
    assert!(into_canonical(list).unwrap().into_list().is_ok());
}

#[test]
fn temporal_units() {
    assert_eq!(
        temporal_to_arrow(TemporalMetadata::Date(TimeUnit::D)).unwrap(),
        (ArrowTemporal::Date32, PType::I32)
    );
    assert_eq!(
        temporal_to_arrow(TemporalMetadata::Date(TimeUnit::Ms)).unwrap(),
        (ArrowTemporal::Date64, PType::I64)
    );
    assert_eq!(
        temporal_to_arrow(TemporalMetadata::Date(TimeUnit::S)).err(),
        Some(VortexError::InvalidArgument)
    );
    assert_eq!(
        temporal_to_arrow(TemporalMetadata::Time(TimeUnit::Ms)).unwrap(),
        (ArrowTemporal::Time32Millisecond, PType::I32)
    );
    assert_eq!(
        temporal_to_arrow(TemporalMetadata::Time(TimeUnit::D)).err(),
        Some(VortexError::InvalidArgument)
    );
    assert_eq!(
        temporal_to_arrow(TemporalMetadata::Timestamp(TimeUnit::D)).err(),
        Some(VortexError::InvalidArgument)
    );
    assert_eq!(list_offsets_ptype(PType::U64), PType::I64);
    assert_eq!(list_offsets_ptype(PType::U16), PType::I32);
    assert_eq!(list_offsets_ptype(PType::I64), PType::I64);
}

#[test]
fn engine_expressions_convert() {
    let expr = EngineExpr::Binary(
        Box::new(EngineExpr::Column("a".to_string())),
        EngineOperator::LtEq,
        Box::new(EngineExpr::Literal(Scalar::bool(true, Nullability::NonNullable))),
    );
    let converted = convert_expr_to_vortex(&expr).unwrap();
    assert!(matches!(
        &converted,
        vortex::expr::VortexExpr::BinaryExpr(_, vortex::expr::Operator::Lte, _)
    ));
    let plus = EngineExpr::Binary(
        Box::new(EngineExpr::Column("a".to_string())),
        EngineOperator::Plus,
        Box::new(EngineExpr::Column("b".to_string())),
    );
    assert_eq!(convert_expr_to_vortex(&plus).err(), Some(VortexError::Unsupported));
    assert_eq!(
        convert_expr_to_vortex(&EngineExpr::Other).err(),
        Some(VortexError::InvalidArgument)
    );
    assert_eq!(
        vortex::expr::Operator::try_from(EngineOperator::And).unwrap(),
        vortex::expr::Operator::And
    );
    assert!(vortex::expr::Operator::try_from(EngineOperator::Modulo).is_err());
}

#[test]
fn format_and_pushdown() {
    let context = Context::new(vec![EncodingId::Primitive, EncodingId::Chunked]);
    assert_eq!(context.lookup_encoding(10), Some(EncodingId::Chunked));
    assert_eq!(context.lookup_encoding(2), None);
    let format = VortexFormat::new(&context);
    assert_eq!(format.get_ext(), "vortex");
    assert_eq!(
        format.get_ext_with_compression(FileCompression::Uncompressed).unwrap(),
        "vortex"
    );
    assert_eq!(
        format.get_ext_with_compression(FileCompression::Gzip).err(),
        Some(VortexError::Unsupported)
    );
    assert_eq!(
        format.supports_filters_pushdown(&vec![true, true]),
        FilePushdownSupport::Supported
    );
    assert_eq!(
        format.supports_filters_pushdown(&vec![true, false]),
        FilePushdownSupport::NotSupportedForFilter
    );
    assert_eq!(format.supports_filters_pushdown(&vec![]), FilePushdownSupport::Supported);
}

#[test]
fn fsst_checks_its_children() {
    let symbols = || {
        PrimitiveArray::try_new(PType::U64, vec![1, 2], Validity::NonNullable)
            .unwrap()
            .into_array()
    };
    let lengths = || {
        PrimitiveArray::try_new(PType::U8, vec![1, 1], Validity::NonNullable)
            .unwrap()
            .into_array()
    };
    let codes = || {
        vortex::array::VarBinArray::from_iter(
            vec![Some(vec![0u8]), None],
            DType::Binary(Nullability::Nullable),
        )
        .into_array()
    };
    let uncompressed = || ints(vec![1, 0]);
    let dtype = || DType::Utf8(Nullability::Nullable);
    let array = FSSTArray::try_new(dtype(), symbols(), lengths(), codes(), uncompressed()).unwrap();
    assert_eq!(array.len(), 2);
    assert!(array.is_valid(0));
    assert!(!array.is_valid(1));
    assert_eq!(array.validity().to_bools(2), vec![true, false]);
    assert_eq!(array.children().len(), 4);
    assert_eq!(array.metadata().symbols_len, 2);
    assert!(array.codes_dtype().eq(&DType::Binary(Nullability::Nullable)));
    assert!(array
        .uncompressed_lengths_dtype()
        .eq(&DType::Primitive(PType::I32, Nullability::NonNullable)));
    // Symbols of the wrong type, a symbol too many, codes in another encoding.
    assert!(FSSTArray::try_new(dtype(), lengths(), lengths(), codes(), uncompressed()).is_err());
    let many = PrimitiveArray::try_new(PType::U64, vec![0; 256], Validity::NonNullable)
        .unwrap()
        .into_array();
    let many_lengths = PrimitiveArray::try_new(PType::U8, vec![0; 256], Validity::NonNullable)
        .unwrap()
        .into_array();
    assert_eq!(
        FSSTArray::try_new(dtype(), many, many_lengths, codes(), uncompressed()).err(),
        Some(VortexError::InvalidArgument)
    );
    assert!(FSSTArray::try_new(dtype(), symbols(), lengths(), ints(vec![1, 2]), uncompressed())
        .is_err());
    assert!(FSSTArray::try_new(dtype(), symbols(), lengths(), codes(), ints(vec![1])).is_err());
}
