use vortex::array::{ArrayData, PrimitiveArray, VarBinArray};
use vortex::canonical::into_canonical;
use vortex::compute::scalar_at::scalar_at;
use vortex::compute::slice::slice;
use vortex::compute::take::take;
use vortex::dtype::{DType, Nullability, PType};
use vortex::encodings::varbin::varbin_scalar;
use vortex::error::VortexError;
use vortex::metadata::{ArrayMetadata, GetArrayMetadata, ValidityMetadata};
use vortex::scalar::ScalarValue;
use vortex::validity::Validity;

fn primitive(ptype: PType, values: Vec<i128>) -> ArrayData {
    PrimitiveArray::try_new(ptype, values, Validity::NonNullable)
        .unwrap()
        .into_array()
}

const TEXT: &str = "hello worldhello world this is a long string";

fn binary_array() -> ArrayData {
    let values = primitive(PType::U8, TEXT.bytes().map(|b| b as i128).collect());
    let offsets = primitive(PType::I32, vec![0, 11, 44]);

    VarBinArray::try_new(
        offsets,
        values,
        DType::Utf8(Nullability::NonNullable),
        Validity::NonNullable,
    )
    .unwrap()
    .into_array()
}

fn text(value: &str) -> ScalarValue {
    ScalarValue::buffer(value.as_bytes().to_vec())
}

#[test]
fn test_scalar_at() {
    let binary_array = binary_array();
    assert_eq!(binary_array.len(), 2);
    assert!(scalar_at(&binary_array, 0).unwrap().value.eq(&text("hello world")));
    assert!(scalar_at(&binary_array, 1)
        .unwrap()
        .value
        .eq(&text("hello world this is a long string")));
    assert!(scalar_at(&binary_array, 1)
        .unwrap()
        .dtype
        .eq(&DType::Utf8(Nullability::NonNullable)));
}

#[test]
fn slice_array() {
    let binary_arr = slice(&binary_array(), 1, 2).unwrap();
    assert!(scalar_at(&binary_arr, 0)
        .unwrap()
        .value
        .eq(&text("hello world this is a long string")));
    match &binary_arr {
        ArrayData::VarBin(v) => {
            // The offsets are sliced, the bytes kept whole.
            assert_eq!(v.offsets, vec![11, 44]);
            assert_eq!(v.bytes.len(), 44);
            assert_eq!(v.first_offset(), 11);
            assert_eq!(v.offset_at(1), 44);
            let used = into_canonical(v.sliced_bytes().unwrap())
                .unwrap()
                .into_primitive()
                .unwrap();
            assert_eq!(used.values.len(), 33);
            assert_eq!(
                v.bytes_at(0).unwrap(),
                "hello world this is a long string".as_bytes().to_vec()
            );
            assert_eq!(v.bytes_at(1).err(), Some(VortexError::InvalidArgument));
        }
        _ => panic!("not varbin"),
    }
}

#[test]
fn take_copies_the_bytes() {
    let taken = take(&binary_array(), &vec![1, 0, 1]).unwrap();
    match &taken {
        ArrayData::VarBin(v) => {
            assert_eq!(v.offsets, vec![0, 33, 44, 77]);
            assert_eq!(v.bytes.len(), 77);
        }
        _ => panic!("not varbin"),
    }
    assert!(scalar_at(&taken, 1).unwrap().value.eq(&text("hello world")));
    assert_eq!(
        take(&binary_array(), &vec![2]).err(),
        Some(VortexError::InvalidArgument)
    );
}

#[test]
fn take_with_nulls() {
    let array = VarBinArray::from_iter(
        vec![Some(b"ab".to_vec()), None, Some(b"cde".to_vec())],
        DType::Binary(Nullability::Nullable),
    );
    let taken = array.take(&vec![2, 1, 0, 1]).unwrap();
    assert!(scalar_at(&taken, 0).unwrap().value.eq(&ScalarValue::buffer(b"cde".to_vec())));
    assert!(scalar_at(&taken, 1).unwrap().is_null());
    assert!(scalar_at(&taken, 2).unwrap().value.eq(&ScalarValue::buffer(b"ab".to_vec())));
    assert!(scalar_at(&taken, 3).unwrap().is_null());
    let strings = into_canonical(taken).unwrap().into_varbinview().unwrap();
    assert_eq!(strings.values[0], b"cde".to_vec());
}

#[test]
fn constructor_checks_types_first() {
    let bytes = || primitive(PType::U8, vec![1, 2, 3]);
    let offsets = || primitive(PType::I32, vec![0, 1, 3]);
    let utf8 = || DType::Utf8(Nullability::NonNullable);
    let nullable_offsets = PrimitiveArray::try_new(PType::I32, vec![0, 1], Validity::AllValid)
        .unwrap()
        .into_array();
    assert_eq!(
        VarBinArray::try_new(nullable_offsets, bytes(), utf8(), Validity::NonNullable).err(),
        Some(VortexError::MismatchedTypes)
    );
    assert_eq!(
        VarBinArray::try_new(offsets(), offsets(), utf8(), Validity::NonNullable).err(),
        Some(VortexError::MismatchedTypes)
    );
    assert_eq!(
        VarBinArray::try_new(
            offsets(),
            bytes(),
            DType::Bool(Nullability::NonNullable),
            Validity::NonNullable
        )
        .err(),
        Some(VortexError::MismatchedTypes)
    );
    // Validity against nullability.
    assert_eq!(
        VarBinArray::try_new(offsets(), bytes(), utf8(), Validity::AllValid).err(),
        Some(VortexError::InvalidArgument)
    );
    assert_eq!(
        VarBinArray::try_new(
            offsets(),
            bytes(),
            DType::Utf8(Nullability::Nullable),
            Validity::NonNullable
        )
        .err(),
        Some(VortexError::InvalidArgument)
    );
    // Offsets that decrease, or run past the bytes.
    assert_eq!(
        VarBinArray::try_new(
            primitive(PType::I32, vec![0, 2, 1]),
            bytes(),
            utf8(),
            Validity::NonNullable
        )
        .err(),
        Some(VortexError::InvalidArgument)
    );
    assert_eq!(
        VarBinArray::try_new(
            primitive(PType::I32, vec![0, 4]),
            bytes(),
            utf8(),
            Validity::NonNullable
        )
        .err(),
        Some(VortexError::InvalidArgument)
    );
    assert_eq!(
        VarBinArray::try_new(
            primitive(PType::I32, vec![]),
            bytes(),
            utf8(),
            Validity::NonNullable
        )
        .err(),
        Some(VortexError::InvalidArgument)
    );
    assert!(VarBinArray::try_new(offsets(), bytes(), utf8(), Validity::NonNullable).is_ok());
}

#[test]
fn builders_and_parts() {
    let array = VarBinArray::from_vec(
        vec![b"one".to_vec(), b"".to_vec(), b"three".to_vec()],
        DType::Binary(Nullability::NonNullable),
    );
    assert_eq!(array.offsets, vec![0, 3, 3, 8]);
    assert_eq!(array.offsets_ptype, PType::U32);
    assert!(matches!(array.validity(), Validity::NonNullable));
    let metadata = array.metadata();
    assert_eq!(metadata.validity, ValidityMetadata::NonNullable);
    assert_eq!(metadata.bytes_len, 8);
    assert_eq!(metadata.encoding(), vortex::array::EncodingId::VarBin);
    let (dtype, bytes, offsets, validity) = array.into_parts();
    assert!(dtype.eq(&DType::Binary(Nullability::NonNullable)));
    assert_eq!(bytes.len(), 8);
    assert_eq!(offsets.len(), 4);
    assert!(matches!(validity, Validity::NonNullable));
    let nonnull = VarBinArray::from_iter_nonnull(
        vec![b"x".to_vec()],
        DType::Utf8(Nullability::NonNullable),
    );
    assert_eq!(nonnull.offsets, vec![0, 1]);
}

#[test]
fn varbin_scalar_is_bytes_under_the_dtype() {
    let dtype = DType::Utf8(Nullability::Nullable);
    let s = varbin_scalar(b"abc".to_vec(), &dtype);
    assert!(s.dtype.eq(&dtype));
    assert!(s.value.eq(&ScalarValue::buffer(b"abc".to_vec())));
}
