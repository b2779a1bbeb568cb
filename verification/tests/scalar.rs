use vortex::dtype::{DType, Nullability, PType};
use vortex::error::VortexError;
use vortex::scalar::{BoolScalar, Scalar, ScalarValue};

#[test]
fn into_from() {
    let scalar: Scalar = false.into();
    assert!(!scalar.try_into_bool().unwrap());
}

#[test]
fn bool_scalar_views_casts_and_inverts() {
    let scalar = Scalar::bool(true, Nullability::Nullable);
    let view = BoolScalar::try_from(&scalar).unwrap();
    assert_eq!(view.value(), Some(true));
    assert!(view.dtype().eq(&DType::Bool(Nullability::Nullable)));
    let cast = view.cast(&DType::Bool(Nullability::NonNullable)).unwrap();
    assert!(cast.dtype.eq(&DType::Bool(Nullability::NonNullable)));
    assert!(cast.value.eq(&ScalarValue::bool(true)));
    assert_eq!(
        view.cast(&DType::Utf8(Nullability::NonNullable)).err(),
        Some(VortexError::InvalidArgument)
    );
    let inverted = view.invert();
    assert_eq!(inverted.value(), Some(false));
    assert!(inverted.into_scalar().value.eq(&ScalarValue::bool(false)));
}

#[test]
fn null_bool_scalar() {
    let scalar = Scalar::null(DType::Bool(Nullability::Nullable));
    let view = BoolScalar::try_from(&scalar).unwrap();
    assert_eq!(view.value(), None);
    assert_eq!(
        view.cast(&DType::Bool(Nullability::Nullable)).err(),
        Some(VortexError::InvalidArgument)
    );
    assert!(view.invert().into_scalar().is_null());
    assert_eq!(scalar.try_into_bool().err(), Some(VortexError::InvalidArgument));
}

#[test]
fn only_bool_scalars_are_bool_scalars() {
    let scalar = Scalar::primitive(1, PType::U8, Nullability::NonNullable);
    assert_eq!(BoolScalar::try_from(&scalar).err(), Some(VortexError::InvalidArgument));
    assert_eq!(scalar.try_into_bool().err(), Some(VortexError::InvalidArgument));
}

#[test]
fn scalar_values_compare_deeply() {
    let a = ScalarValue::list(vec![ScalarValue::primitive(1), ScalarValue::buffer(vec![1, 2])]);
    let b = ScalarValue::list(vec![ScalarValue::primitive(1), ScalarValue::buffer(vec![1, 2])]);
    let c = ScalarValue::list(vec![ScalarValue::primitive(1), ScalarValue::null()]);
    assert!(a.eq(&b));
    assert!(!a.eq(&c));
    assert!(a.clone().eq(&a));
}
