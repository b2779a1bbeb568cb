use vortex::array::EncodingId;
use vortex::dtype::{
    bytes_eq, find_name, resolve, DType, ExtDType, Field, Nullability, PType, StructDType,
};
use vortex::error::VortexError;
use vortex::validity::Validity;

fn nested() -> DType {
    DType::Struct(
        StructDType {
            names: vec!["a".to_string(), "b".to_string(), "a".to_string()],
            dtypes: vec![
                DType::Primitive(PType::I32, Nullability::NonNullable),
                DType::List(Box::new(DType::Utf8(Nullability::Nullable)), Nullability::NonNullable),
                DType::Extension(ExtDType {
                    id: "vortex.date".to_string(),
                    storage: Box::new(DType::Primitive(PType::I32, Nullability::Nullable)),
                    metadata: vec![4],
                }),
            ],
        },
        Nullability::Nullable,
    )
}

#[test]
fn dtype_equality_is_structural() {
    assert!(nested().eq(&nested()));
    assert!(nested().clone().eq(&nested()));
    let other = match nested() {
        DType::Struct(mut s, n) => {
            s.names[1] = "c".to_string();
            DType::Struct(s, n)
        }
        d => d,
    };
    assert!(!nested().eq(&other));
    assert!(!DType::Utf8(Nullability::Nullable).eq(&DType::Utf8(Nullability::NonNullable)));
    assert!(!DType::Utf8(Nullability::Nullable).eq(&DType::Binary(Nullability::Nullable)));
    assert!(DType::Null.eq(&DType::Null));
}

#[test]
fn nullability_is_carried_on_every_variant() {
    assert!(DType::Null.is_nullable());
    assert!(nested().is_nullable());
    assert!(!DType::bytes().is_nullable());
    let ext = DType::Extension(ExtDType {
        id: "x".to_string(),
        storage: Box::new(DType::Bool(Nullability::Nullable)),
        metadata: vec![],
    });
    assert_eq!(ext.nullability(), Nullability::Nullable);
    assert!(DType::Primitive(PType::U16, Nullability::Nullable).is_int());
    assert!(!DType::Primitive(PType::F32, Nullability::Nullable).is_int());
    assert!(nested().as_struct().is_some());
    assert!(DType::Null.as_struct().is_none());
}

#[test]
fn ptype_ranges_and_widths() {
    assert_eq!(PType::I8.min_value(), -128);
    assert_eq!(PType::I8.max_value(), 127);
    assert_eq!(PType::U64.max_value(), u64::MAX as i128);
    assert_eq!(PType::I64.min_value(), i64::MIN as i128);
    assert_eq!(PType::F16.max_value(), 0xffff);
    assert!(PType::U8.in_range(255));
    assert!(!PType::U8.in_range(256));
    assert!(!PType::U8.in_range(-1));
    assert_eq!(PType::F16.byte_width(), 2);
    assert_eq!(PType::I64.byte_width(), 8);
    assert!(PType::F64.is_float() && !PType::F64.is_int());
    assert!(PType::U32.is_unsigned_int() && !PType::U32.is_signed_int());
}

#[test]
fn fields_resolve_to_the_first_of_a_name() {
    let names = vec!["a".to_string(), "b".to_string(), "a".to_string()];
    assert_eq!(find_name(&names, &"a".to_string()), Some(0));
    assert_eq!(find_name(&names, &"b".to_string()), Some(1));
    assert_eq!(find_name(&names, &"c".to_string()), None);
    assert_eq!(resolve(&names, &Field::Index(2)), Some(2));
    assert_eq!(resolve(&names, &Field::Index(3)), None);
    assert!(Field::Name("a".to_string()).eq(&Field::Name("a".to_string()).clone()));
    assert!(!Field::Name("a".to_string()).eq(&Field::Index(0)));
}

#[test]
fn struct_dtype_projection() {
    let s = match nested() {
        DType::Struct(s, _) => s,
        _ => panic!("not a struct"),
    };
    let p = s
        .project(&vec![Field::Index(2), Field::Name("a".to_string())])
        .unwrap();
    assert_eq!(p.names, vec!["a", "a"]);
    assert!(p.dtypes[0].eq(&s.dtypes[2]));
    assert!(p.dtypes[1].eq(&s.dtypes[0]));
    assert_eq!(
        s.project(&vec![Field::Name("z".to_string())]).err(),
        Some(VortexError::InvalidArgument)
    );
}

#[test]
fn validity_slices_takes_and_compacts() {
    let v = Validity::Array(vec![true, false, true, true]);
    assert_eq!(v.slice(1, 3).to_bools(2), vec![false, true]);
    assert_eq!(v.take(&vec![3, 1, 1]).to_bools(3), vec![true, false, false]);
    assert!(v.is_valid(0) && !v.is_valid(1));
    assert_eq!(v.nullability(), Nullability::Nullable);
    assert_eq!(Validity::NonNullable.nullability(), Nullability::NonNullable);
    assert!(matches!(Validity::from_iter(vec![true, true]), Validity::AllValid));
    assert!(matches!(Validity::from_iter(vec![false, false]), Validity::AllInvalid));
    assert!(matches!(Validity::from_iter(vec![true, false]), Validity::Array(_)));
    assert!(matches!(Validity::from_iter(vec![]), Validity::AllValid));
    assert!(matches!(Validity::all_valid(Nullability::Nullable), Validity::AllValid));
    assert_eq!(Validity::AllInvalid.to_bools(2), vec![false, false]);
    assert!(matches!(v.clone(), Validity::Array(_)));
}

#[test]
fn names_of_kinds() {
    assert_eq!(VortexError::Corruption.to_string(), "corruption");
    assert_eq!(VortexError::IOError.to_string(), "io error");
    assert_eq!(EncodingId::VarBin.name(), "vortex.varbin");
    assert_eq!(EncodingId::Sparse.code(), 8);
    assert!(bytes_eq(&vec![1, 2], &vec![1, 2]));
    assert!(!bytes_eq(&vec![1, 2], &vec![1]));
}
