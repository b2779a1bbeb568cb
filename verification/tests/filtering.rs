use vortex::array::{ArrayData, BoolArray, PrimitiveArray, StructArray};
use vortex::canonical::into_canonical;
use vortex::compute::filter::filter;
use vortex::compute::mask::FilterMask;
use vortex::dtype::{DType, Field, Nullability, PType};
use vortex::error::VortexError;
use vortex::expr::{expr_project, split_conjunction, Operator, RowFilter, Select, VortexExpr};
use vortex::layouts::filtering::null_as_false;
use vortex::scalar::Scalar;
use vortex::validity::Validity;

fn column(name: &str) -> VortexExpr {
    VortexExpr::Column(Field::Name(name.to_string()))
}

fn literal(value: i128) -> VortexExpr {
    VortexExpr::Literal(Scalar::primitive(value, PType::I32, Nullability::NonNullable))
}

fn binary(lhs: VortexExpr, op: Operator, rhs: VortexExpr) -> VortexExpr {
    VortexExpr::BinaryExpr(Box::new(lhs), op, Box::new(rhs))
}

fn ints(values: Vec<i128>) -> ArrayData {
    PrimitiveArray::try_new(PType::I32, values, Validity::NonNullable)
        .unwrap()
        .into_array()
}

fn bools_of(array: ArrayData) -> Vec<bool> {
    into_canonical(array).unwrap().into_bool().unwrap().values
}

#[test]
fn coerces_nulls() {
    let bool_array = BoolArray::try_new(
        vec![true, true, false, false],
        Validity::Array(vec![true, false, true, false]),
    )
    .unwrap();
    let non_null_array = into_canonical(null_as_false(bool_array).unwrap())
        .unwrap()
        .into_bool()
        .unwrap();
    assert_eq!(
        non_null_array.boolean_buffer().clone(),
        vec![true, false, false, false]
    );
    assert!(matches!(non_null_array.validity, Validity::NonNullable));
}

#[test]
fn null_as_false_of_each_validity() {
    let values = vec![true, false, true];
    let r = null_as_false(BoolArray::try_new(values.clone(), Validity::NonNullable).unwrap());
    assert_eq!(bools_of(r.unwrap()), vec![true, false, true]);
    let r = null_as_false(BoolArray::try_new(values.clone(), Validity::AllValid).unwrap());
    assert_eq!(bools_of(r.unwrap()), vec![true, false, true]);
    let r = null_as_false(BoolArray::try_new(values, Validity::AllInvalid).unwrap());
    assert_eq!(bools_of(r.unwrap()), vec![false, false, false]);
}

fn batch() -> ArrayData {
    let strs = vortex::array::VarBinArray::from_vec(
        std::iter::repeat("test text".as_bytes().to_vec()).take(100).collect(),
        DType::Utf8(Nullability::NonNullable),
    );
    StructArray::try_new(
        vec!["ints".to_string(), "strs".to_string()],
        vec![ints((0..100).collect()), strs.into_array()],
        100,
        Validity::NonNullable,
    )
    .unwrap()
    .into_array()
}

#[test]
fn a_row_filter_keeps_the_rows_it_holds_of() {
    let batch = batch();
    let row_filter = RowFilter::new(binary(column("ints"), Operator::Gt, literal(10)));
    let mask = row_filter.evaluate(&batch).unwrap();
    let bits = bools_of(mask);
    assert_eq!(bits.iter().filter(|b| **b).count(), 89);
    let filtered = filter(&batch, &FilterMask::from_bools(bits)).unwrap();
    let fields = match filtered {
        ArrayData::Struct(s) => s.fields,
        _ => panic!("not a struct"),
    };
    let mut fields = fields.into_iter();
    let prim = into_canonical(fields.next().unwrap())
        .unwrap()
        .into_primitive()
        .unwrap();
    assert_eq!(prim.values, (11..100).collect::<Vec<i128>>());
    let strs = into_canonical(fields.next().unwrap())
        .unwrap()
        .into_varbinview()
        .unwrap();
    assert_eq!(
        strs.values,
        std::iter::repeat("test text".as_bytes().to_vec())
            .take(89)
            .collect::<Vec<_>>()
    );
}

#[test]
fn row_filter_is_the_conjunction() {
    let batch = batch();
    let expr = binary(
        binary(column("ints"), Operator::Gte, literal(10)),
        Operator::And,
        binary(column("ints"), Operator::Lt, literal(13)),
    );
    let row_filter = RowFilter::new(expr);
    assert_eq!(row_filter.conjunction.len(), 2);
    let bits = bools_of(row_filter.evaluate(&batch).unwrap());
    let selected: Vec<usize> = (0..100).filter(|i| bits[*i]).collect();
    assert_eq!(selected, vec![10, 11, 12]);
}

#[test]
fn row_filter_stops_once_no_row_is_left() {
    let batch = batch();
    // The second predicate names a column that does not exist, and is never evaluated.
    let row_filter = RowFilter::from_conjunction(vec![
        binary(column("ints"), Operator::Gt, literal(1000)),
        binary(column("missing"), Operator::Eq, literal(1)),
    ]);
    let mask = row_filter.evaluate(&batch).unwrap();
    assert!(matches!(mask, ArrayData::Constant(_)));
    assert_eq!(bools_of(mask), vec![false; 100]);
    // The other way round the missing column is met first.
    let row_filter = RowFilter::from_conjunction(vec![
        binary(column("missing"), Operator::Eq, literal(1)),
        binary(column("ints"), Operator::Gt, literal(1000)),
    ]);
    assert_eq!(row_filter.evaluate(&batch).err(), Some(VortexError::InvalidArgument));
}

#[test]
fn evaluation_errors() {
    let batch = batch();
    let empty = RowFilter::from_conjunction(vec![]);
    assert_eq!(empty.evaluate(&batch).err(), Some(VortexError::InvalidArgument));
    let like = VortexExpr::Like(Box::new(column("strs")), Box::new(column("strs")), false, false);
    assert_eq!(like.evaluate(&batch).err(), Some(VortexError::Unsupported));
    let select = VortexExpr::Select(Select::Include(vec![Field::Index(0)]));
    assert_eq!(select.evaluate(&batch).err(), Some(VortexError::Unsupported));
    let mixed = binary(column("ints"), Operator::Eq, column("strs"));
    assert_eq!(mixed.evaluate(&batch).err(), Some(VortexError::InvalidArgument));
    assert_eq!(
        column("ints").evaluate(&ints(vec![1])).err(),
        Some(VortexError::InvalidArgument)
    );
    let by_index = VortexExpr::Column(Field::Index(5));
    assert_eq!(by_index.evaluate(&batch).err(), Some(VortexError::InvalidArgument));
}

#[test]
fn split_conjunction_flattens_top_level_ands_only() {
    let a = binary(column("a"), Operator::Eq, literal(1));
    let b = binary(column("b"), Operator::Eq, literal(2));
    let c = binary(column("c"), Operator::Eq, literal(3));
    let or = binary(b.clone(), Operator::Or, c.clone());
    let expr = binary(binary(a.clone(), Operator::And, or.clone()), Operator::And, c.clone());
    let parts = split_conjunction(&expr);
    assert_eq!(parts.len(), 3);
    assert!(parts[0].eq(&a));
    assert!(parts[1].eq(&or));
    assert!(parts[2].eq(&c));
}

#[test]
fn projection_keeps_what_the_fields_can_answer() {
    let a = binary(column("a"), Operator::Eq, literal(1));
    let b = binary(column("b"), Operator::Eq, literal(2));
    let both = binary(column("a"), Operator::Lt, column("b"));
    let fields_a = vec![Field::Name("a".to_string())];
    assert!(expr_project(&a, &fields_a).unwrap().eq(&a));
    assert!(expr_project(&b, &fields_a).is_none());
    assert!(expr_project(&both, &fields_a).is_none());
    assert!(expr_project(&literal(1), &fields_a).is_some());
    let filter = RowFilter::from_conjunction(vec![a.clone(), b.clone(), both.clone()]);
    let only = filter.only_fields(&fields_a).unwrap();
    assert_eq!(only.conjunction.len(), 1);
    assert!(only.conjunction[0].eq(&a));
    assert!(filter.only_fields(&vec![Field::Name("z".to_string())]).is_none());
    let fields_ab = vec![Field::Name("b".to_string()), Field::Name("a".to_string())];
    assert_eq!(filter.only_fields(&fields_ab).unwrap().conjunction.len(), 3);
}

#[test]
fn row_filters_are_equal_whatever_the_order() {
    let a = binary(column("a"), Operator::Eq, literal(1));
    let b = binary(column("b"), Operator::Eq, literal(2));
    let ab = RowFilter::from_conjunction(vec![a.clone(), b.clone()]);
    let ba = RowFilter::from_conjunction(vec![b.clone(), a.clone()]);
    let aab = RowFilter::from_conjunction(vec![a.clone(), a.clone(), b.clone()]);
    let only_a = RowFilter::from_conjunction(vec![a.clone()]);
    assert!(ab.eq(&ba));
    assert!(ab.eq(&aab));
    assert!(!ab.eq(&only_a));
    assert!(!only_a.eq(&ab));
}

#[test]
fn references_come_once_in_order_of_mention() {
    let expr = binary(
        binary(column("b"), Operator::Lt, column("a")),
        Operator::And,
        binary(column("b"), Operator::Eq, literal(1)),
    );
    let refs = expr.references();
    assert_eq!(refs.len(), 2);
    assert!(refs[0].eq(&Field::Name("b".to_string())));
    assert!(refs[1].eq(&Field::Name("a".to_string())));
}
