use arrow_array::{Array, BooleanArray, Datum, Float64Array, Int64Array, UInt8Array};
use arrow_ord::cmp;
use vortex::array::{ArrayData, ConstantArray, PrimitiveArray};
use vortex::compute::compare::{compare, Operator};
use vortex::compute::scalar_at::scalar_at;
use vortex::dtype::{Nullability, PType};
use vortex::scalar::{InnerScalarValue, Scalar};
use vortex::validity::Validity;

fn operators() -> Vec<Operator> {
    vec![
        Operator::Eq,
        Operator::NotEq,
        Operator::Gt,
        Operator::Gte,
        Operator::Lt,
        Operator::Lte,
    ]
}

fn kernel(op: Operator, lhs: &dyn Datum, rhs: &dyn Datum) -> Vec<Option<bool>> {
    let result: BooleanArray = match op {
        Operator::Eq => cmp::eq(lhs, rhs),
        Operator::NotEq => cmp::neq(lhs, rhs),
        Operator::Gt => cmp::gt(lhs, rhs),
        Operator::Gte => cmp::gt_eq(lhs, rhs),
        Operator::Lt => cmp::lt(lhs, rhs),
        Operator::Lte => cmp::lt_eq(lhs, rhs),
    }
    .unwrap();
    result.iter().collect()
}

fn flags(array: &ArrayData) -> Vec<Option<bool>> {
    (0..array.len())
        .map(|i| match scalar_at(array, i).unwrap().value.0 {
            InnerScalarValue::Bool(b) => Some(b),
            InnerScalarValue::Null => None,
            _ => panic!("not a boolean"),
        })
        .collect()
}

fn column(ptype: PType, values: &[Option<i128>]) -> ArrayData {
    let raw = values.iter().map(|v| v.unwrap_or(0)).collect();
    let valid = values.iter().map(|v| v.is_some()).collect();
    PrimitiveArray::try_new(ptype, raw, Validity::Array(valid))
        .unwrap()
        .into_array()
}

#[test]
fn integers_compare_as_the_arrow_kernels_do() {
    let left = vec![Some(1), None, Some(3), Some(-5), Some(7), Some(i64::MIN as i128), None];
    let right = vec![Some(1), Some(2), None, Some(4), Some(-7), Some(i64::MAX as i128), None];
    let arrow_left = Int64Array::from(left.iter().map(|v| v.map(|x| x as i64)).collect::<Vec<_>>());
    let arrow_right = Int64Array::from(right.iter().map(|v| v.map(|x| x as i64)).collect::<Vec<_>>());
    for op in operators() {
        let ours = compare(&column(PType::I64, &left), &column(PType::I64, &right), op).unwrap();
        assert_eq!(flags(&ours), kernel(op, &arrow_left, &arrow_right));
    }
    let bytes = vec![Some(0), Some(255), Some(128), None];
    let others = vec![Some(255), Some(255), Some(127), Some(1)];
    let arrow_bytes = UInt8Array::from(bytes.iter().map(|v| v.map(|x| x as u8)).collect::<Vec<_>>());
    let arrow_others = UInt8Array::from(others.iter().map(|v| v.map(|x| x as u8)).collect::<Vec<_>>());
    for op in operators() {
        let ours = compare(&column(PType::U8, &bytes), &column(PType::U8, &others), op).unwrap();
        assert_eq!(flags(&ours), kernel(op, &arrow_bytes, &arrow_others));
    }
}

#[test]
fn floats_compare_in_total_order_as_the_arrow_kernels_do() {
    let left = vec![0.0, -0.0, 1.5, f64::NAN, f64::INFINITY, -f64::NAN, -2.5, f64::NEG_INFINITY, 3.0];
    let right = vec![-0.0, -0.0, 1.5, f64::INFINITY, f64::NAN, f64::NEG_INFINITY, -2.25, -1.0e300, f64::NAN];
    let bits = |values: &Vec<f64>| -> Vec<Option<i128>> {
        values.iter().map(|v| Some(v.to_bits() as i128)).collect()
    };
    let arrow_left = Float64Array::from(left.clone());
    let arrow_right = Float64Array::from(right.clone());
    for op in operators() {
        let ours = compare(
            &column(PType::F64, &bits(&left)),
            &column(PType::F64, &bits(&right)),
            op,
        )
        .unwrap();
        assert_eq!(flags(&ours), kernel(op, &arrow_left, &arrow_right));
    }
}

#[test]
fn a_constant_side_compares_as_the_arrow_kernels_do() {
    let left = vec![Some(5), None, Some(6), Some(4)];
    let arrow_left = Int64Array::from(left.iter().map(|v| v.map(|x| x as i64)).collect::<Vec<_>>());
    let five = Int64Array::new_scalar(5);
    let constant = ArrayData::Constant(ConstantArray::new(
        Scalar::primitive(5, PType::I64, Nullability::NonNullable),
        4,
    ));
    for op in operators() {
        let ours = compare(&column(PType::I64, &left), &constant, op).unwrap();
        assert_eq!(flags(&ours), kernel(op, &arrow_left, &five));
        let kernelled = PrimitiveArray::try_new(
            PType::I64,
            vec![5, 0, 6, 4],
            Validity::Array(vec![true, false, true, true]),
        )
        .unwrap()
        .maybe_compare(&constant, op)
        .unwrap()
        .unwrap();
        assert_eq!(flags(&kernelled), kernel(op, &arrow_left, &five));
    }
    assert_eq!(arrow_left.len(), 4);
}
