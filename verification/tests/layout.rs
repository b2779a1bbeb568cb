use vortex::dtype::{DType, Field, Nullability, PType, StructDType};
use vortex::error::VortexError;
use vortex::expr::{Operator, RowFilter, Select, VortexExpr};
use vortex::layouts::column::{
    ColumnLayout, ColumnLayoutSpec, LayoutId, PlannedChild, Scan, COLUMN_LAYOUT_ID,
};
use vortex::scalar::Scalar;

fn column(name: &str) -> VortexExpr {
    VortexExpr::Column(Field::Name(name.to_string()))
}

fn literal(value: i128) -> VortexExpr {
    VortexExpr::Literal(Scalar::primitive(value, PType::I32, Nullability::NonNullable))
}

fn binary(lhs: VortexExpr, op: Operator, rhs: VortexExpr) -> VortexExpr {
    VortexExpr::BinaryExpr(Box::new(lhs), op, Box::new(rhs))
}

fn file_dtype() -> StructDType {
    StructDType {
        names: vec!["ints".to_string(), "strs".to_string(), "more".to_string()],
        dtypes: vec![
            DType::Primitive(PType::I32, Nullability::NonNullable),
            DType::Utf8(Nullability::NonNullable),
            DType::Primitive(PType::I32, Nullability::NonNullable),
        ],
    }
}

fn layout(expr: Option<VortexExpr>) -> ColumnLayout {
    ColumnLayoutSpec.layout(file_dtype(), 3, Scan::new(expr)).unwrap()
}

fn child_index(child: &PlannedChild) -> usize {
    match child {
        PlannedChild::Layout(l) => l.child,
        PlannedChild::Batch(_) => panic!("not a layout"),
    }
}

#[test]
fn spec_makes_column_layouts() {
    assert_eq!(ColumnLayoutSpec.id(), LayoutId(COLUMN_LAYOUT_ID));
    assert!(layout(None).reader.is_none());
}

#[test]
fn no_scan_reads_every_child() {
    let reader = layout(None).column_reader().unwrap();
    assert_eq!(reader.names, vec!["ints", "strs", "more"]);
    assert_eq!(reader.children.iter().map(child_index).collect::<Vec<_>>(), vec![0, 1, 2]);
    assert!(reader.expr.is_none());
    assert!(!reader.shortcircuit_siblings);
    let splits = layout(None).children_for_splits().unwrap();
    assert_eq!(splits.len(), 3);
    assert!(splits.iter().all(|c| c.scan.expr.is_none() && c.dtype.is_none()));
}

#[test]
fn row_filter_is_pushed_into_its_column() {
    let filter = RowFilter::new(binary(column("ints"), Operator::Gt, literal(10)));
    let reader = layout(Some(VortexExpr::RowFilter(filter))).column_reader().unwrap();
    assert_eq!(reader.names, vec!["ints"]);
    assert_eq!(child_index(&reader.children[0]), 0);
    match &reader.children[0] {
        PlannedChild::Layout(l) => {
            assert!(matches!(&l.scan.expr, Some(VortexExpr::RowFilter(f)) if f.conjunction.len() == 1));
            assert!(l.dtype.as_ref().unwrap().eq(&DType::Primitive(PType::I32, Nullability::NonNullable)));
        }
        _ => panic!("not a layout"),
    }
    assert!(reader.shortcircuit_siblings);
    match &reader.expr {
        Some(VortexExpr::RowFilter(f)) => {
            assert_eq!(f.conjunction.len(), 1);
            assert!(f.conjunction[0].eq(&column("ints")));
        }
        _ => panic!("not a row filter"),
    }
}

#[test]
fn predicate_across_columns_is_read_together() {
    let filter = RowFilter::from_conjunction(vec![
        binary(column("ints"), Operator::Gt, literal(10)),
        binary(column("more"), Operator::Lt, column("strs")),
    ]);
    let reader = layout(Some(VortexExpr::RowFilter(filter))).column_reader().unwrap();
    // `ints` has a predicate of its own; `more` and `strs` only share one.
    assert_eq!(reader.names, vec!["ints", "__unhandled"]);
    assert_eq!(child_index(&reader.children[0]), 0);
    match &reader.children[1] {
        PlannedChild::Batch(b) => {
            assert_eq!(b.names, vec!["more", "strs"]);
            assert_eq!(b.children.iter().map(child_index).collect::<Vec<_>>(), vec![2, 1]);
            assert!(!b.shortcircuit_siblings);
            match &b.expr {
                Some(VortexExpr::RowFilter(f)) => assert_eq!(f.conjunction.len(), 1),
                _ => panic!("not a row filter"),
            }
        }
        _ => panic!("not a batch"),
    }
}

#[test]
fn inclusion_keeps_its_order() {
    let select = VortexExpr::Select(Select::Include(vec![
        Field::Name("more".to_string()),
        Field::Index(0),
    ]));
    let mut layout = layout(Some(select));
    let fields = layout.scan_fields().unwrap().unwrap();
    assert_eq!(fields.len(), 2);
    layout.prepare().unwrap();
    let reader = layout.reader.as_ref().unwrap();
    assert_eq!(reader.names, vec!["more", "ints"]);
    assert_eq!(reader.children.iter().map(child_index).collect::<Vec<_>>(), vec![2, 0]);
    assert!(reader.expr.is_none());
    // A second call keeps the reader.
    layout.prepare().unwrap();
    assert_eq!(layout.reader.as_ref().unwrap().names, vec!["more", "ints"]);
}

#[test]
fn planning_errors() {
    let exclude = VortexExpr::Select(Select::Exclude(vec![Field::Index(0)]));
    assert_eq!(layout(Some(exclude)).column_reader().err(), Some(VortexError::Unsupported));
    let missing = binary(column("nope"), Operator::Eq, literal(1));
    assert_eq!(layout(Some(missing)).column_reader().err(), Some(VortexError::InvalidArgument));
    // A file with fewer child layouts than fields.
    let short = ColumnLayout::new(file_dtype(), 2, Scan::empty());
    assert_eq!(short.column_reader().err(), Some(VortexError::Corruption));
    let short = ColumnLayout::new(file_dtype(), 2, Scan::new(Some(column("more"))));
    assert_eq!(short.column_reader().err(), Some(VortexError::Corruption));
    let ok = ColumnLayout::new(file_dtype(), 2, Scan::new(Some(column("strs"))));
    assert!(ok.column_reader().is_ok());
}
