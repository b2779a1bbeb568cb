//! What the adapters to other systems need decided: which Arrow type a temporal array
//! becomes, which operators and expressions of a query engine have a counterpart here, and
//! whether a filter can be pushed down.

use vstd::prelude::*;

use crate::array::EncodingId;
use crate::dtype::{Field, FieldView, PType};
use crate::error::VortexError;
use crate::expr::{ExprView, Operator, RowFilter, VortexExpr};
use crate::scalar::{Scalar, ScalarView};

verus! {

/// The units of time.
#[derive(Clone, Copy, Debug, PartialEq, Eq, Structural, Hash)]
pub enum TimeUnit {
    Ns,
    Us,
    Ms,
    S,
    D,
}

/// What a temporal extension type measures, and in which unit.
#[derive(Clone, Copy, Debug, PartialEq, Eq, Structural, Hash)]
pub enum TemporalMetadata {
    Time(TimeUnit),
    Date(TimeUnit),
    Timestamp(TimeUnit),
}

/// The unit that a byte of metadata stands for.
pub open spec fn unit_spec(tag: u8) -> Option<TimeUnit> {
    if tag == 0 {
        Some(TimeUnit::Ns)
    } else if tag == 1 {
        Some(TimeUnit::Us)
    } else if tag == 2 {
        Some(TimeUnit::Ms)
    } else if tag == 3 {
        Some(TimeUnit::S)
    } else if tag == 4 {
        Some(TimeUnit::D)
    } else {
        None
    }
}

/// What an extension type measures, if it is temporal: its identifier says whether it is
/// a time, a date or a timestamp, and the first byte of its metadata holds the unit.
pub open spec fn temporal_metadata_spec(id: Seq<char>, metadata: Seq<u8>) -> Option<
    TemporalMetadata,
> {
    if metadata.len() == 0 || unit_spec(metadata[0]) is None {
        None
    } else if id == "vortex.time"@ {
        Some(TemporalMetadata::Time(unit_spec(metadata[0])->Some_0))
    } else if id == "vortex.date"@ {
        Some(TemporalMetadata::Date(unit_spec(metadata[0])->Some_0))
    } else if id == "vortex.timestamp"@ {
        Some(TemporalMetadata::Timestamp(unit_spec(metadata[0])->Some_0))
    } else {
        None
    }
}

/// What an extension type measures, from its identifier and its metadata; `None` for an
/// extension that is not temporal, and for metadata without a unit.
pub fn temporal_metadata(id: &String, metadata: &Vec<u8>) -> (r: Option<TemporalMetadata>)
    ensures
        r == temporal_metadata_spec(id@, metadata@),
{
    if metadata.len() == 0 {
        return None;
    }
    let tag = metadata[0];
    let unit = if tag == 0 {
        TimeUnit::Ns
    } else if tag == 1 {
        TimeUnit::Us
    } else if tag == 2 {
        TimeUnit::Ms
    } else if tag == 3 {
        TimeUnit::S
    } else if tag == 4 {
        TimeUnit::D
    } else {
        return None;
    };
    let time = "vortex.time".to_owned();
    let date = "vortex.date".to_owned();
    let timestamp = "vortex.timestamp".to_owned();
    if *id == time {
        Some(TemporalMetadata::Time(unit))
    } else if *id == date {
        Some(TemporalMetadata::Date(unit))
    } else if *id == timestamp {
        Some(TemporalMetadata::Timestamp(unit))
    } else {
        None
    }
}

/// The Arrow arrays that hold temporal values.
#[derive(Clone, Copy, Debug, PartialEq, Eq, Structural, Hash)]
pub enum ArrowTemporal {
    Date32,
    Date64,
    Time32Second,
    Time32Millisecond,
    Time64Microsecond,
    Time64Nanosecond,
    TimestampSecond,
    TimestampMillisecond,
    TimestampMicrosecond,
    TimestampNanosecond,
}

/// The Arrow array that holds temporal values of the given kind, and the ptype to which
/// the stored values are cast for it.
pub open spec fn temporal_arrow_spec(m: TemporalMetadata) -> Option<(ArrowTemporal, PType)> {
    match m {
        TemporalMetadata::Date(TimeUnit::D) => Some((ArrowTemporal::Date32, PType::I32)),
        TemporalMetadata::Date(TimeUnit::Ms) => Some((ArrowTemporal::Date64, PType::I64)),
        TemporalMetadata::Date(_) => None,
        TemporalMetadata::Time(TimeUnit::S) => Some((ArrowTemporal::Time32Second, PType::I32)),
        TemporalMetadata::Time(TimeUnit::Ms) => Some((ArrowTemporal::Time32Millisecond, PType::I32)),
        TemporalMetadata::Time(TimeUnit::Us) => Some((ArrowTemporal::Time64Microsecond, PType::I64)),
        TemporalMetadata::Time(TimeUnit::Ns) => Some((ArrowTemporal::Time64Nanosecond, PType::I64)),
        TemporalMetadata::Time(TimeUnit::D) => None,
        TemporalMetadata::Timestamp(TimeUnit::Ns) => Some(
            (ArrowTemporal::TimestampNanosecond, PType::I64),
        ),
        TemporalMetadata::Timestamp(TimeUnit::Us) => Some(
            (ArrowTemporal::TimestampMicrosecond, PType::I64),
        ),
        TemporalMetadata::Timestamp(TimeUnit::Ms) => Some(
            (ArrowTemporal::TimestampMillisecond, PType::I64),
        ),
        TemporalMetadata::Timestamp(TimeUnit::S) => Some((ArrowTemporal::TimestampSecond, PType::I64)),
        TemporalMetadata::Timestamp(TimeUnit::D) => None,
    }
}

/// The Arrow array for temporal values of the given kind, with the ptype of its values. A
/// unit that the kind does not have is refused with `InvalidArgument`: dates are in days
/// or milliseconds, times and timestamps in anything but days.
pub fn temporal_to_arrow(m: TemporalMetadata) -> (r: Result<(ArrowTemporal, PType), VortexError>)
    ensures
        r is Ok <==> temporal_arrow_spec(m) is Some,
        r is Ok ==> r->Ok_0 == temporal_arrow_spec(m)->Some_0,
        r is Err ==> r->Err_0 == VortexError::InvalidArgument,
{
    match m {
        TemporalMetadata::Date(time_unit) => match time_unit {
            TimeUnit::D => Ok((ArrowTemporal::Date32, PType::I32)),
            TimeUnit::Ms => Ok((ArrowTemporal::Date64, PType::I64)),
            _ => Err(VortexError::InvalidArgument),
        },
        TemporalMetadata::Time(time_unit) => match time_unit {
            TimeUnit::S => Ok((ArrowTemporal::Time32Second, PType::I32)),
            TimeUnit::Ms => Ok((ArrowTemporal::Time32Millisecond, PType::I32)),
            TimeUnit::Us => Ok((ArrowTemporal::Time64Microsecond, PType::I64)),
            TimeUnit::Ns => Ok((ArrowTemporal::Time64Nanosecond, PType::I64)),
            _ => Err(VortexError::InvalidArgument),
        },
        TemporalMetadata::Timestamp(time_unit) => match time_unit {
            TimeUnit::Ns => Ok((ArrowTemporal::TimestampNanosecond, PType::I64)),
            TimeUnit::Us => Ok((ArrowTemporal::TimestampMicrosecond, PType::I64)),
            TimeUnit::Ms => Ok((ArrowTemporal::TimestampMillisecond, PType::I64)),
            TimeUnit::S => Ok((ArrowTemporal::TimestampSecond, PType::I64)),
            _ => Err(VortexError::InvalidArgument),
        },
    }
}

/// The ptype to which list offsets are cast for Arrow: 64-bit offsets stay or become
/// signed 64-bit, all others signed 32-bit.
pub fn list_offsets_ptype(ptype: PType) -> (r: PType)
    ensures
        r == (match ptype {
            PType::I64 | PType::U64 => PType::I64,
            _ => PType::I32,
        }),
{
    match ptype {
        PType::I32 | PType::I64 => ptype,
        PType::U64 => PType::I64,
        PType::U32 => PType::I32,
        _ => PType::I32,
    }
}

/// The binary operators of a query engine.
#[derive(Clone, Copy, Debug, PartialEq, Eq, Structural, Hash)]
pub enum EngineOperator {
    Eq,
    NotEq,
    Lt,
    LtEq,
    Gt,
    GtEq,
    And,
    Or,
    IsDistinctFrom,
    IsNotDistinctFrom,
    RegexMatch,
    RegexIMatch,
    RegexNotMatch,
    RegexNotIMatch,
    LikeMatch,
    ILikeMatch,
    NotLikeMatch,
    NotILikeMatch,
    BitwiseAnd,
    BitwiseOr,
    BitwiseXor,
    BitwiseShiftRight,
    BitwiseShiftLeft,
    StringConcat,
    AtArrow,
    ArrowAt,
    Plus,
    Minus,
    Multiply,
    Divide,
    Modulo,
}

/// The operator here that an engine's operator stands for, if there is one.
pub open spec fn operator_spec(op: EngineOperator) -> Option<Operator> {
    match op {
        EngineOperator::Eq => Some(Operator::Eq),
        EngineOperator::NotEq => Some(Operator::NotEq),
        EngineOperator::Lt => Some(Operator::Lt),
        EngineOperator::LtEq => Some(Operator::Lte),
        EngineOperator::Gt => Some(Operator::Gt),
        EngineOperator::GtEq => Some(Operator::Gte),
        EngineOperator::And => Some(Operator::And),
        EngineOperator::Or => Some(Operator::Or),
        _ => None,
    }
}

impl Operator {
    /// The operator that an engine's operator stands for. Comparisons and the two
    /// connectives have one; anything else is refused with `Unsupported`.
    pub fn try_from(value: EngineOperator) -> (r: Result<Operator, VortexError>)
        ensures
            r is Ok <==> operator_spec(value) is Some,
            r is Ok ==> r->Ok_0 == operator_spec(value)->Some_0,
            r is Err ==> r->Err_0 == VortexError::Unsupported,
    {
        match value {
            EngineOperator::Eq => Ok(Operator::Eq),
            EngineOperator::NotEq => Ok(Operator::NotEq),
            EngineOperator::Lt => Ok(Operator::Lt),
            EngineOperator::LtEq => Ok(Operator::Lte),
            EngineOperator::Gt => Ok(Operator::Gt),
            EngineOperator::GtEq => Ok(Operator::Gte),
            EngineOperator::And => Ok(Operator::And),
            EngineOperator::Or => Ok(Operator::Or),
            EngineOperator::IsDistinctFrom
            | EngineOperator::IsNotDistinctFrom
            | EngineOperator::RegexMatch
            | EngineOperator::RegexIMatch
            | EngineOperator::RegexNotMatch
            | EngineOperator::RegexNotIMatch
            | EngineOperator::LikeMatch
            | EngineOperator::ILikeMatch
            | EngineOperator::NotLikeMatch
            | EngineOperator::NotILikeMatch
            | EngineOperator::BitwiseAnd
            | EngineOperator::BitwiseOr
            | EngineOperator::BitwiseXor
            | EngineOperator::BitwiseShiftRight
            | EngineOperator::BitwiseShiftLeft
            | EngineOperator::StringConcat
            | EngineOperator::AtArrow
            | EngineOperator::ArrowAt
            | EngineOperator::Plus
            | EngineOperator::Minus
            | EngineOperator::Multiply
            | EngineOperator::Divide
            | EngineOperator::Modulo => Err(VortexError::Unsupported),
        }
    }
}

/// A physical expression of a query engine, as far as it can be told apart.
#[derive(Debug)]
pub enum EngineExpr {
    Binary(Box<EngineExpr>, EngineOperator, Box<EngineExpr>),
    Column(String),
    Like(Box<EngineExpr>, Box<EngineExpr>, bool, bool),
    Literal(Scalar),
    Other,
}

/// What an [`EngineExpr`] is in specifications.
pub enum EngineExprView {
    Binary(Box<EngineExprView>, EngineOperator, Box<EngineExprView>),
    Column(Seq<char>),
    Like(Box<EngineExprView>, Box<EngineExprView>, bool, bool),
    Literal(ScalarView),
    Other,
}

impl EngineExpr {
    /// The expression as a mathematical value.
    pub open spec fn model(self) -> EngineExprView
        decreases self,
    {
        match self {
            EngineExpr::Binary(l, op, r) => EngineExprView::Binary(
                Box::new((*l).model()),
                op,
                Box::new((*r).model()),
            ),
            EngineExpr::Column(name) => EngineExprView::Column(name@),
            EngineExpr::Like(c, p, n, i) => EngineExprView::Like(
                Box::new((*c).model()),
                Box::new((*p).model()),
                n,
                i,
            ),
            EngineExpr::Literal(s) => EngineExprView::Literal(s@),
            EngineExpr::Other => EngineExprView::Other,
        }
    }
}

/// The expression here that an engine's expression stands for. A binary expression is
/// converted side by side, the left first, and then its operator; an expression of a kind
/// that has no counterpart is refused with `InvalidArgument`.
pub open spec fn converted(e: EngineExprView) -> Result<ExprView, VortexError>
    decreases e,
{
    match e {
        EngineExprView::Binary(l, op, r) => match converted(*l) {
            Err(x) => Err(x),
            Ok(left) => match converted(*r) {
                Err(x) => Err(x),
                Ok(right) => match operator_spec(op) {
                    Some(o) => Ok(ExprView::BinaryExpr(Box::new(left), o, Box::new(right))),
                    None => Err(VortexError::Unsupported),
                },
            },
        },
        EngineExprView::Column(name) => Ok(ExprView::Column(FieldView::Name(name))),
        EngineExprView::Like(c, p, n, i) => match converted(*c) {
            Err(x) => Err(x),
            Ok(child) => match converted(*p) {
                Err(x) => Err(x),
                Ok(pattern) => Ok(ExprView::Like(Box::new(child), Box::new(pattern), n, i)),
            },
        },
        EngineExprView::Literal(s) => Ok(ExprView::Literal(s)),
        EngineExprView::Other => Err(VortexError::InvalidArgument),
    }
}

/// Converts an engine's physical expression to an expression here.
pub fn convert_expr_to_vortex(physical_expr: &EngineExpr) -> (r: Result<VortexExpr, VortexError>)
    ensures
        match converted(physical_expr.model()) {
            Ok(v) => r is Ok && r->Ok_0@ == v,
            Err(e) => r == Err::<VortexExpr, VortexError>(e),
        },
    decreases physical_expr,
{
    match physical_expr {
        EngineExpr::Binary(l, op, r) => {
            let left = match convert_expr_to_vortex(l) {
                Ok(x) => x,
                Err(e) => {
                    return Err(e);
                },
            };
            let right = match convert_expr_to_vortex(r) {
                Ok(x) => x,
                Err(e) => {
                    return Err(e);
                },
            };
            match Operator::try_from(*op) {
                Ok(operator) => Ok(VortexExpr::BinaryExpr(Box::new(left), operator, Box::new(right))),
                Err(e) => Err(e),
            }
        },
        EngineExpr::Column(name) => Ok(VortexExpr::Column(Field::Name(name.clone()))),
        EngineExpr::Like(c, p, negated, case_insensitive) => {
            let child = match convert_expr_to_vortex(c) {
                Ok(x) => x,
                Err(e) => {
                    return Err(e);
                },
            };
            let pattern = match convert_expr_to_vortex(p) {
                Ok(x) => x,
                Err(e) => {
                    return Err(e);
                },
            };
            Ok(VortexExpr::Like(Box::new(child), Box::new(pattern), *negated, *case_insensitive))
        },
        EngineExpr::Literal(value) => Ok(VortexExpr::Literal(value.clone())),
        EngineExpr::Other => Err(VortexError::InvalidArgument),
    }
}

/// The row filter of the predicates that have a counterpart here, in order; `None` where
/// none has.
pub open spec fn pushed_filter(conjuncts: Seq<EngineExpr>, n: int) -> Seq<ExprView>
    decreases n,
{
    if n <= 0 || n > conjuncts.len() {
        Seq::empty()
    } else {
        match converted(conjuncts[n - 1].model()) {
            Ok(v) => pushed_filter(conjuncts, n - 1).push(v),
            Err(_) => pushed_filter(conjuncts, n - 1),
        }
    }
}

/// The row filter to push down for an engine's predicate, given as its conjuncts: the
/// conjuncts that can be converted, the others dropped; `None` where none can.
pub fn pushdown_filter(conjuncts: &Vec<EngineExpr>) -> (r: Option<RowFilter>)
    ensures
        r is Some <==> pushed_filter(conjuncts@, conjuncts@.len() as int).len() > 0,
        r is Some ==> crate::expr::exprs_view(r->Some_0.conjunction@) == pushed_filter(
            conjuncts@,
            conjuncts@.len() as int,
        ),
{
    let mut kept: Vec<VortexExpr> = Vec::new();
    let mut i: usize = 0;
    assert(crate::expr::exprs_view(kept@) =~= pushed_filter(conjuncts@, 0));
    while i < conjuncts.len()
        invariant
            i <= conjuncts@.len(),
            crate::expr::exprs_view(kept@) == pushed_filter(conjuncts@, i as int),
        decreases conjuncts@.len() - i,
    {
        let ghost before = kept@;
        match convert_expr_to_vortex(&conjuncts[i]) {
            Ok(e) => {
                kept.push(e);
                assert(crate::expr::exprs_view(kept@) =~= crate::expr::exprs_view(before).push(e@));
            },
            Err(_) => {},
        }
        i += 1;
    }
    if kept.len() == 0 {
        None
    } else {
        Some(RowFilter::from_conjunction(kept))
    }
}

/// Whether filters can be pushed down into a file.
#[derive(Clone, Copy, Debug, PartialEq, Eq, Structural, Hash)]
pub enum FilePushdownSupport {
    Supported,
    NotSupportedForFilter,
}

/// The compression of a whole file.
#[derive(Clone, Copy, Debug, PartialEq, Eq, Structural, Hash)]
pub enum FileCompression {
    Uncompressed,
    Gzip,
    Bzip2,
    Xz,
    Zstd,
}

/// The encodings that a reader knows, by their codes.
#[derive(Debug)]
pub struct Context {
    pub encodings: Vec<EncodingId>,
}

impl Context {
    /// The context of the given encodings.
    pub fn new(encodings: Vec<EncodingId>) -> (r: Context)
        ensures
            r.encodings == encodings,
    {
        Context { encodings }
    }

    /// A copy.
    pub fn clone(&self) -> (r: Context)
        ensures
            r.encodings@ == self.encodings@,
    {
        Context { encodings: self.encodings.clone() }
    }

    /// The first encoding of the context with the given code.
    pub fn lookup_encoding(&self, code: u16) -> (r: Option<EncodingId>)
        ensures
            r is Some ==> self.encodings@.contains(r->Some_0) && r->Some_0.spec_code() == code,
            r is None ==> forall|i: int| 0 <= i < self.encodings@.len() ==> (#[trigger] self.encodings@[i]).spec_code() != code,
    {
        let mut i: usize = 0;
        while i < self.encodings.len()
            invariant
                i <= self.encodings@.len(),
                forall|j: int| 0 <= j < i ==> (#[trigger] self.encodings@[j]).spec_code() != code,
            decreases self.encodings@.len() - i,
        {
            if self.encodings[i].code() == code {
                return Some(self.encodings[i]);
            }
            i += 1;
        }
        None
    }
}

/// The file format, as a query engine sees it.
#[derive(Debug)]
pub struct VortexFormat {
    pub context: Context,
}

impl VortexFormat {
    /// The format that reads with the given context.
    pub fn new(context: &Context) -> (r: VortexFormat)
        ensures
            r.context.encodings@ == context.encodings@,
    {
        Self { context: context.clone() }
    }

    /// The extension of files of the format.
    pub fn get_ext(&self) -> (r: String)
        ensures
            r@ == "vortex"@,
    {
        "vortex".to_owned()
    }

    /// The extension of files of the format under a compression of the whole file, which
    /// the format has none of: anything but no compression is refused with `Unsupported`.
    pub fn get_ext_with_compression(&self, file_compression_type: FileCompression) -> (r: Result<
        String,
        VortexError,
    >)
        ensures
            r is Ok <==> file_compression_type == FileCompression::Uncompressed,
            r is Ok ==> r->Ok_0@ == "vortex"@,
            r is Err ==> r->Err_0 == VortexError::Unsupported,
    {
        match file_compression_type {
            FileCompression::Uncompressed => Ok(self.get_ext()),
            _ => Err(VortexError::Unsupported),
        }
    }

    /// Whether filters can be pushed down, given of each whether it can: only if all can.
    pub fn supports_filters_pushdown(&self, can_be_pushed_down: &Vec<bool>) -> (r: FilePushdownSupport)
        ensures
            r == FilePushdownSupport::Supported <==> forall|i: int| 0 <= i < can_be_pushed_down@.len() ==> can_be_pushed_down@[i],
    {
        let mut i: usize = 0;
        while i < can_be_pushed_down.len()
            invariant
                i <= can_be_pushed_down@.len(),
                forall|j: int| 0 <= j < i ==> can_be_pushed_down@[j],
            decreases can_be_pushed_down@.len() - i,
        {
            if !can_be_pushed_down[i] {
                return FilePushdownSupport::NotSupportedForFilter;
            }
            i += 1;
        }
        FilePushdownSupport::Supported
    }
}

} // verus!
