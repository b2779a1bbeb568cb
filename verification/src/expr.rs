//! Expressions over the columns of a batch: the predicates and projections that a reader
//! pushes down into a file's layouts.

use vstd::prelude::*;

use crate::dtype::{fields_view, Field, FieldView};
use crate::scalar::{Scalar, ScalarView};

verus! {

/// The binary operators of expressions.
#[derive(Clone, Copy, Debug, PartialEq, Eq, Structural, Hash)]
pub enum Operator {
    Eq,
    NotEq,
    Gt,
    Gte,
    Lt,
    Lte,
    And,
    Or,
}

/// A choice of fields, by inclusion or by exclusion.
#[derive(Debug)]
pub enum Select {
    Include(Vec<Field>),
    Exclude(Vec<Field>),
}

/// A conjunction of predicates: a row passes when every one of them holds of it.
#[derive(Debug)]
pub struct RowFilter {
    pub conjunction: Vec<VortexExpr>,
}

/// An expression.
#[derive(Debug)]
pub enum VortexExpr {
    Column(Field),
    Literal(Scalar),
    BinaryExpr(Box<VortexExpr>, Operator, Box<VortexExpr>),
    Like(Box<VortexExpr>, Box<VortexExpr>, bool, bool),
    Select(Select),
    RowFilter(RowFilter),
}

/// What a [`VortexExpr`] is in specifications.
pub enum ExprView {
    Column(FieldView),
    Literal(ScalarView),
    BinaryExpr(Box<ExprView>, Operator, Box<ExprView>),
    Like(Box<ExprView>, Box<ExprView>, bool, bool),
    Include(Seq<FieldView>),
    Exclude(Seq<FieldView>),
    RowFilter(Seq<ExprView>),
}

/// The views of a sequence of expressions.
pub open spec fn exprs_view(exprs: Seq<VortexExpr>) -> Seq<ExprView>
    decreases exprs,
{
    Seq::new(
        exprs.len(),
        |i: int|
            if 0 <= i < exprs.len() {
                exprs[i].model()
            } else {
                ExprView::Include(Seq::empty())
            },
    )
}

/// The predicates that a conjunction is made of: those of both sides of a top-level `And`,
/// in order; any other expression is its own only predicate.
pub open spec fn conjuncts(e: ExprView) -> Seq<ExprView>
    decreases e,
{
    match e {
        ExprView::BinaryExpr(l, Operator::And, r) => conjuncts(*l) + conjuncts(*r),
        other => seq![other],
    }
}

/// Whether `e` refers to field `f`.
pub open spec fn refers_to(e: ExprView, f: FieldView) -> bool
    decreases e,
{
    match e {
        ExprView::Column(c) => c == f,
        ExprView::Literal(_) => false,
        ExprView::BinaryExpr(l, _, r) => refers_to(*l, f) || refers_to(*r, f),
        ExprView::Like(c, p, _, _) => refers_to(*c, f) || refers_to(*p, f),
        ExprView::Include(fs) => fs.contains(f),
        ExprView::Exclude(fs) => fs.contains(f),
        ExprView::RowFilter(cs) => any_refers_to(cs, f, cs.len() as int),
    }
}

/// Whether one of the first `n` expressions refers to field `f`.
pub open spec fn any_refers_to(cs: Seq<ExprView>, f: FieldView, n: int) -> bool
    decreases cs, n,
{
    if n <= 0 || n > cs.len() {
        false
    } else {
        refers_to(cs[n - 1], f) || any_refers_to(cs, f, n - 1)
    }
}

/// What one of the expressions refers to, the first `n` of them refer to, if it is among
/// them; and what they refer to, one of them does.
pub proof fn lemma_any_refers_to(cs: Seq<ExprView>, f: FieldView, n: int)
    requires
        0 <= n <= cs.len(),
    ensures
        any_refers_to(cs, f, n) <==> exists|i: int| 0 <= i < n && refers_to(#[trigger] cs[i], f),
    decreases n,
{
    if n > 0 {
        lemma_any_refers_to(cs, f, n - 1);
        if refers_to(cs[n - 1], f) {
        }
        if exists|i: int| 0 <= i < n && refers_to(#[trigger] cs[i], f) {
            let i = choose|i: int| 0 <= i < n && refers_to(#[trigger] cs[i], f);
            if i < n - 1 {
            }
        }
    }
}

/// A row filter refers to what its predicates refer to.
pub proof fn lemma_refers_row_filter(cs: Seq<ExprView>, i: int, f: FieldView)
    requires
        0 <= i < cs.len(),
        refers_to(cs[i], f),
    ensures
        refers_to(ExprView::RowFilter(cs), f),
{
    lemma_any_refers_to(cs, f, cs.len() as int);
}

/// Whether `e` refers to fields among `fields` only.
pub open spec fn refers_within(e: ExprView, fields: Seq<FieldView>) -> bool {
    forall|f: FieldView| refers_to(e, f) ==> fields.contains(f)
}

/// Those of the first `n` of `fs` that are among `fields`, in order.
pub open spec fn kept_fields(fs: Seq<FieldView>, fields: Seq<FieldView>, n: int) -> Seq<FieldView>
    decreases n,
{
    if n <= 0 || n > fs.len() {
        Seq::empty()
    } else if fields.contains(fs[n - 1]) {
        kept_fields(fs, fields, n - 1).push(fs[n - 1])
    } else {
        kept_fields(fs, fields, n - 1)
    }
}

/// Whether a selection is kept when it is cut down to `kept` of its fields for a projection
/// onto `fields`: when some field is left, or when the projection is onto one field.
pub open spec fn selection_kept(kept: Seq<FieldView>, fields: Seq<FieldView>) -> bool {
    kept.len() > 0 || fields.len() == 1
}

/// The part of `e` that can be evaluated on `fields` alone. A row filter keeps the
/// predicates that can, and is lost when none can. A selection keeps those of its fields
/// that are among `fields`. Any other expression is kept whole when it refers to those
/// fields only.
pub open spec fn projected_expr(e: ExprView, fields: Seq<FieldView>) -> Option<ExprView>
    decreases e, 1int,
{
    match e {
        ExprView::Include(fs) => {
            let kept = kept_fields(fs, fields, fs.len() as int);
            if selection_kept(kept, fields) {
                Some(ExprView::Include(kept))
            } else {
                None
            }
        },
        ExprView::Exclude(fs) => {
            let kept = kept_fields(fs, fields, fs.len() as int);
            if selection_kept(kept, fields) {
                Some(ExprView::Exclude(kept))
            } else {
                None
            }
        },
        ExprView::RowFilter(cs) => {
            let kept = projected_exprs(cs, fields, cs.len() as int);
            if kept.len() == 0 {
                None
            } else {
                Some(ExprView::RowFilter(kept))
            }
        },
        other => if refers_within(other, fields) {
            Some(other)
        } else {
            None
        },
    }
}

/// The parts of the first `n` predicates that can be evaluated on `fields` alone, in order.
pub open spec fn projected_exprs(cs: Seq<ExprView>, fields: Seq<FieldView>, n: int) -> Seq<ExprView>
    decreases cs, 0int, n,
{
    if n <= 0 || n > cs.len() {
        Seq::empty()
    } else {
        match projected_expr(cs[n - 1], fields) {
            Some(p) => projected_exprs(cs, fields, n - 1).push(p),
            None => projected_exprs(cs, fields, n - 1),
        }
    }
}

/// Whether two expressions are equal. Row filters are equal when each predicate of either
/// equals one of the other, whatever their order; anything else when it is built alike from
/// equal parts.
pub open spec fn expr_eq(a: ExprView, b: ExprView) -> bool
    decreases a, 0int,
{
    match (a, b) {
        (ExprView::Column(f), ExprView::Column(g)) => f == g,
        (ExprView::Literal(s), ExprView::Literal(t)) => s == t,
        (ExprView::BinaryExpr(l, op, r), ExprView::BinaryExpr(l2, op2, r2)) => op == op2
            && expr_eq(*l, *l2) && expr_eq(*r, *r2),
        (ExprView::Like(c, p, n, i), ExprView::Like(c2, p2, n2, i2)) => n == n2 && i == i2
            && expr_eq(*c, *c2) && expr_eq(*p, *p2),
        (ExprView::Include(x), ExprView::Include(y)) => x == y,
        (ExprView::Exclude(x), ExprView::Exclude(y)) => x == y,
        (ExprView::RowFilter(x), ExprView::RowFilter(y)) => each_equals_one(
            x,
            y,
            x.len() as int,
        ) && each_is_equalled(x, y, y.len() as int),
        _ => false,
    }
}

/// Whether `e` equals one of the first `m` of `ys`.
pub open spec fn equals_one_of(e: ExprView, ys: Seq<ExprView>, m: int) -> bool
    decreases e, 1int, m,
{
    if m <= 0 || m > ys.len() {
        false
    } else {
        expr_eq(e, ys[m - 1]) || equals_one_of(e, ys, m - 1)
    }
}

/// Whether each of the first `n` of `xs` equals one of `ys`.
pub open spec fn each_equals_one(xs: Seq<ExprView>, ys: Seq<ExprView>, n: int) -> bool
    decreases xs, 2int, n,
{
    if n <= 0 || n > xs.len() {
        true
    } else {
        equals_one_of(xs[n - 1], ys, ys.len() as int) && each_equals_one(xs, ys, n - 1)
    }
}

/// Whether one of the first `n` of `xs` equals `e`.
pub open spec fn one_equals(xs: Seq<ExprView>, e: ExprView, n: int) -> bool
    decreases xs, 0int, n,
{
    if n <= 0 || n > xs.len() {
        false
    } else {
        expr_eq(xs[n - 1], e) || one_equals(xs, e, n - 1)
    }
}

/// Whether each of the first `m` of `ys` is equalled by one of `xs`.
pub open spec fn each_is_equalled(xs: Seq<ExprView>, ys: Seq<ExprView>, m: int) -> bool
    decreases xs, 1int, m,
{
    if m <= 0 || m > ys.len() {
        true
    } else {
        one_equals(xs, ys[m - 1], xs.len() as int) && each_is_equalled(xs, ys, m - 1)
    }
}

/// Where the first `k` do not each equal one, neither do the first `n`.
pub proof fn lemma_each_equals_one_prefix(xs: Seq<ExprView>, ys: Seq<ExprView>, k: int, n: int)
    requires
        0 <= k <= n <= xs.len(),
        !each_equals_one(xs, ys, k),
    ensures
        !each_equals_one(xs, ys, n),
    decreases n - k,
{
    if k < n {
        lemma_each_equals_one_prefix(xs, ys, k, n - 1);
    }
}

/// Where the first `k` are not each equalled, neither are the first `m`.
pub proof fn lemma_each_is_equalled_prefix(xs: Seq<ExprView>, ys: Seq<ExprView>, k: int, m: int)
    requires
        0 <= k <= m <= ys.len(),
        !each_is_equalled(xs, ys, k),
    ensures
        !each_is_equalled(xs, ys, m),
    decreases m - k,
{
    if k < m {
        lemma_each_is_equalled_prefix(xs, ys, k, m - 1);
    }
}

/// Whether two lists of fields are equal.
pub fn fields_eq(a: &Vec<Field>, b: &Vec<Field>) -> (r: bool)
    ensures
        r == (fields_view(a@) == fields_view(b@)),
{
    if a.len() != b.len() {
        assert(fields_view(a@).len() != fields_view(b@).len());
        return false;
    }
    let mut i: usize = 0;
    while i < a.len()
        invariant
            i <= a@.len(),
            a@.len() == b@.len(),
            forall|j: int| 0 <= j < i ==> a@[j]@ == b@[j]@,
        decreases a@.len() - i,
    {
        if !a[i].eq(&b[i]) {
            assert(fields_view(a@)[i as int] != fields_view(b@)[i as int]);
            return false;
        }
        i += 1;
    }
    assert(fields_view(a@) =~= fields_view(b@));
    true
}

/// The fields that `e` names, in the order in which it names them, repeats included.
pub open spec fn refs_list(e: ExprView) -> Seq<FieldView>
    decreases e, 0int,
{
    match e {
        ExprView::Column(f) => seq![f],
        ExprView::Literal(_) => Seq::empty(),
        ExprView::BinaryExpr(l, _, r) => refs_list(*l) + refs_list(*r),
        ExprView::Like(c, p, _, _) => refs_list(*c) + refs_list(*p),
        ExprView::Include(fs) => fs,
        ExprView::Exclude(fs) => fs,
        ExprView::RowFilter(cs) => refs_lists(cs, cs.len() as int),
    }
}

/// The fields that the first `n` expressions name, in order, repeats included.
pub open spec fn refs_lists(cs: Seq<ExprView>, n: int) -> Seq<FieldView>
    decreases cs, n,
{
    if n <= 0 || n > cs.len() {
        Seq::empty()
    } else {
        refs_lists(cs, n - 1) + refs_list(cs[n - 1])
    }
}

/// `acc` followed by the items of `s` that are new, each at its first place.
pub open spec fn extend_distinct(acc: Seq<FieldView>, s: Seq<FieldView>) -> Seq<FieldView>
    decreases s.len(),
{
    if s.len() == 0 {
        acc
    } else {
        let a = extend_distinct(acc, s.drop_last());
        if a.contains(s.last()) {
            a
        } else {
            a.push(s.last())
        }
    }
}

/// The fields that `e` refers to, each once, in the order of their first mention.
pub open spec fn references_of(e: ExprView) -> Seq<FieldView> {
    extend_distinct(Seq::empty(), refs_list(e))
}

/// Extending by two lists in turn is extending by the two laid end to end.
pub proof fn lemma_extend_distinct_concat(acc: Seq<FieldView>, s1: Seq<FieldView>, s2: Seq<FieldView>)
    ensures
        extend_distinct(extend_distinct(acc, s1), s2) == extend_distinct(acc, s1 + s2),
    decreases s2.len(),
{
    if s2.len() == 0 {
        assert(s1 + s2 =~= s1);
    } else {
        lemma_extend_distinct_concat(acc, s1, s2.drop_last());
        assert((s1 + s2).drop_last() =~= s1 + s2.drop_last());
        assert((s1 + s2).last() == s2.last());
    }
}

/// Appends `field` unless it is there already.
pub fn push_distinct(out: &mut Vec<Field>, field: &Field)
    ensures
        fields_view(final(out)@) == extend_distinct(fields_view(old(out)@), seq![field@]),
{
    let ghost acc = fields_view(out@);
    let ghost one = seq![field@];
    assert(one.drop_last() =~= Seq::<FieldView>::empty());
    assert(extend_distinct(acc, one.drop_last()) == acc);
    if !contains_field(out, field) {
        out.push(field.clone());
        assert(fields_view(out@) =~= acc.push(field@));
    }
}

/// Appends the fields that are not there already, in order.
pub fn push_all_distinct(out: &mut Vec<Field>, fields: &Vec<Field>)
    ensures
        fields_view(final(out)@) == extend_distinct(fields_view(old(out)@), fields_view(fields@)),
{
    let ghost acc = fields_view(out@);
    let ghost fv = fields_view(fields@);
    let mut i: usize = 0;
    assert(fv.subrange(0, 0) =~= Seq::<FieldView>::empty());
    while i < fields.len()
        invariant
            i <= fields@.len(),
            fv == fields_view(fields@),
            fields_view(out@) == extend_distinct(acc, fv.subrange(0, i as int)),
        decreases fields@.len() - i,
    {
        push_distinct(out, &fields[i]);
        proof {
            lemma_extend_distinct_concat(acc, fv.subrange(0, i as int), seq![fields@[i as int]@]);
            assert(fv.subrange(0, i as int) + seq![fields@[i as int]@] =~= fv.subrange(0, i + 1));
        }
        i += 1;
    }
    assert(fv.subrange(0, fv.len() as int) =~= fv);
}

impl Select {
    /// A deep copy.
    pub fn clone(&self) -> (r: Select)
        ensures
            ExprView::from_select(r) == ExprView::from_select(*self),
    {
        match self {
            Select::Include(fs) => {
                let c = clone_fields(fs);
                Select::Include(c)
            },
            Select::Exclude(fs) => {
                let c = clone_fields(fs);
                Select::Exclude(c)
            },
        }
    }
}

impl ExprView {
    /// The view of a choice of fields.
    pub open spec fn from_select(s: Select) -> ExprView {
        match s {
            Select::Include(fs) => ExprView::Include(fields_view(fs@)),
            Select::Exclude(fs) => ExprView::Exclude(fields_view(fs@)),
        }
    }
}

/// A copy of the fields.
pub fn clone_fields(fields: &Vec<Field>) -> (r: Vec<Field>)
    ensures
        fields_view(r@) == fields_view(fields@),
{
    let mut out: Vec<Field> = Vec::new();
    let mut i: usize = 0;
    while i < fields.len()
        invariant
            i <= fields@.len(),
            out@.len() == i,
            forall|j: int| 0 <= j < i ==> (#[trigger] out@[j])@ == fields@[j]@,
        decreases fields@.len() - i,
    {
        out.push(fields[i].clone());
        i += 1;
    }
    assert(fields_view(out@) =~= fields_view(fields@));
    out
}

/// Whether `field` is among `fields`.
pub fn contains_field(fields: &Vec<Field>, field: &Field) -> (r: bool)
    ensures
        r == fields_view(fields@).contains(field@),
{
    let mut i: usize = 0;
    while i < fields.len()
        invariant
            i <= fields@.len(),
            forall|j: int| 0 <= j < i ==> fields@[j]@ != field@,
        decreases fields@.len() - i,
    {
        if fields[i].eq(field) {
            assert(fields_view(fields@)[i as int] == field@);
            return true;
        }
        i += 1;
    }
    proof {
        if fields_view(fields@).contains(field@) {
            let j = choose|j: int| 0 <= j < fields_view(fields@).len() && fields_view(fields@)[j] == field@;
            assert(fields@[j]@ != field@);
        }
    }
    false
}

impl VortexExpr {
    /// The expression as a mathematical value.
    pub open spec fn model(self) -> ExprView
        decreases self,
    {
        match self {
            VortexExpr::Column(f) => ExprView::Column(f@),
            VortexExpr::Literal(s) => ExprView::Literal(s@),
            VortexExpr::BinaryExpr(l, op, r) => ExprView::BinaryExpr(
                Box::new((*l).model()),
                op,
                Box::new((*r).model()),
            ),
            VortexExpr::Like(c, p, negated, case_insensitive) => ExprView::Like(
                Box::new((*c).model()),
                Box::new((*p).model()),
                negated,
                case_insensitive,
            ),
            VortexExpr::Select(s) => ExprView::from_select(s),
            VortexExpr::RowFilter(rf) => ExprView::RowFilter(exprs_view(rf.conjunction@)),
        }
    }

    /// A deep copy.
    #[verifier::loop_isolation(false)]
    pub fn clone(&self) -> (r: VortexExpr)
        ensures
            r@ == self@,
        decreases self,
    {
        match self {
            VortexExpr::Column(f) => VortexExpr::Column(f.clone()),
            VortexExpr::Literal(s) => VortexExpr::Literal(s.clone()),
            VortexExpr::BinaryExpr(l, op, r) => VortexExpr::BinaryExpr(
                Box::new((**l).clone()),
                *op,
                Box::new((**r).clone()),
            ),
            VortexExpr::Like(c, p, negated, case_insensitive) => VortexExpr::Like(
                Box::new((**c).clone()),
                Box::new((**p).clone()),
                *negated,
                *case_insensitive,
            ),
            VortexExpr::Select(s) => VortexExpr::Select(s.clone()),
            VortexExpr::RowFilter(rf) => {
                let mut out: Vec<VortexExpr> = Vec::new();
                let mut i: usize = 0;
                while i < rf.conjunction.len()
                    invariant
                        i <= rf.conjunction@.len(),
                        out@.len() == i,
                        forall|j: int| 0 <= j < i ==> (#[trigger] out@[j]).model() == rf.conjunction@[j].model(),
                    decreases rf.conjunction@.len() - i,
                {
                    proof {
                        vstd::std_specs::vec::axiom_vec_index_decreases(rf.conjunction, i as int);
                        assert(decreases_to!(*self => self->RowFilter_0));
                        assert(decreases_to!(self->RowFilter_0 => (self->RowFilter_0).conjunction));
                    }
                    let c = rf.conjunction[i].clone();
                    out.push(c);
                    i += 1;
                }
                assert(exprs_view(out@) =~= exprs_view(rf.conjunction@));
                VortexExpr::RowFilter(RowFilter { conjunction: out })
            },
        }
    }

    /// Whether two expressions are equal; row filters whatever the order of their
    /// predicates.
    #[verifier::loop_isolation(false)]
    pub fn eq(&self, other: &VortexExpr) -> (r: bool)
        ensures
            r == expr_eq(self@, other@),
        decreases self,
    {
        match (self, other) {
            (VortexExpr::Column(f), VortexExpr::Column(g)) => f.eq(g),
            (VortexExpr::Literal(s), VortexExpr::Literal(t)) => s.dtype.eq(&t.dtype) && s.value.eq(
                &t.value,
            ),
            (VortexExpr::BinaryExpr(l, op, r), VortexExpr::BinaryExpr(l2, op2, r2)) => *op == *op2
                && (**l).eq(&**l2) && (**r).eq(&**r2),
            (VortexExpr::Like(c, p, n, i), VortexExpr::Like(c2, p2, n2, i2)) => *n == *n2 && *i
                == *i2 && (**c).eq(&**c2) && (**p).eq(&**p2),
            (VortexExpr::Select(Select::Include(x)), VortexExpr::Select(Select::Include(y))) => fields_eq(
                x,
                y,
            ),
            (VortexExpr::Select(Select::Exclude(x)), VortexExpr::Select(Select::Exclude(y))) => fields_eq(
                x,
                y,
            ),
            (VortexExpr::RowFilter(x), VortexExpr::RowFilter(y)) => {
                proof {
                    assert(decreases_to!(*self => self->RowFilter_0));
                }
                x.eq(y)
            },
            _ => false,
        }
    }

    /// Appends the fields that the expression refers to and that are not there already, in
    /// the order of their first mention.
    #[verifier::loop_isolation(false)]
    #[verifier::rlimit(40)]
    pub fn collect_references(&self, references: &mut Vec<Field>)
        ensures
            fields_view(final(references)@) == extend_distinct(
                fields_view(old(references)@),
                refs_list(self@),
            ),
        decreases self,
    {
        let ghost acc = fields_view(references@);
        match self {
            VortexExpr::Column(f) => {
                push_distinct(references, f);
            },
            VortexExpr::Literal(_) => {},
            VortexExpr::BinaryExpr(l, _, r) => {
                (**l).collect_references(references);
                (**r).collect_references(references);
                proof {
                    lemma_extend_distinct_concat(acc, refs_list((**l)@), refs_list((**r)@));
                }
            },
            VortexExpr::Like(c, p, _, _) => {
                (**c).collect_references(references);
                (**p).collect_references(references);
                proof {
                    lemma_extend_distinct_concat(acc, refs_list((**c)@), refs_list((**p)@));
                }
            },
            VortexExpr::Select(s) => {
                match s {
                    Select::Include(fs) => push_all_distinct(references, fs),
                    Select::Exclude(fs) => push_all_distinct(references, fs),
                }
            },
            VortexExpr::RowFilter(rf) => {
                let ghost cs = exprs_view(rf.conjunction@);
                let mut i: usize = 0;
                while i < rf.conjunction.len()
                    invariant
                        i <= rf.conjunction@.len(),
                        fields_view(references@) == extend_distinct(acc, refs_lists(cs, i as int)),
                    decreases rf.conjunction@.len() - i,
                {
                    proof {
                        vstd::std_specs::vec::axiom_vec_index_decreases(rf.conjunction, i as int);
                        assert(decreases_to!(*self => self->RowFilter_0));
                        assert(decreases_to!(self->RowFilter_0 => (self->RowFilter_0).conjunction));
                        assert(cs[i as int] == rf.conjunction@[i as int].model());
                        lemma_extend_distinct_concat(acc, refs_lists(cs, i as int), refs_list(cs[i as int]));
                    }
                    rf.conjunction[i].collect_references(references);
                    i += 1;
                }
            },
        }
    }

    /// The fields that the expression refers to, each once, in the order of their first
    /// mention.
    pub fn references(&self) -> (r: Vec<Field>)
        ensures
            fields_view(r@) == references_of(self@),
    {
        let mut out: Vec<Field> = Vec::new();
        assert(fields_view(out@) =~= Seq::<FieldView>::empty());
        self.collect_references(&mut out);
        out
    }

    /// Whether the expression refers to fields among `fields` only.
    #[verifier::loop_isolation(false)]
    #[verifier::rlimit(40)]
    pub fn references_within(&self, fields: &Vec<Field>) -> (r: bool)
        ensures
            r == refers_within(self@, fields_view(fields@)),
        decreases self,
    {
        let ghost fv = fields_view(fields@);
        match self {
            VortexExpr::Column(f) => {
                let r = contains_field(fields, f);
                proof {
                    assert(refers_to(self@, f@));
                }
                r
            },
            VortexExpr::Literal(_) => true,
            VortexExpr::BinaryExpr(l, _, r) => {
                let a = (**l).references_within(fields);
                let b = (**r).references_within(fields);
                proof {
                    if a && b {
                        assert forall|f: FieldView| refers_to(self@, f) implies fv.contains(f) by {
                            assert(refers_to((**l)@, f) || refers_to((**r)@, f));
                        }
                    }
                    if !a {
                        let f = choose|f: FieldView| refers_to((**l)@, f) && !fv.contains(f);
                        assert(refers_to(self@, f));
                    }
                    if !b {
                        let f = choose|f: FieldView| refers_to((**r)@, f) && !fv.contains(f);
                        assert(refers_to(self@, f));
                    }
                }
                a && b
            },
            VortexExpr::Like(c, p, _, _) => {
                let a = (**c).references_within(fields);
                let b = (**p).references_within(fields);
                proof {
                    if a && b {
                        assert forall|f: FieldView| refers_to(self@, f) implies fv.contains(f) by {
                            assert(refers_to((**c)@, f) || refers_to((**p)@, f));
                        }
                    }
                    if !a {
                        let f = choose|f: FieldView| refers_to((**c)@, f) && !fv.contains(f);
                        assert(refers_to(self@, f));
                    }
                    if !b {
                        let f = choose|f: FieldView| refers_to((**p)@, f) && !fv.contains(f);
                        assert(refers_to(self@, f));
                    }
                }
                a && b
            },
            VortexExpr::Select(s) => {
                let fs = match s {
                    Select::Include(fs) => fs,
                    Select::Exclude(fs) => fs,
                };
                let mut i: usize = 0;
                while i < fs.len()
                    invariant
                        i <= fs@.len(),
                        forall|j: int| 0 <= j < i ==> fv.contains(#[trigger] fs@[j]@),
                    decreases fs@.len() - i,
                {
                    if !contains_field(fields, &fs[i]) {
                        proof {
                            assert(fields_view(fs@)[i as int] == fs@[i as int]@);
                            assert(refers_to(self@, fs@[i as int]@));
                        }
                        return false;
                    }
                    i += 1;
                }
                proof {
                    assert forall|f: FieldView| refers_to(self@, f) implies fv.contains(f) by {
                        let j = choose|j: int| 0 <= j < fields_view(fs@).len() && fields_view(fs@)[j] == f;
                        assert(fv.contains(fs@[j]@));
                    }
                }
                true
            },
            VortexExpr::RowFilter(rf) => {
                let mut i: usize = 0;
                while i < rf.conjunction.len()
                    invariant
                        i <= rf.conjunction@.len(),
                        forall|j: int| 0 <= j < i ==> refers_within(#[trigger] rf.conjunction@[j].model(), fv),
                    decreases rf.conjunction@.len() - i,
                {
                    proof {
                        vstd::std_specs::vec::axiom_vec_index_decreases(rf.conjunction, i as int);
                        assert(decreases_to!(*self => self->RowFilter_0));
                        assert(decreases_to!(self->RowFilter_0 => (self->RowFilter_0).conjunction));
                    }
                    if !rf.conjunction[i].references_within(fields) {
                        proof {
                            let c = rf.conjunction@[i as int].model();
                            let f = choose|f: FieldView| refers_to(c, f) && !fv.contains(f);
                            let cs = exprs_view(rf.conjunction@);
                            assert(cs[i as int] == c);
                            assert(self@ == ExprView::RowFilter(cs));
                            lemma_refers_row_filter(cs, i as int, f);
                        }
                        return false;
                    }
                    i += 1;
                }
                proof {
                    assert forall|f: FieldView| refers_to(self@, f) implies fv.contains(f) by {
                        let cs = exprs_view(rf.conjunction@);
                        lemma_any_refers_to(cs, f, cs.len() as int);
                        let j = choose|j: int| 0 <= j < cs.len() && refers_to(#[trigger] cs[j], f);
                        assert(refers_within(rf.conjunction@[j].model(), fv));
                    }
                }
                true
            },
        }
    }
}

impl View for VortexExpr {
    type V = ExprView;

    open spec fn view(&self) -> ExprView {
        self.model()
    }
}

/// Appends the predicates of `expr` to `exprs`.
fn split_inner(expr: &VortexExpr, exprs: &mut Vec<VortexExpr>)
    ensures
        exprs_view(final(exprs)@) == exprs_view(old(exprs)@) + conjuncts(expr@),
    decreases expr,
{
    match expr {
        VortexExpr::BinaryExpr(l, Operator::And, r) => {
            let ghost start = exprs_view(exprs@);
            split_inner(l, exprs);
            split_inner(r, exprs);
            assert((start + conjuncts((**l)@)) + conjuncts((**r)@) =~= start + (conjuncts((**l)@)
                + conjuncts((**r)@)));
        },
        _ => {
            let ghost start = exprs@;
            exprs.push(expr.clone());
            assert(exprs_view(exprs@) =~= exprs_view(start) + seq![expr@]);
        },
    }
}

/// The predicates whose conjunction `expr` is: top-level `And`s are flattened, in order.
pub fn split_conjunction(expr: &VortexExpr) -> (r: Vec<VortexExpr>)
    ensures
        exprs_view(r@) == conjuncts(expr@),
{
    let mut conjunctions: Vec<VortexExpr> = Vec::new();
    split_inner(expr, &mut conjunctions);
    assert(exprs_view(Seq::<VortexExpr>::empty()) + conjuncts(expr@) =~= conjuncts(expr@));
    conjunctions
}

/// Those of `fs` that are among `fields`, in order.
pub fn keep_fields(fs: &Vec<Field>, fields: &Vec<Field>) -> (r: Vec<Field>)
    ensures
        fields_view(r@) == kept_fields(fields_view(fs@), fields_view(fields@), fs@.len() as int),
{
    let ghost fv = fields_view(fs@);
    let mut out: Vec<Field> = Vec::new();
    let mut i: usize = 0;
    assert(fields_view(out@) =~= kept_fields(fv, fields_view(fields@), 0));
    while i < fs.len()
        invariant
            i <= fs@.len(),
            fv == fields_view(fs@),
            fields_view(out@) == kept_fields(fv, fields_view(fields@), i as int),
        decreases fs@.len() - i,
    {
        let ghost before = out@;
        assert(fv[i as int] == fs@[i as int]@);
        if contains_field(fields, &fs[i]) {
            out.push(fs[i].clone());
            assert(fields_view(out@) =~= fields_view(before).push(fs@[i as int]@));
        }
        i += 1;
    }
    out
}

/// The part of `expr` that can be evaluated on `fields` alone, if any.
pub fn expr_project(expr: &VortexExpr, fields: &Vec<Field>) -> (r: Option<VortexExpr>)
    ensures
        r is Some <==> projected_expr(expr@, fields_view(fields@)) is Some,
        r is Some ==> r->Some_0@ == projected_expr(expr@, fields_view(fields@))->Some_0,
    decreases expr, 1int,
{
    match expr {
        VortexExpr::RowFilter(rf) => {
            proof {
                assert(decreases_to!(*expr => expr->RowFilter_0));
            }
            match rf.only_fields(fields) {
                Some(p) => Some(VortexExpr::RowFilter(p)),
                None => None,
            }
        },
        VortexExpr::Select(Select::Include(fs)) => {
            let kept = keep_fields(fs, fields);
            if kept.len() > 0 || fields.len() == 1 {
                Some(VortexExpr::Select(Select::Include(kept)))
            } else {
                None
            }
        },
        VortexExpr::Select(Select::Exclude(fs)) => {
            let kept = keep_fields(fs, fields);
            if kept.len() > 0 || fields.len() == 1 {
                Some(VortexExpr::Select(Select::Exclude(kept)))
            } else {
                None
            }
        },
        _ => {
            if expr.references_within(fields) {
                Some(expr.clone())
            } else {
                None
            }
        },
    }
}

impl RowFilter {
    /// Whether two filters hold the same predicates, whatever their order.
    #[verifier::loop_isolation(false)]
    #[verifier::rlimit(40)]
    pub fn eq(&self, other: &RowFilter) -> (r: bool)
        ensures
            r == expr_eq(
                ExprView::RowFilter(exprs_view(self.conjunction@)),
                ExprView::RowFilter(exprs_view(other.conjunction@)),
            ),
        decreases self,
    {
        let ghost x = exprs_view(self.conjunction@);
        let ghost y = exprs_view(other.conjunction@);
        let n = self.conjunction.len();
        let m = other.conjunction.len();
        let mut i: usize = 0;
        while i < n
            invariant
                i <= n,
                each_equals_one(x, y, i as int),
            decreases n - i,
        {
            let mut found = false;
            let mut j: usize = 0;
            while j < m
                invariant
                    j <= m,
                    found == equals_one_of(x[i as int], y, j as int),
                decreases m - j,
            {
                proof {
                    vstd::std_specs::vec::axiom_vec_index_decreases(self.conjunction, i as int);
                    assert(decreases_to!(*self => self.conjunction));
                    assert(x[i as int] == self.conjunction@[i as int].model());
                    assert(y[j as int] == other.conjunction@[j as int].model());
                }
                if self.conjunction[i].eq(&other.conjunction[j]) {
                    found = true;
                }
                j += 1;
            }
            if !found {
                proof {
                    lemma_each_equals_one_prefix(x, y, i + 1, n as int);
                }
                return false;
            }
            i += 1;
        }
        let mut j: usize = 0;
        while j < m
            invariant
                j <= m,
                each_equals_one(x, y, n as int),
                each_is_equalled(x, y, j as int),
            decreases m - j,
        {
            let mut found = false;
            let mut i: usize = 0;
            while i < n
                invariant
                    i <= n,
                    found == one_equals(x, y[j as int], i as int),
                decreases n - i,
            {
                proof {
                    vstd::std_specs::vec::axiom_vec_index_decreases(self.conjunction, i as int);
                    assert(decreases_to!(*self => self.conjunction));
                    assert(x[i as int] == self.conjunction@[i as int].model());
                    assert(y[j as int] == other.conjunction@[j as int].model());
                }
                if self.conjunction[i].eq(&other.conjunction[j]) {
                    found = true;
                }
                i += 1;
            }
            if !found {
                proof {
                    lemma_each_is_equalled_prefix(x, y, j + 1, m as int);
                }
                return false;
            }
            j += 1;
        }
        true
    }

    /// The filter whose predicates are those of `expr`.
    pub fn new(expr: VortexExpr) -> (r: RowFilter)
        ensures
            exprs_view(r.conjunction@) == conjuncts(expr@),
    {
        let conjunction = split_conjunction(&expr);
        Self { conjunction }
    }

    /// The filter with the given predicates.
    pub fn from_conjunction(conjunction: Vec<VortexExpr>) -> (r: RowFilter)
        ensures
            r.conjunction == conjunction,
    {
        Self { conjunction }
    }

    /// The filter of the predicates that can be evaluated on `fields` alone; `None` where
    /// none can.
    pub fn only_fields(&self, fields: &Vec<Field>) -> (r: Option<RowFilter>)
        ensures
            r is Some <==> projected_exprs(
                exprs_view(self.conjunction@),
                fields_view(fields@),
                self.conjunction@.len() as int,
            ).len() > 0,
            r is Some ==> exprs_view(r->Some_0.conjunction@) == projected_exprs(
                exprs_view(self.conjunction@),
                fields_view(fields@),
                self.conjunction@.len() as int,
            ),
        decreases self, 0int,
    {
        let ghost cs = exprs_view(self.conjunction@);
        let ghost fv = fields_view(fields@);
        let mut conj: Vec<VortexExpr> = Vec::new();
        let mut i: usize = 0;
        assert(exprs_view(conj@) =~= projected_exprs(cs, fv, 0));
        while i < self.conjunction.len()
            invariant
                cs == exprs_view(self.conjunction@),
                fv == fields_view(fields@),
                i <= self.conjunction@.len(),
                exprs_view(conj@) == projected_exprs(cs, fv, i as int),
            decreases self.conjunction@.len() - i,
        {
            proof {
                vstd::std_specs::vec::axiom_vec_index_decreases(self.conjunction, i as int);
                assert(decreases_to!(*self => self.conjunction));
                assert(cs[i as int] == self.conjunction@[i as int].model());
            }
            let ghost before = conj@;
            match expr_project(&self.conjunction[i], fields) {
                Some(p) => {
                    conj.push(p);
                    assert(exprs_view(conj@) =~= exprs_view(before).push(p@));
                },
                None => {},
            }
            i += 1;
        }
        if conj.len() == 0 {
            None
        } else {
            Some(Self::from_conjunction(conj))
        }
    }
}

} // verus!
