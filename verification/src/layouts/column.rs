//! The column layout: one child layout per field of a struct, and how a scan is split
//! between them.
//!
//! Planning decides, for every field that the scan touches, which child is read, which part
//! of the filter is pushed down into it, and which fields must be read together because
//! a predicate spans them. Reading the children is the caller's part.

use vstd::prelude::*;

use crate::dtype::{
    fields_view, names_view, resolve, resolve_field, DType, DTypeView, Field, FieldView,
    StructDType,
};
use crate::error::VortexError;
use crate::expr::{
    expr_project, exprs_view, projected_expr, references_of, ExprView, RowFilter, Select,
    VortexExpr,
};

verus! {

/// The number under which a kind of layout is written to a file.
#[derive(Clone, Copy, Debug, PartialEq, Eq, Structural, Hash)]
pub struct LayoutId(pub u16);

/// The number of the column layout.
pub const COLUMN_LAYOUT_ID: u16 = 3;

/// What a reader asks of a layout: nothing, a projection, or a filter.
#[derive(Debug)]
pub struct Scan {
    pub expr: Option<VortexExpr>,
}

impl Scan {
    pub fn new(expr: Option<VortexExpr>) -> (r: Scan)
        ensures r.expr == expr,
    {
        Scan { expr }
    }

    /// The scan that asks nothing.
    pub fn empty() -> (r: Scan)
        ensures r.expr is None,
    {
        Scan { expr: None }
    }

    /// The scan's expression as a mathematical value.
    pub open spec fn view(&self) -> Option<ExprView> {
        match self.expr {
            Some(e) => Some(e@),
            None => None,
        }
    }
}

/// One child layout to read: which child, with which scan, and of which dtype if that is
/// known.
#[derive(Debug)]
pub struct LayoutRead {
    pub child: usize,
    pub scan: Scan,
    pub dtype: Option<DType>,
}

/// A child of a batch reader: a layout to read, or fields read together under a filter of
/// their own.
#[derive(Debug)]
pub enum PlannedChild {
    Layout(LayoutRead),
    Batch(ColumnBatchReader),
}

/// Named children read side by side into one batch, with the filter that is applied to the
/// batch, and whether a child whose filter leaves no row spares its siblings the read.
#[derive(Debug)]
pub struct ColumnBatchReader {
    pub names: Vec<String>,
    pub children: Vec<PlannedChild>,
    pub expr: Option<VortexExpr>,
    pub shortcircuit_siblings: bool,
}

/// What is planned for one field: its name, its child, the filter pushed down to it, and
/// its dtype.
pub struct ChildPlan {
    pub name: Seq<char>,
    pub child: int,
    pub expr: Option<ExprView>,
    pub dtype: DTypeView,
}

/// The part of the scan's filter that can be evaluated on `fields` alone.
pub open spec fn pushed_down(e: Option<ExprView>, fields: Seq<FieldView>) -> Option<ExprView> {
    match e {
        Some(x) => projected_expr(x, fields),
        None => None,
    }
}

/// Whether a field is handled by its own child: there is no filter, or some of the filter
/// can be evaluated on the field alone.
pub open spec fn is_handled(e: Option<ExprView>, field: FieldView) -> bool {
    e is None || pushed_down(e, seq![field]) is Some
}

/// What is planned for field `k` of the scan.
pub open spec fn child_plan(
    e: Option<ExprView>,
    file_names: Seq<Seq<char>>,
    fields: Seq<FieldView>,
    names: Seq<Seq<char>>,
    dtypes: Seq<DTypeView>,
    k: int,
) -> ChildPlan {
    ChildPlan {
        name: names[k],
        child: resolve_field(file_names, fields[k])->Some_0,
        expr: pushed_down(e, seq![fields[k]]),
        dtype: dtypes[k],
    }
}

/// The plans of those of the first `n` fields that are handled (`handled`) or not, in
/// order.
pub open spec fn plans(
    e: Option<ExprView>,
    file_names: Seq<Seq<char>>,
    fields: Seq<FieldView>,
    names: Seq<Seq<char>>,
    dtypes: Seq<DTypeView>,
    n: int,
    handled: bool,
) -> Seq<ChildPlan>
    decreases n,
{
    if n <= 0 {
        Seq::empty()
    } else {
        let rest = plans(e, file_names, fields, names, dtypes, n - 1, handled);
        if is_handled(e, fields[n - 1]) == handled {
            rest.push(child_plan(e, file_names, fields, names, dtypes, n - 1))
        } else {
            rest
        }
    }
}

/// Whether a child is the layout read that a plan asks for.
pub open spec fn reads_as(c: PlannedChild, p: ChildPlan) -> bool {
    &&& c is Layout
    &&& c->Layout_0.child == p.child
    &&& c->Layout_0.scan.view() == p.expr
    &&& c->Layout_0.dtype is Some
    &&& c->Layout_0.dtype->Some_0@ == p.dtype
}

/// Whether names and children are those of the plans, in order.
pub open spec fn follows(
    names: Seq<String>,
    children: Seq<PlannedChild>,
    plans: Seq<ChildPlan>,
) -> bool {
    &&& names.len() == plans.len()
    &&& children.len() == plans.len()
    &&& forall|k: int| 0 <= k < plans.len() ==> (#[trigger] names[k])@ == plans[k].name
    &&& forall|k: int| 0 <= k < plans.len() ==> reads_as(#[trigger] children[k], plans[k])
}

/// One column expression per name.
pub open spec fn columns_of(names: Seq<String>) -> Seq<ExprView> {
    Seq::new(names.len(), |i: int| ExprView::Column(FieldView::Name(names[i]@)))
}

/// The fields `0, 1, .., n - 1`.
pub open spec fn all_fields(n: nat) -> Seq<FieldView> {
    Seq::new(n, |i: int| FieldView::Index(i))
}

/// The fields that a scan touches, in the order in which their children are planned: every
/// child where the scan asks nothing, the fields of an inclusion in its order, else the
/// fields that the expression refers to. An exclusion is not supported.
pub open spec fn scan_fields_of(e: Option<ExprView>, child_count: nat) -> Result<
    Seq<FieldView>,
    VortexError,
> {
    match e {
        None => Ok(all_fields(child_count)),
        Some(ExprView::Include(fs)) => Ok(fs),
        Some(ExprView::Exclude(_)) => Err(VortexError::Unsupported),
        Some(other) => Ok(references_of(other)),
    }
}

/// Whether every field of the scan is a field of the file with a child of its own.
pub open spec fn fields_resolve(file_names: Seq<Seq<char>>, fields: Seq<FieldView>, child_count: nat) -> bool {
    forall|k: int| 0 <= k < fields.len() ==> resolve_field(file_names, #[trigger] fields[k]) is Some
        && resolve_field(file_names, fields[k])->Some_0 < child_count
}

/// Whether every field of the scan is a field of the file.
pub open spec fn names_resolve(file_names: Seq<Seq<char>>, fields: Seq<FieldView>) -> bool {
    forall|k: int| 0 <= k < fields.len() ==> resolve_field(file_names, #[trigger] fields[k]) is Some
}

/// The names of the scan's fields, in the scan's order.
pub open spec fn scan_names(file_names: Seq<Seq<char>>, fields: Seq<FieldView>) -> Seq<Seq<char>> {
    Seq::new(fields.len(), |k: int| file_names[resolve_field(file_names, fields[k])->Some_0])
}

/// The dtypes of the scan's fields, in the scan's order.
pub open spec fn scan_dtypes(
    file_names: Seq<Seq<char>>,
    file_dtypes: Seq<DTypeView>,
    fields: Seq<FieldView>,
) -> Seq<DTypeView> {
    Seq::new(fields.len(), |k: int| file_dtypes[resolve_field(file_names, fields[k])->Some_0])
}

/// The column layout of a file: the struct's fields, the number of child layouts, and the
/// scan that is asked of it.
#[derive(Debug)]
pub struct ColumnLayout {
    pub dtype: StructDType,
    pub child_count: usize,
    pub scan: Scan,
    pub reader: Option<ColumnBatchReader>,
}

/// The maker of column layouts.
#[derive(Debug)]
pub struct ColumnLayoutSpec;

impl ColumnLayoutSpec {
    pub fn id(&self) -> (r: LayoutId)
        ensures r == LayoutId(COLUMN_LAYOUT_ID),
    {
        LayoutId(COLUMN_LAYOUT_ID)
    }

    /// The column layout over the given fields and children, for the given scan.
    pub fn layout(&self, dtype: StructDType, child_count: usize, scan: Scan) -> (r: Result<
        ColumnLayout,
        VortexError,
    >)
        ensures
            r is Ok,
            r->Ok_0.dtype == dtype,
            r->Ok_0.child_count == child_count,
            r->Ok_0.scan == scan,
            r->Ok_0.reader is None,
    {
        Ok(ColumnLayout::new(dtype, child_count, scan))
    }
}

impl ColumnLayout {
    pub fn new(dtype: StructDType, child_count: usize, scan: Scan) -> (r: ColumnLayout)
        ensures
            r.dtype == dtype,
            r.child_count == child_count,
            r.scan == scan,
            r.reader is None,
    {
        Self { dtype, child_count, scan, reader: None }
    }

    /// The names of the file's fields.
    pub open spec fn file_names(&self) -> Seq<Seq<char>> {
        names_view(self.dtype.names@)
    }

    /// The dtypes of the file's fields.
    pub open spec fn file_dtypes(&self) -> Seq<DTypeView> {
        crate::dtype::dtypes_view(self.dtype.dtypes@)
    }

    /// The fields that the scan touches, in the order in which their children are planned;
    /// `None` where the scan asks nothing.
    pub fn scan_fields(&self) -> (r: Result<Option<Vec<Field>>, VortexError>)
        ensures
            self.scan.view() is None ==> r is Ok && r->Ok_0 is None,
            self.scan.view() is Some ==> (match scan_fields_of(self.scan.view(), self.child_count as nat) {
                Ok(fs) => r is Ok && r->Ok_0 is Some && fields_view(r->Ok_0->Some_0@) == fs,
                Err(e) => r == Err::<Option<Vec<Field>>, VortexError>(e),
            }),
    {
        match &self.scan.expr {
            None => Ok(None),
            Some(e) => match e {
                VortexExpr::Select(Select::Include(i)) => Ok(Some(crate::expr::clone_fields(i))),
                VortexExpr::Select(Select::Exclude(_)) => Err(VortexError::Unsupported),
                _ => Ok(Some(e.references())),
            },
        }
    }

    /// The fields that the scan touches, with the struct of just those fields.
    #[verifier::rlimit(40)]
    pub fn fields_with_dtypes(&self) -> (r: Result<(Vec<Field>, StructDType), VortexError>)
        requires
            self.dtype.wf(),
        ensures
            match scan_fields_of(self.scan.view(), self.child_count as nat) {
                Err(e) => r == Err::<(Vec<Field>, StructDType), VortexError>(e),
                Ok(fs) => {
                    &&& r is Ok <==> (if self.scan.view() is None {
                        self.child_count == self.dtype.names@.len()
                    } else {
                        forall|k: int| 0 <= k < fs.len() ==> resolve_field(self.file_names(), #[trigger] fs[k]) is Some
                    })
                    &&& r is Err ==> r->Err_0 == (if self.scan.view() is None {
                        VortexError::Corruption
                    } else {
                        VortexError::InvalidArgument
                    })
                    &&& r is Ok ==> {
                        &&& fields_view(r->Ok_0.0@) == fs
                        &&& r->Ok_0.1.wf()
                        &&& r->Ok_0.1.names@.len() == fs.len()
                        &&& forall|k: int| 0 <= k < fs.len() ==> resolve_field(self.file_names(), #[trigger] fs[k]) is Some
                        &&& names_view(r->Ok_0.1.names@) == scan_names(self.file_names(), fs)
                        &&& crate::dtype::dtypes_view(r->Ok_0.1.dtypes@) == scan_dtypes(
                            self.file_names(),
                            self.file_dtypes(),
                            fs,
                        )
                    }
                },
            },
    {
        let field_refs = match self.scan_fields() {
            Ok(f) => f,
            Err(e) => {
                return Err(e);
            },
        };
        match field_refs {
            Some(refs) => {
                let lazy_dtype = match self.dtype.project(&refs) {
                    Ok(d) => d,
                    Err(e) => {
                        proof {
                            let fs = fields_view(refs@);
                            if forall|k: int| 0 <= k < fs.len() ==> resolve_field(self.file_names(), #[trigger] fs[k]) is Some {
                                assert forall|k: int| 0 <= k < refs@.len() implies resolve_field(
                                    names_view(self.dtype.names@),
                                    #[trigger] refs@[k]@,
                                ) is Some by {
                                    assert(fs[k] == refs@[k]@);
                                }
                            }
                        }
                        return Err(e);
                    },
                };
                proof {
                    let fs = fields_view(refs@);
                    assert forall|k: int| 0 <= k < fs.len() implies resolve_field(self.file_names(), #[trigger] fs[k]) is Some by {
                        assert(resolve_field(self.file_names(), refs@[k]@) is Some);
                    }
                    assert forall|k: int| 0 <= k < fs.len() implies names_view(lazy_dtype.names@)[k] == scan_names(self.file_names(), fs)[k]
                        && crate::dtype::dtypes_view(lazy_dtype.dtypes@)[k] == scan_dtypes(self.file_names(), self.file_dtypes(), fs)[k] by {
                        assert(fs[k] == refs@[k]@);
                        crate::dtype::lemma_resolve_bounds(self.file_names(), fs[k]);
                        assert(lazy_dtype.names@[k]@ == self.dtype.names@[resolve_field(names_view(self.dtype.names@), refs@[k]@)->Some_0]@);
                        assert(lazy_dtype.dtypes@[k]@ == self.dtype.dtypes@[resolve_field(names_view(self.dtype.names@), refs@[k]@)->Some_0]@);
                    }
                    assert(names_view(lazy_dtype.names@) =~= scan_names(self.file_names(), fs));
                    assert(crate::dtype::dtypes_view(lazy_dtype.dtypes@) =~= scan_dtypes(
                        self.file_names(),
                        self.file_dtypes(),
                        fs,
                    ));
                }
                Ok((refs, lazy_dtype))
            },
            None => {
                if self.child_count != self.dtype.names.len() {
                    return Err(VortexError::Corruption);
                }
                let mut refs: Vec<Field> = Vec::new();
                let mut k: usize = 0;
                while k < self.child_count
                    invariant
                        k <= self.child_count,
                        refs@.len() == k,
                        forall|j: int| 0 <= j < k ==> (#[trigger] refs@[j])@ == FieldView::Index(j),
                    decreases self.child_count - k,
                {
                    refs.push(Field::Index(k));
                    k += 1;
                }
                let lazy_dtype = match self.dtype.project(&refs) {
                    Ok(d) => d,
                    Err(e) => {
                        return Err(VortexError::Corruption);
                    },
                };
                proof {
                    let fs = all_fields(self.child_count as nat);
                    assert(fields_view(refs@) =~= fs);
                    assert forall|k: int| 0 <= k < fs.len() implies resolve_field(self.file_names(), #[trigger] fs[k]) is Some by {
                        assert(resolve_field(self.file_names(), refs@[k]@) is Some);
                    }
                    assert forall|k: int| 0 <= k < fs.len() implies names_view(lazy_dtype.names@)[k] == scan_names(self.file_names(), fs)[k]
                        && crate::dtype::dtypes_view(lazy_dtype.dtypes@)[k] == scan_dtypes(self.file_names(), self.file_dtypes(), fs)[k] by {
                        assert(fs[k] == refs@[k]@);
                        crate::dtype::lemma_resolve_bounds(self.file_names(), fs[k]);
                        assert(lazy_dtype.names@[k]@ == self.dtype.names@[resolve_field(names_view(self.dtype.names@), refs@[k]@)->Some_0]@);
                        assert(lazy_dtype.dtypes@[k]@ == self.dtype.dtypes@[resolve_field(names_view(self.dtype.names@), refs@[k]@)->Some_0]@);
                    }
                    assert(names_view(lazy_dtype.names@) =~= scan_names(self.file_names(), fs));
                    assert(crate::dtype::dtypes_view(lazy_dtype.dtypes@) =~= scan_dtypes(
                        self.file_names(),
                        self.file_dtypes(),
                        fs,
                    ));
                }
                Ok((refs, lazy_dtype))
            },
        }
    }

    /// The children that must be asked where a read may be split: one per field of the
    /// scan, with no scan and no dtype of its own. A field that the file does not have is
    /// refused as in [`ColumnLayout::fields_with_dtypes`]; one without a child layout with
    /// `Corruption`.
    #[verifier::rlimit(40)]
    pub fn children_for_splits(&self) -> (r: Result<Vec<LayoutRead>, VortexError>)
        requires
            self.dtype.wf(),
        ensures
            match scan_fields_of(self.scan.view(), self.child_count as nat) {
                Err(e) => r == Err::<Vec<LayoutRead>, VortexError>(e),
                Ok(fs) => r is Ok ==> {
                    &&& r->Ok_0@.len() == fs.len()
                    &&& fields_resolve(self.file_names(), fs, self.child_count as nat)
                    &&& forall|k: int| 0 <= k < fs.len() ==> {
                        &&& (#[trigger] r->Ok_0@[k]).child == resolve_field(self.file_names(), fs[k])->Some_0
                        &&& r->Ok_0@[k].scan.expr is None
                        &&& r->Ok_0@[k].dtype is None
                    }
                },
            },
            r is Ok <==> self.fields_resolve_for_scan(),
            scan_fields_of(self.scan.view(), self.child_count as nat) is Ok && r is Err ==> r->Err_0
                == self.resolution_error(),
    {
        let (refs, _lazy_dtype) = match self.fields_with_dtypes() {
            Ok(x) => x,
            Err(e) => {
                return Err(e);
            },
        };
        let ghost fs = fields_view(refs@);
        let mut out: Vec<LayoutRead> = Vec::new();
        let mut k: usize = 0;
        while k < refs.len()
            invariant
                k <= refs@.len(),
                fs == fields_view(refs@),
                scan_fields_of(self.scan.view(), self.child_count as nat) == Ok::<Seq<FieldView>, VortexError>(fs),
                self.scan.view() is None ==> self.child_count == self.dtype.names@.len(),
                out@.len() == k,
                forall|j: int| 0 <= j < fs.len() ==> resolve_field(self.file_names(), #[trigger] fs[j]) is Some,
                forall|j: int| 0 <= j < k ==> resolve_field(self.file_names(), #[trigger] fs[j])->Some_0 < self.child_count,
                forall|j: int| 0 <= j < k ==> {
                    &&& (#[trigger] out@[j]).child == resolve_field(self.file_names(), fs[j])->Some_0
                    &&& out@[j].scan.expr is None
                    &&& out@[j].dtype is None
                },
            decreases refs@.len() - k,
        {
            assert(fs[k as int] == refs@[k as int]@);
            let resolved_child = match resolve(&self.dtype.names, &refs[k]) {
                Some(i) => i,
                None => {
                    return Err(VortexError::InvalidArgument);
                },
            };
            if resolved_child >= self.child_count {
                proof {
                    assert(!(resolve_field(self.file_names(), fs[k as int])->Some_0 < self.child_count));
                    assert(!fields_resolve(self.file_names(), fs, self.child_count as nat));
                }
                return Err(VortexError::Corruption);
            }
            out.push(LayoutRead { child: resolved_child, scan: Scan::new(None), dtype: None });
            k += 1;
        }
        Ok(out)
    }

    /// Whether the scan's fields are fields of the file, each with a child layout.
    pub open spec fn fields_resolve_for_scan(&self) -> bool {
        match scan_fields_of(self.scan.view(), self.child_count as nat) {
            Err(_) => false,
            Ok(fs) => {
                &&& self.scan.view() is None ==> self.child_count == self.dtype.names@.len()
                &&& fields_resolve(self.file_names(), fs, self.child_count as nat)
            },
        }
    }

    /// Why the scan's fields do not resolve, where they do not: a scan that asks nothing
    /// of a file with another number of children than fields meets `Corruption`; a field
    /// that the file does not have, `InvalidArgument`; a field without a child layout,
    /// `Corruption`.
    pub open spec fn resolution_error(&self) -> VortexError {
        let fs = scan_fields_of(self.scan.view(), self.child_count as nat)->Ok_0;
        if self.scan.view() is None {
            VortexError::Corruption
        } else if !names_resolve(self.file_names(), fs) {
            VortexError::InvalidArgument
        } else {
            VortexError::Corruption
        }
    }

    /// The plans of the scan's fields that are handled by their own child (`handled`), or of
    /// those that are not.
    pub open spec fn field_plans(&self, handled: bool) -> Seq<ChildPlan> {
        let fs = scan_fields_of(self.scan.view(), self.child_count as nat)->Ok_0;
        plans(
            self.scan.view(),
            self.file_names(),
            fs,
            scan_names(self.file_names(), fs),
            scan_dtypes(self.file_names(), self.file_dtypes(), fs),
            fs.len() as int,
            handled,
        )
    }

    /// The names of the plans as fields.
    pub open spec fn plan_fields(ps: Seq<ChildPlan>) -> Seq<FieldView> {
        Seq::new(ps.len(), |i: int| FieldView::Name(ps[i].name))
    }

    /// Whether a reader is the one planned for this layout's scan. Every handled field is
    /// a child under its name. The fields that are not handled, if there are any, are read
    /// together by one more child, `__unhandled`, under the part of the filter that they
    /// can answer. Where the scan is a row filter, the reader's own filter is the
    /// conjunction of its children's columns, and a child that leaves no row spares the
    /// others.
    pub open spec fn is_planned(&self, r: ColumnBatchReader) -> bool {
        let e = self.scan.view();
        let h = self.field_plans(true);
        let u = self.field_plans(false);
        &&& if u.len() == 0 {
            follows(r.names@, r.children@, h)
        } else {
            &&& r.names@.len() == h.len() + 1
            &&& r.children@.len() == h.len() + 1
            &&& follows(r.names@.subrange(0, h.len() as int), r.children@.subrange(0, h.len() as int), h)
            &&& r.names@[h.len() as int]@ == "__unhandled"@
            &&& r.children@[h.len() as int] is Batch
            &&& {
                let b = r.children@[h.len() as int]->Batch_0;
                &&& follows(b.names@, b.children@, u)
                &&& b.expr is Some
                &&& Some(b.expr->Some_0@) == pushed_down(e, Self::plan_fields(u))
                &&& !b.shortcircuit_siblings
            }
        }
        &&& r.shortcircuit_siblings == (e is Some && e->Some_0 is RowFilter)
        &&& if e is Some && e->Some_0 is RowFilter {
            r.expr is Some && r.expr->Some_0@ == ExprView::RowFilter(columns_of(r.names@))
        } else {
            r.expr is None
        }
    }

    /// Plans the read of the scan's fields. A field that the file does not have is refused
    /// as in [`ColumnLayout::fields_with_dtypes`], one without a child layout with
    /// `Corruption`, and a filter of which the fields that are not handled can answer no
    /// part with `InvalidArgument`.
    #[verifier::rlimit(40)]
    pub fn column_reader(&self) -> (r: Result<ColumnBatchReader, VortexError>)
        requires
            self.dtype.wf(),
        ensures
            r is Ok <==> self.fields_resolve_for_scan() && (self.field_plans(false).len() == 0
                || pushed_down(self.scan.view(), Self::plan_fields(self.field_plans(false))) is Some),
            r is Ok ==> self.is_planned(r->Ok_0),
            scan_fields_of(self.scan.view(), self.child_count as nat) is Err ==> r == Err::<
                ColumnBatchReader,
                VortexError,
            >(scan_fields_of(self.scan.view(), self.child_count as nat)->Err_0),
            self.fields_resolve_for_scan() && r is Err ==> r->Err_0 == VortexError::InvalidArgument,
            scan_fields_of(self.scan.view(), self.child_count as nat) is Ok
                && !self.fields_resolve_for_scan() ==> r is Err && r->Err_0 == self.resolution_error(),
    {
        let (refs, lazy_dtype) = match self.fields_with_dtypes() {
            Ok(x) => x,
            Err(e) => {
                return Err(e);
            },
        };
        let ghost e = self.scan.view();
        let ghost fs = fields_view(refs@);
        let ghost names = scan_names(self.file_names(), fs);
        let ghost dtypes = scan_dtypes(self.file_names(), self.file_dtypes(), fs);
        let mut unhandled_names: Vec<String> = Vec::new();
        let mut unhandled_children: Vec<PlannedChild> = Vec::new();
        let mut handled_children: Vec<PlannedChild> = Vec::new();
        let mut handled_names: Vec<String> = Vec::new();
        let mut k: usize = 0;
        while k < refs.len()
            invariant
                self.dtype.wf(),
                k <= refs@.len(),
                e == self.scan.view(),
                fs == fields_view(refs@),
                scan_fields_of(self.scan.view(), self.child_count as nat) == Ok::<Seq<FieldView>, VortexError>(fs),
                self.scan.view() is None ==> self.child_count == self.dtype.names@.len(),
                names == scan_names(self.file_names(), fs),
                dtypes == scan_dtypes(self.file_names(), self.file_dtypes(), fs),
                lazy_dtype.names@.len() == fs.len(),
                lazy_dtype.wf(),
                names_view(lazy_dtype.names@) == names,
                crate::dtype::dtypes_view(lazy_dtype.dtypes@) == dtypes,
                forall|j: int| 0 <= j < fs.len() ==> resolve_field(self.file_names(), #[trigger] fs[j]) is Some,
                forall|j: int| 0 <= j < k ==> resolve_field(self.file_names(), #[trigger] fs[j])->Some_0 < self.child_count,
                follows(
                    handled_names@,
                    handled_children@,
                    plans(e, self.file_names(), fs, names, dtypes, k as int, true),
                ),
                follows(
                    unhandled_names@,
                    unhandled_children@,
                    plans(e, self.file_names(), fs, names, dtypes, k as int, false),
                ),
            decreases refs@.len() - k,
        {
            assert(fs[k as int] == refs@[k as int]@);
            let field = &refs[k];
            let resolved_child = match resolve(&self.dtype.names, field) {
                Some(i) => i,
                None => {
                    return Err(VortexError::InvalidArgument);
                },
            };
            if resolved_child >= self.child_count {
                proof {
                    assert(!(resolve_field(self.file_names(), fs[k as int])->Some_0 < self.child_count));
                    assert(!fields_resolve(self.file_names(), fs, self.child_count as nat));
                }
                return Err(VortexError::Corruption);
            }
            let projected = match &self.scan.expr {
                Some(x) => {
                    let mut one: Vec<Field> = Vec::new();
                    one.push(field.clone());
                    assert(fields_view(one@) =~= seq![field@]);
                    expr_project(x, &one)
                },
                None => None,
            };
            let handled = self.scan.expr.is_none() || projected.is_some();
            let name = lazy_dtype.names[k].clone();
            let dtype = lazy_dtype.dtypes[k].clone();
            proof {
                assert(names_view(lazy_dtype.names@)[k as int] == lazy_dtype.names@[k as int]@);
                assert(crate::dtype::dtypes_view(lazy_dtype.dtypes@)[k as int] == lazy_dtype.dtypes@[k as int]@);
            }
            let child = PlannedChild::Layout(
                LayoutRead { child: resolved_child, scan: Scan::new(projected), dtype: Some(dtype) },
            );
            proof {
                assert(reads_as(child, child_plan(e, self.file_names(), fs, names, dtypes, k as int)));
            }
            if handled {
                handled_children.push(child);
                handled_names.push(name);
            } else {
                unhandled_children.push(child);
                unhandled_names.push(name);
            }
            k += 1;
        }
        let ghost h = plans(e, self.file_names(), fs, names, dtypes, fs.len() as int, true);
        let ghost u = plans(e, self.file_names(), fs, names, dtypes, fs.len() as int, false);
        proof {
            assert(self.scan.view() is None ==> self.child_count == self.dtype.names@.len());
            assert(self.fields_resolve_for_scan());
        }
        if unhandled_names.len() > 0 {
            let mut fields: Vec<Field> = Vec::new();
            let mut i: usize = 0;
            while i < unhandled_names.len()
                invariant
                    i <= unhandled_names@.len(),
                    fields@.len() == i,
                    forall|j: int| 0 <= j < i ==> (#[trigger] fields@[j])@ == FieldView::Name(unhandled_names@[j]@),
                decreases unhandled_names@.len() - i,
            {
                fields.push(Field::Name(unhandled_names[i].clone()));
                i += 1;
            }
            proof {
                assert(fields_view(fields@) =~= Self::plan_fields(u));
            }
            let prf = match &self.scan.expr {
                Some(x) => expr_project(x, &fields),
                None => None,
            };
            let prf = match prf {
                Some(p) => p,
                None => {
                    return Err(VortexError::InvalidArgument);
                },
            };
            let ghost before_names = handled_names@;
            let ghost before_children = handled_children@;
            handled_children.push(
                PlannedChild::Batch(
                    ColumnBatchReader {
                        names: unhandled_names,
                        children: unhandled_children,
                        expr: Some(prf),
                        shortcircuit_siblings: false,
                    },
                ),
            );
            handled_names.push("__unhandled".to_owned());
            proof {
                assert(handled_names@.subrange(0, h.len() as int) =~= before_names);
                assert(handled_children@.subrange(0, h.len() as int) =~= before_children);
            }
        }
        let is_row_filter = match &self.scan.expr {
            Some(VortexExpr::RowFilter(_)) => true,
            _ => false,
        };
        let top_level_expr = if is_row_filter {
            let mut columns: Vec<VortexExpr> = Vec::new();
            let mut i: usize = 0;
            while i < handled_names.len()
                invariant
                    i <= handled_names@.len(),
                    columns@.len() == i,
                    forall|j: int| 0 <= j < i ==> (#[trigger] columns@[j]).model() == ExprView::Column(
                        FieldView::Name(handled_names@[j]@),
                    ),
                decreases handled_names@.len() - i,
            {
                columns.push(VortexExpr::Column(Field::Name(handled_names[i].clone())));
                i += 1;
            }
            assert(exprs_view(columns@) =~= columns_of(handled_names@));
            Some(VortexExpr::RowFilter(RowFilter::from_conjunction(columns)))
        } else {
            None
        };
        let shortcircuit_siblings = top_level_expr.is_some();
        Ok(
            ColumnBatchReader {
                names: handled_names,
                children: handled_children,
                expr: top_level_expr,
                shortcircuit_siblings,
            },
        )
    }

    /// Plans the read once: a layout that has its reader keeps it.
    pub fn prepare(&mut self) -> (r: Result<(), VortexError>)
        requires
            old(self).dtype.wf(),
        ensures
            final(self).dtype == old(self).dtype,
            final(self).child_count == old(self).child_count,
            final(self).scan == old(self).scan,
            old(self).reader is Some ==> r is Ok && final(self).reader == old(self).reader,
            old(self).reader is None ==> (r is Ok <==> old(self).fields_resolve_for_scan() && (old(
                self,
            ).field_plans(false).len() == 0 || pushed_down(
                old(self).scan.view(),
                Self::plan_fields(old(self).field_plans(false)),
            ) is Some)),
            old(self).reader is None && r is Ok ==> final(self).reader is Some && old(self).is_planned(
                final(self).reader->Some_0,
            ),
            r is Err ==> final(self).reader is None,
    {
        if self.reader.is_some() {
            return Ok(());
        }
        match self.column_reader() {
            Ok(reader) => {
                self.reader = Some(reader);
                Ok(())
            },
            Err(e) => Err(e),
        }
    }
}

} // verus!
