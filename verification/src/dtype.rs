//! Logical data types: what the elements of an array are, whatever their encoding.

use vstd::prelude::*;

use crate::error::VortexError;

verus! {

/// Whether a type admits null elements.
#[derive(Clone, Copy, Debug, PartialEq, Eq, Structural, Hash)]
pub enum Nullability {
    NonNullable,
    Nullable,
}

/// The primitive element types. Integers are held by value; floats by their IEEE bit pattern.
#[derive(Clone, Copy, Debug, PartialEq, Eq, Structural, Hash)]
pub enum PType {
    U8,
    U16,
    U32,
    U64,
    I8,
    I16,
    I32,
    I64,
    F16,
    F32,
    F64,
}

impl PType {
    pub open spec fn spec_is_unsigned_int(self) -> bool {
        self == PType::U8 || self == PType::U16 || self == PType::U32 || self == PType::U64
    }

    pub open spec fn spec_is_signed_int(self) -> bool {
        self == PType::I8 || self == PType::I16 || self == PType::I32 || self == PType::I64
    }

    pub open spec fn spec_is_int(self) -> bool {
        self.spec_is_unsigned_int() || self.spec_is_signed_int()
    }

    pub open spec fn spec_is_float(self) -> bool {
        self == PType::F16 || self == PType::F32 || self == PType::F64
    }

    /// The width of one value in bytes.
    pub open spec fn spec_byte_width(self) -> int {
        match self {
            PType::U8 | PType::I8 => 1,
            PType::U16 | PType::I16 | PType::F16 => 2,
            PType::U32 | PType::I32 | PType::F32 => 4,
            PType::U64 | PType::I64 | PType::F64 => 8,
        }
    }

    /// The least carrier value of the type. Floats are carried as their bits, so theirs is zero.
    pub open spec fn spec_min(self) -> int {
        match self {
            PType::I8 => -0x80,
            PType::I16 => -0x8000,
            PType::I32 => -0x8000_0000,
            PType::I64 => -0x8000_0000_0000_0000,
            _ => 0,
        }
    }

    /// The greatest carrier value of the type.
    pub open spec fn spec_max(self) -> int {
        match self {
            PType::U8 => 0xff,
            PType::U16 | PType::F16 => 0xffff,
            PType::U32 | PType::F32 => 0xffff_ffff,
            PType::U64 | PType::F64 => 0xffff_ffff_ffff_ffff,
            PType::I8 => 0x7f,
            PType::I16 => 0x7fff,
            PType::I32 => 0x7fff_ffff,
            PType::I64 => 0x7fff_ffff_ffff_ffff,
        }
    }

    /// Whether `v` is a carrier value of the type.
    pub open spec fn holds(self, v: int) -> bool {
        self.spec_min() <= v <= self.spec_max()
    }

    #[verifier::when_used_as_spec(spec_is_unsigned_int)]
    pub fn is_unsigned_int(self) -> (r: bool)
        ensures r == self.spec_is_unsigned_int(),
    {
        match self {
            PType::U8 | PType::U16 | PType::U32 | PType::U64 => true,
            _ => false,
        }
    }

    #[verifier::when_used_as_spec(spec_is_signed_int)]
    pub fn is_signed_int(self) -> (r: bool)
        ensures r == self.spec_is_signed_int(),
    {
        match self {
            PType::I8 | PType::I16 | PType::I32 | PType::I64 => true,
            _ => false,
        }
    }

    #[verifier::when_used_as_spec(spec_is_int)]
    pub fn is_int(self) -> (r: bool)
        ensures r == self.spec_is_int(),
    {
        self.is_unsigned_int() || self.is_signed_int()
    }

    #[verifier::when_used_as_spec(spec_is_float)]
    pub fn is_float(self) -> (r: bool)
        ensures r == self.spec_is_float(),
    {
        match self {
            PType::F16 | PType::F32 | PType::F64 => true,
            _ => false,
        }
    }

    pub fn byte_width(self) -> (r: usize)
        ensures r == self.spec_byte_width(),
    {
        match self {
            PType::U8 | PType::I8 => 1,
            PType::U16 | PType::I16 | PType::F16 => 2,
            PType::U32 | PType::I32 | PType::F32 => 4,
            PType::U64 | PType::I64 | PType::F64 => 8,
        }
    }

    pub fn min_value(self) -> (r: i128)
        ensures r == self.spec_min(),
    {
        match self {
            PType::I8 => -0x80,
            PType::I16 => -0x8000,
            PType::I32 => -0x8000_0000,
            PType::I64 => -0x8000_0000_0000_0000,
            _ => 0,
        }
    }

    pub fn max_value(self) -> (r: i128)
        ensures r == self.spec_max(),
    {
        match self {
            PType::U8 => 0xff,
            PType::U16 | PType::F16 => 0xffff,
            PType::U32 | PType::F32 => 0xffff_ffff,
            PType::U64 | PType::F64 => 0xffff_ffff_ffff_ffff,
            PType::I8 => 0x7f,
            PType::I16 => 0x7fff,
            PType::I32 => 0x7fff_ffff,
            PType::I64 => 0x7fff_ffff_ffff_ffff,
        }
    }

    /// Whether `v` lies in the type's range.
    pub fn in_range(self, v: i128) -> (r: bool)
        ensures r == self.holds(v as int),
    {
        self.min_value() <= v && v <= self.max_value()
    }
}

/// Whether two byte strings hold the same bytes.
pub fn bytes_eq(a: &Vec<u8>, b: &Vec<u8>) -> (r: bool)
    ensures r == (a@ == b@),
{
    if a.len() != b.len() {
        return false;
    }
    let mut i: usize = 0;
    while i < a.len()
        invariant
            i <= a.len(),
            a.len() == b.len(),
            forall|j: int| 0 <= j < i ==> a@[j] == b@[j],
        decreases a.len() - i,
    {
        if a[i] != b[i] {
            return false;
        }
        i += 1;
    }
    assert(a@ =~= b@);
    true
}

/// A field of a struct, by name or by position.
#[derive(Debug)]
pub enum Field {
    Name(String),
    Index(usize),
}

/// What a [`Field`] is in specifications.
pub enum FieldView {
    Name(Seq<char>),
    Index(int),
}

impl View for Field {
    type V = FieldView;

    open spec fn view(&self) -> FieldView {
        match self {
            Field::Name(n) => FieldView::Name(n@),
            Field::Index(i) => FieldView::Index(*i as int),
        }
    }
}

impl Field {
    pub fn clone(&self) -> (r: Field)
        ensures r@ == self@,
    {
        match self {
            Field::Name(n) => Field::Name(n.clone()),
            Field::Index(i) => Field::Index(*i),
        }
    }

    pub fn eq(&self, other: &Field) -> (r: bool)
        ensures r == (self@ == other@),
    {
        match (self, other) {
            (Field::Name(a), Field::Name(b)) => *a == *b,
            (Field::Index(a), Field::Index(b)) => *a == *b,
            _ => false,
        }
    }
}

/// The views of a sequence of names.
pub open spec fn names_view(names: Seq<String>) -> Seq<Seq<char>> {
    Seq::new(names.len(), |i: int| names[i]@)
}

/// The views of a sequence of fields.
pub open spec fn fields_view(fields: Seq<Field>) -> Seq<FieldView> {
    Seq::new(fields.len(), |i: int| fields[i]@)
}

/// The first position at or after `from` that holds `name`.
pub open spec fn first_named(names: Seq<Seq<char>>, name: Seq<char>, from: int) -> Option<int>
    decreases names.len() - from,
{
    if from < 0 || from >= names.len() {
        None
    } else if names[from] == name {
        Some(from)
    } else {
        first_named(names, name, from + 1)
    }
}

/// The position of the field that `f` names or numbers.
pub open spec fn resolve_field(names: Seq<Seq<char>>, f: FieldView) -> Option<int> {
    match f {
        FieldView::Name(n) => first_named(names, n, 0),
        FieldView::Index(i) => if 0 <= i < names.len() {
            Some(i)
        } else {
            None
        },
    }
}

/// A field that resolves resolves to a position among the names.
pub proof fn lemma_resolve_bounds(names: Seq<Seq<char>>, f: FieldView)
    requires
        resolve_field(names, f) is Some,
    ensures
        0 <= resolve_field(names, f)->Some_0 < names.len(),
{
    match f {
        FieldView::Name(n) => lemma_first_named_bounds(names, n, 0),
        FieldView::Index(_) => {},
    }
}

/// The first position that holds a name lies among the names, at or after `from`.
pub proof fn lemma_first_named_bounds(names: Seq<Seq<char>>, name: Seq<char>, from: int)
    requires
        first_named(names, name, from) is Some,
    ensures
        0 <= from <= first_named(names, name, from)->Some_0 < names.len(),
        names[first_named(names, name, from)->Some_0] == name,
    decreases names.len() - from,
{
    if 0 <= from < names.len() && names[from] != name {
        lemma_first_named_bounds(names, name, from + 1);
    }
}

/// The position of the first field called `name`.
pub fn find_name(names: &Vec<String>, name: &String) -> (r: Option<usize>)
    ensures
        r is Some <==> first_named(names_view(names@), name@, 0) is Some,
        r is Some ==> r->Some_0 == first_named(names_view(names@), name@, 0)->Some_0 && r->Some_0
            < names@.len(),
{
    let ghost nv = names_view(names@);
    let mut i: usize = 0;
    while i < names.len()
        invariant
            i <= names@.len(),
            nv == names_view(names@),
            first_named(nv, name@, 0) == first_named(nv, name@, i as int),
        decreases names@.len() - i,
    {
        if names[i] == *name {
            assert(nv[i as int] == name@);
            return Some(i);
        }
        assert(nv[i as int] != name@);
        i += 1;
    }
    None
}

/// The position of a field among names.
pub fn resolve(names: &Vec<String>, field: &Field) -> (r: Option<usize>)
    ensures
        r is Some <==> resolve_field(names_view(names@), field@) is Some,
        r is Some ==> r->Some_0 == resolve_field(names_view(names@), field@)->Some_0 && r->Some_0
            < names@.len(),
{
    match field {
        Field::Name(n) => find_name(names, n),
        Field::Index(i) => {
            if *i < names.len() {
                Some(*i)
            } else {
                None
            }
        },
    }
}

/// The names and types of a struct's fields, in order.
#[derive(Debug)]
pub struct StructDType {
    pub names: Vec<String>,
    pub dtypes: Vec<DType>,
}

impl StructDType {
    /// As many names as dtypes.
    pub open spec fn wf(self) -> bool {
        self.names@.len() == self.dtypes@.len()
    }

    pub fn names(&self) -> (r: &Vec<String>)
        ensures *r == self.names,
    {
        &self.names
    }

    pub fn dtypes(&self) -> (r: &Vec<DType>)
        ensures *r == self.dtypes,
    {
        &self.dtypes
    }

    /// The fields chosen by `projection`, in its order. A field that the struct does not
    /// have is refused with `InvalidArgument`.
    pub fn project(&self, projection: &Vec<Field>) -> (r: Result<StructDType, VortexError>)
        requires
            self.wf(),
        ensures
            r is Ok <==> forall|k: int| 0 <= k < projection@.len() ==> resolve_field(
                names_view(self.names@),
                #[trigger] projection@[k]@,
            ) is Some,
            r is Err ==> r->Err_0 == VortexError::InvalidArgument,
            r is Ok ==> {
                &&& r->Ok_0.wf()
                &&& r->Ok_0.names@.len() == projection@.len()
                &&& forall|k: int| 0 <= k < projection@.len() ==> (#[trigger] r->Ok_0.names@[k])@
                    == self.names@[resolve_field(names_view(self.names@), projection@[k]@)->Some_0]@
                &&& forall|k: int| 0 <= k < projection@.len() ==> (#[trigger] r->Ok_0.dtypes@[k])@
                    == self.dtypes@[resolve_field(names_view(self.names@), projection@[k]@)->Some_0]@
            },
    {
        let mut names: Vec<String> = Vec::new();
        let mut dtypes: Vec<DType> = Vec::new();
        let mut k: usize = 0;
        while k < projection.len()
            invariant
                self.wf(),
                k <= projection@.len(),
                names@.len() == k,
                dtypes@.len() == k,
                forall|j: int| 0 <= j < k ==> resolve_field(names_view(self.names@), #[trigger] projection@[j]@) is Some,
                forall|j: int| 0 <= j < k ==> (#[trigger] names@[j])@
                    == self.names@[resolve_field(names_view(self.names@), projection@[j]@)->Some_0]@,
                forall|j: int| 0 <= j < k ==> (#[trigger] dtypes@[j])@
                    == self.dtypes@[resolve_field(names_view(self.names@), projection@[j]@)->Some_0]@,
            decreases projection@.len() - k,
        {
            match resolve(&self.names, &projection[k]) {
                Some(idx) => {
                    names.push(self.names[idx].clone());
                    dtypes.push(self.dtypes[idx].clone());
                },
                None => {
                    return Err(VortexError::InvalidArgument);
                },
            }
            k += 1;
        }
        Ok(StructDType { names, dtypes })
    }
}

/// An extension type: an identifier and metadata over a storage type.
#[derive(Debug)]
pub struct ExtDType {
    pub id: String,
    pub storage: Box<DType>,
    pub metadata: Vec<u8>,
}

/// The logical type of an array's elements.
#[derive(Debug)]
pub enum DType {
    Null,
    Bool(Nullability),
    Primitive(PType, Nullability),
    Utf8(Nullability),
    Binary(Nullability),
    Struct(StructDType, Nullability),
    List(Box<DType>, Nullability),
    Extension(ExtDType),
}

/// What a [`DType`] is in specifications. Two dtypes are equal when their views are.
pub enum DTypeView {
    Null,
    Bool(Nullability),
    Primitive(PType, Nullability),
    Utf8(Nullability),
    Binary(Nullability),
    Struct(Seq<Seq<char>>, Seq<DTypeView>, Nullability),
    List(Box<DTypeView>, Nullability),
    Extension(Seq<char>, Box<DTypeView>, Seq<u8>),
}

impl DTypeView {
    pub open spec fn nullability(self) -> Nullability
        decreases self,
    {
        match self {
            DTypeView::Null => Nullability::Nullable,
            DTypeView::Bool(n) => n,
            DTypeView::Primitive(_, n) => n,
            DTypeView::Utf8(n) => n,
            DTypeView::Binary(n) => n,
            DTypeView::Struct(_, _, n) => n,
            DTypeView::List(_, n) => n,
            DTypeView::Extension(_, storage, _) => storage.nullability(),
        }
    }

    pub open spec fn is_nullable(self) -> bool {
        self.nullability() == Nullability::Nullable
    }

    /// A non-nullable or nullable integer type.
    pub open spec fn is_int(self) -> bool {
        match self {
            DTypeView::Primitive(p, _) => p.spec_is_int(),
            _ => false,
        }
    }

    /// The type of raw bytes: non-nullable `u8`.
    pub open spec fn bytes() -> DTypeView {
        DTypeView::Primitive(PType::U8, Nullability::NonNullable)
    }
}

/// The views of a sequence of dtypes.
pub open spec fn dtypes_view(dtypes: Seq<DType>) -> Seq<DTypeView>
    decreases dtypes,
{
    Seq::new(
        dtypes.len(),
        |i: int|
            if 0 <= i < dtypes.len() {
                dtypes[i].model()
            } else {
                DTypeView::Null
            },
    )
}

impl DType {
    /// The dtype as a mathematical value.
    pub open spec fn model(self) -> DTypeView
        decreases self,
    {
        match self {
            DType::Null => DTypeView::Null,
            DType::Bool(n) => DTypeView::Bool(n),
            DType::Primitive(p, n) => DTypeView::Primitive(p, n),
            DType::Utf8(n) => DTypeView::Utf8(n),
            DType::Binary(n) => DTypeView::Binary(n),
            DType::Struct(s, n) => DTypeView::Struct(
                names_view(s.names@),
                dtypes_view(s.dtypes@),
                n,
            ),
            DType::List(e, n) => DTypeView::List(Box::new((*e).model()), n),
            DType::Extension(e) => DTypeView::Extension(
                e.id@,
                Box::new((*e.storage).model()),
                e.metadata@,
            ),
        }
    }
}

impl DType {
    /// The type of raw bytes: non-nullable `u8`.
    pub fn bytes() -> (r: DType)
        ensures r@ == DTypeView::bytes(),
    {
        DType::Primitive(PType::U8, Nullability::NonNullable)
    }

    pub fn nullability(&self) -> (r: Nullability)
        ensures r == self@.nullability(),
        decreases self,
    {
        match self {
            DType::Null => Nullability::Nullable,
            DType::Bool(n) => *n,
            DType::Primitive(_, n) => *n,
            DType::Utf8(n) => *n,
            DType::Binary(n) => *n,
            DType::Struct(_, n) => *n,
            DType::List(_, n) => *n,
            DType::Extension(e) => e.storage.nullability(),
        }
    }

    pub fn is_nullable(&self) -> (r: bool)
        ensures r == self@.is_nullable(),
    {
        match self.nullability() {
            Nullability::Nullable => true,
            Nullability::NonNullable => false,
        }
    }

    pub fn is_int(&self) -> (r: bool)
        ensures r == self@.is_int(),
    {
        match self {
            DType::Primitive(p, _) => p.is_int(),
            _ => false,
        }
    }

    /// The fields of a struct type.
    pub fn as_struct(&self) -> (r: Option<&StructDType>)
        ensures
            r is Some <==> self is Struct,
            r is Some ==> *r->Some_0 == self->Struct_0,
    {
        match self {
            DType::Struct(s, _) => Some(s),
            _ => None,
        }
    }

    /// A deep copy.
    #[verifier::loop_isolation(false)]
    pub fn clone(&self) -> (r: DType)
        ensures r@ == self@,
        decreases self,
    {
        match self {
            DType::Null => DType::Null,
            DType::Bool(n) => DType::Bool(*n),
            DType::Primitive(p, n) => DType::Primitive(*p, *n),
            DType::Utf8(n) => DType::Utf8(*n),
            DType::Binary(n) => DType::Binary(*n),
            DType::Struct(s, n) => {
                let mut names: Vec<String> = Vec::new();
                let mut dtypes: Vec<DType> = Vec::new();
                let mut i: usize = 0;
                while i < s.names.len()
                    invariant
                        i <= s.names.len(),
                        names@.len() == i,
                        forall|j: int| 0 <= j < i ==> names@[j]@ == s.names@[j]@,
                    decreases s.names.len() - i,
                {
                    names.push(s.names[i].clone());
                    i += 1;
                }
                let mut k: usize = 0;
                while k < s.dtypes.len()
                    invariant
                        self is Struct,
                        *s == self->Struct_0,
                        k <= s.dtypes.len(),
                        dtypes@.len() == k,
                        forall|j: int| 0 <= j < k ==> dtypes@[j].model() == s.dtypes@[j].model(),
                    decreases s.dtypes.len() - k,
                {
                    proof {
                        vstd::std_specs::vec::axiom_vec_index_decreases(s.dtypes, k as int);
                        assert(decreases_to!(*self => self->Struct_0));
                    }
                    let d = s.dtypes[k].clone();
                    dtypes.push(d);
                    k += 1;
                }
                assert(names_view(names@) =~= names_view(s.names@));
                assert(dtypes_view(dtypes@) =~= dtypes_view(s.dtypes@));
                DType::Struct(StructDType { names, dtypes }, *n)
            },
            DType::List(e, n) => DType::List(Box::new((**e).clone()), *n),
            DType::Extension(e) => DType::Extension(
                ExtDType {
                    id: e.id.clone(),
                    storage: Box::new((*e.storage).clone()),
                    metadata: e.metadata.clone(),
                },
            ),
        }
    }

    /// Structural equality.
    #[verifier::loop_isolation(false)]
    pub fn eq(&self, other: &DType) -> (r: bool)
        ensures r == (self@ == other@),
        decreases self,
    {
        match (self, other) {
            (DType::Null, DType::Null) => true,
            (DType::Bool(a), DType::Bool(b)) => *a == *b,
            (DType::Primitive(p, a), DType::Primitive(q, b)) => *p == *q && *a == *b,
            (DType::Utf8(a), DType::Utf8(b)) => *a == *b,
            (DType::Binary(a), DType::Binary(b)) => *a == *b,
            (DType::Struct(s, a), DType::Struct(t, b)) => {
                if *a != *b || s.names.len() != t.names.len() || s.dtypes.len() != t.dtypes.len() {
                    assert(names_view(s.names@).len() == s.names@.len());
                    assert(dtypes_view(s.dtypes@).len() == s.dtypes@.len());
                    assert(names_view(t.names@).len() == t.names@.len());
                    assert(dtypes_view(t.dtypes@).len() == t.dtypes@.len());
                    return false;
                }
                let mut i: usize = 0;
                while i < s.names.len()
                    invariant
                        i <= s.names.len(),
                        s.names.len() == t.names.len(),
                        forall|j: int| 0 <= j < i ==> s.names@[j]@ == t.names@[j]@,
                    decreases s.names.len() - i,
                {
                    if s.names[i] != t.names[i] {
                        assert(names_view(s.names@)[i as int] != names_view(t.names@)[i as int]);
                        return false;
                    }
                    i += 1;
                }
                let mut k: usize = 0;
                while k < s.dtypes.len()
                    invariant
                        self is Struct,
                        *s == self->Struct_0,
                        k <= s.dtypes.len(),
                        s.dtypes.len() == t.dtypes.len(),
                        forall|j: int| 0 <= j < k ==> s.dtypes@[j].model() == t.dtypes@[j].model(),
                    decreases s.dtypes.len() - k,
                {
                    proof {
                        vstd::std_specs::vec::axiom_vec_index_decreases(s.dtypes, k as int);
                        assert(decreases_to!(*self => self->Struct_0));
                    }
                    if !s.dtypes[k].eq(&t.dtypes[k]) {
                        assert(dtypes_view(s.dtypes@)[k as int] != dtypes_view(t.dtypes@)[k as int]);
                        return false;
                    }
                    k += 1;
                }
                assert(names_view(s.names@) =~= names_view(t.names@));
                assert(dtypes_view(s.dtypes@) =~= dtypes_view(t.dtypes@));
                true
            },
            (DType::List(e, a), DType::List(f, b)) => *a == *b && (**e).eq(&**f),
            (DType::Extension(e), DType::Extension(f)) => {
                e.id == f.id && (*e.storage).eq(&*f.storage) && bytes_eq(&e.metadata, &f.metadata)
            },
            _ => false,
        }
    }
}

impl View for DType {
    type V = DTypeView;

    open spec fn view(&self) -> DTypeView {
        self.model()
    }
}

} // verus!
