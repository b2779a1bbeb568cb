//! The FSST string encoding: a symbol table, and one string of codes per element.
//!
//! Training the table and decoding the codes are the codec's part; here is what the
//! encoding holds and what must hold of it.

use vstd::prelude::*;

use crate::array::{ArrayData, EncodingId};
use crate::dtype::{DType, DTypeView, Nullability, PType};
use crate::error::VortexError;
use crate::validity::Validity;

verus! {

/// What an FSST array records beside its children.
#[derive(Debug)]
pub struct FSSTMetadata {
    pub symbols_len: usize,
    pub codes_nullability: Nullability,
    pub uncompressed_lengths_ptype: PType,
}

/// Strings compressed against a table of at most 255 symbols of up to eight bytes.
#[derive(Debug)]
pub struct FSSTArray {
    pub dtype: DType,
    pub symbols: ArrayData,
    pub symbol_lengths: ArrayData,
    pub codes: ArrayData,
    pub uncompressed_lengths: ArrayData,
}

/// The dtype of symbols: non-nullable `u64`.
pub open spec fn symbols_dtype() -> DTypeView {
    DTypeView::Primitive(PType::U64, Nullability::NonNullable)
}

/// The dtype of symbol lengths: non-nullable `u8`.
pub open spec fn symbol_lens_dtype() -> DTypeView {
    DTypeView::Primitive(PType::U8, Nullability::NonNullable)
}

/// What must hold of the children of an FSST array.
pub open spec fn fsst_parts_ok(
    symbols: ArrayData,
    symbol_lengths: ArrayData,
    codes: ArrayData,
    uncompressed_lengths: ArrayData,
) -> bool {
    &&& symbols.dtype_spec() == symbols_dtype()
    &&& symbol_lengths.dtype_spec() == symbol_lens_dtype()
    &&& symbols.elements().len() <= 255
    &&& symbols.elements().len() == symbol_lengths.elements().len()
    &&& uncompressed_lengths.elements().len() == codes.elements().len()
    &&& uncompressed_lengths.dtype_spec().is_int() && !uncompressed_lengths.dtype_spec().is_nullable()
    &&& codes is VarBin
    &&& codes.dtype_spec() is Binary
}

impl FSSTArray {
    pub open spec fn wf(self) -> bool {
        &&& self.symbols.wf()
        &&& self.symbol_lengths.wf()
        &&& self.codes.wf()
        &&& self.uncompressed_lengths.wf()
        &&& fsst_parts_ok(self.symbols, self.symbol_lengths, self.codes, self.uncompressed_lengths)
    }

    /// Builds an FSST array from its symbol table, its codes and the lengths of the strings
    /// before compression. Symbols must be non-nullable `u64` and their lengths non-nullable
    /// `u8`, as many of one as of the other and 255 at most; the codes must be a varbin
    /// array of binary dtype, with one uncompressed length, a non-nullable integer, for
    /// each: else `InvalidArgument`.
    pub fn try_new(
        dtype: DType,
        symbols: ArrayData,
        symbol_lengths: ArrayData,
        codes: ArrayData,
        uncompressed_lengths: ArrayData,
    ) -> (r: Result<FSSTArray, VortexError>)
        requires
            symbols.wf(),
            symbol_lengths.wf(),
            codes.wf(),
            uncompressed_lengths.wf(),
        ensures
            r is Ok <==> fsst_parts_ok(symbols, symbol_lengths, codes, uncompressed_lengths),
            r is Err ==> r->Err_0 == VortexError::InvalidArgument,
            r is Ok ==> {
                &&& r->Ok_0.wf()
                &&& r->Ok_0.dtype == dtype
                &&& r->Ok_0.symbols == symbols
                &&& r->Ok_0.symbol_lengths == symbol_lengths
                &&& r->Ok_0.codes == codes
                &&& r->Ok_0.uncompressed_lengths == uncompressed_lengths
            },
    {
        let symbols_expected = DType::Primitive(PType::U64, Nullability::NonNullable);
        if !symbols.dtype().eq(&symbols_expected) {
            return Err(VortexError::InvalidArgument);
        }
        let lens_expected = DType::Primitive(PType::U8, Nullability::NonNullable);
        if !symbol_lengths.dtype().eq(&lens_expected) {
            return Err(VortexError::InvalidArgument);
        }
        if symbols.len() > 255 {
            return Err(VortexError::InvalidArgument);
        }
        if symbols.len() != symbol_lengths.len() {
            return Err(VortexError::InvalidArgument);
        }
        if uncompressed_lengths.len() != codes.len() {
            return Err(VortexError::InvalidArgument);
        }
        let lengths_dtype = uncompressed_lengths.dtype();
        if !lengths_dtype.is_int() || lengths_dtype.is_nullable() {
            return Err(VortexError::InvalidArgument);
        }
        if !codes.is_encoding(EncodingId::VarBin) {
            return Err(VortexError::InvalidArgument);
        }
        match codes.dtype() {
            DType::Binary(_) => {},
            _ => {
                return Err(VortexError::InvalidArgument);
            },
        }
        Ok(FSSTArray { dtype, symbols, symbol_lengths, codes, uncompressed_lengths })
    }

    /// The number of strings.
    pub fn len(&self) -> (r: usize)
        requires
            self.wf(),
        ensures
            r == self.codes.elements().len(),
    {
        self.codes.len()
    }

    /// What the array records beside its children.
    pub fn metadata(&self) -> (r: FSSTMetadata)
        requires
            self.wf(),
        ensures
            r.symbols_len == self.symbols.elements().len(),
            r.codes_nullability == self.codes.dtype_spec().nullability(),
            self.uncompressed_lengths.dtype_spec() == DTypeView::Primitive(
                r.uncompressed_lengths_ptype,
                Nullability::NonNullable,
            ),
    {
        let uncompressed_lengths_ptype = match self.uncompressed_lengths.dtype() {
            DType::Primitive(p, _) => p,
            _ => PType::U64,
        };
        FSSTMetadata {
            symbols_len: self.symbols.len(),
            codes_nullability: self.codes.dtype().nullability(),
            uncompressed_lengths_ptype,
        }
    }

    /// The symbol table.
    pub fn symbols(&self) -> (r: &ArrayData)
        ensures *r == self.symbols,
    {
        &self.symbols
    }

    /// The length in bytes of each symbol.
    pub fn symbol_lengths(&self) -> (r: &ArrayData)
        ensures *r == self.symbol_lengths,
    {
        &self.symbol_lengths
    }

    /// The codes: one binary string per element.
    pub fn codes(&self) -> (r: &ArrayData)
        ensures *r == self.codes,
    {
        &self.codes
    }

    /// The dtype of the codes.
    pub fn codes_dtype(&self) -> (r: DType)
        requires
            self.wf(),
        ensures
            r@ == DTypeView::Binary(self.codes.dtype_spec().nullability()),
            r@ == self.codes.dtype_spec(),
    {
        DType::Binary(self.codes.dtype().nullability())
    }

    /// The length of each string before compression.
    pub fn uncompressed_lengths(&self) -> (r: &ArrayData)
        ensures *r == self.uncompressed_lengths,
    {
        &self.uncompressed_lengths
    }

    /// The dtype of the uncompressed lengths.
    pub fn uncompressed_lengths_dtype(&self) -> (r: DType)
        requires
            self.wf(),
        ensures
            r@ == self.uncompressed_lengths.dtype_spec(),
    {
        self.uncompressed_lengths.dtype()
    }

    /// The validity of the strings: that of the codes.
    pub fn validity(&self) -> (r: Validity)
        requires
            self.wf(),
        ensures
            r.spec_nullability() == self.codes->VarBin_0.validity.spec_nullability(),
            r is Array == self.codes->VarBin_0.validity is Array,
            forall|i: int| r.valid_at(i) == self.codes->VarBin_0.validity.valid_at(i),
            r.wf(self.codes.elements().len() as int),
    {
        match &self.codes {
            ArrayData::VarBin(codes) => codes.validity(),
            _ => Validity::NonNullable,
        }
    }

    /// Whether string `index` is present.
    pub fn is_valid(&self, index: usize) -> (r: bool)
        requires
            self.wf(),
            index < self.codes.elements().len(),
        ensures
            r == self.codes->VarBin_0.validity.valid_at(index as int),
    {
        match &self.codes {
            ArrayData::VarBin(codes) => codes.validity.is_valid(index),
            _ => true,
        }
    }

    /// The children in the order in which a visitor meets them: symbols, symbol lengths,
    /// codes, uncompressed lengths.
    pub fn children(&self) -> (r: Vec<&ArrayData>)
        ensures
            r@.len() == 4,
            *r@[0] == self.symbols,
            *r@[1] == self.symbol_lengths,
            *r@[2] == self.codes,
            *r@[3] == self.uncompressed_lengths,
    {
        let mut out: Vec<&ArrayData> = Vec::new();
        out.push(&self.symbols);
        out.push(&self.symbol_lengths);
        out.push(&self.codes);
        out.push(&self.uncompressed_lengths);
        out
    }
}

} // verus!
