//! The metadata that an encoding keeps beside its children.

use vstd::prelude::*;

use crate::array::{EncodingId, VarBinArray};
use crate::dtype::PType;
use crate::encodings::fsst::FSSTMetadata;
use crate::validity::Validity;

verus! {

/// How a validity is recorded in metadata.
#[derive(Clone, Copy, Debug, PartialEq, Eq, Structural, Hash)]
pub enum ValidityMetadata {
    NonNullable,
    AllValid,
    AllInvalid,
    Array,
}

/// What a varbin array records beside its children.
#[derive(Debug)]
pub struct VarBinMetadata {
    pub validity: ValidityMetadata,
    pub offsets_ptype: PType,
    pub bytes_len: usize,
}

/// The metadata of an encoding.
pub trait ArrayMetadata {
    /// The encoding whose metadata this is.
    spec fn spec_encoding(&self) -> EncodingId;

    fn encoding(&self) -> (r: EncodingId)
        ensures
            r == self.spec_encoding(),
    ;
}

/// An array that can give its metadata.
pub trait GetArrayMetadata {
    type Metadata: ArrayMetadata;

    /// The metadata of the array.
    spec fn spec_metadata(&self) -> Self::Metadata;

    fn metadata(&self) -> (r: Self::Metadata)
        ensures
            r == self.spec_metadata(),
    ;
}

/// How a validity is recorded in metadata.
pub open spec fn validity_metadata(validity: Validity) -> ValidityMetadata {
    match validity {
        Validity::NonNullable => ValidityMetadata::NonNullable,
        Validity::AllValid => ValidityMetadata::AllValid,
        Validity::AllInvalid => ValidityMetadata::AllInvalid,
        Validity::Array(_) => ValidityMetadata::Array,
    }
}

impl Validity {
    /// How the validity is recorded in metadata.
    pub fn to_metadata(&self) -> (r: ValidityMetadata)
        ensures
            r == validity_metadata(*self),
    {
        match self {
            Validity::NonNullable => ValidityMetadata::NonNullable,
            Validity::AllValid => ValidityMetadata::AllValid,
            Validity::AllInvalid => ValidityMetadata::AllInvalid,
            Validity::Array(_) => ValidityMetadata::Array,
        }
    }
}

impl ArrayMetadata for VarBinMetadata {
    open spec fn spec_encoding(&self) -> EncodingId {
        EncodingId::VarBin
    }

    fn encoding(&self) -> (r: EncodingId) {
        EncodingId::VarBin
    }
}

impl ArrayMetadata for FSSTMetadata {
    open spec fn spec_encoding(&self) -> EncodingId {
        EncodingId::FSST
    }

    fn encoding(&self) -> (r: EncodingId) {
        EncodingId::FSST
    }
}

impl GetArrayMetadata for VarBinArray {
    type Metadata = VarBinMetadata;

    open spec fn spec_metadata(&self) -> VarBinMetadata {
        VarBinMetadata {
            validity: validity_metadata(self.validity),
            offsets_ptype: self.offsets_ptype,
            bytes_len: self.bytes@.len() as usize,
        }
    }

    fn metadata(&self) -> (r: VarBinMetadata) {
        VarBinMetadata {
            validity: self.validity.to_metadata(),
            offsets_ptype: self.offsets_ptype,
            bytes_len: self.bytes.len(),
        }
    }
}

} // verus!
