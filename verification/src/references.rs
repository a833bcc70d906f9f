//! The catalog of reference encodings and their fixed byte sizes.
//!
//! A reference is a stored handle-like value that identifies another object,
//! or a sub-region of a dataset, within the same file. The byte size of each
//! encoding is mandated by the HDF5 file format and must never drift.

use vstd::prelude::*;

verus! {

/// Byte size of an object reference: one `haddr_t` (64-bit file address).
pub const HOBJ_REF_SIZE: usize = 8;

/// Byte size of a dataset-region reference: one `haddr_t` plus 4 bytes.
pub const HDSET_REG_REF_SIZE: usize = 12;

/// Byte size of a standard reference (`H5R_ref_t`, format version 1.12+).
pub const H5R_REF_SIZE: usize = 64;

/// The closed set of reference encodings.
#[derive(Copy, Clone, Debug, PartialEq, Eq, Structural)]
pub enum Reference {
    Object,
    Region,
    Std,
}

/// The encoded byte size of each reference variant.
pub open spec fn reference_size(r: Reference) -> usize {
    match r {
        Reference::Object => HOBJ_REF_SIZE,
        Reference::Region => HDSET_REG_REF_SIZE,
        Reference::Std => H5R_REF_SIZE,
    }
}

impl Reference {
    /// Returns the fixed encoded byte size of this reference variant.
    ///
    /// Total over all three variants, pure, and deterministic: the result is
    /// exactly 8 for `Object`, 12 for `Region` and 64 for `Std`, on every call.
    pub fn size(self) -> (r: usize)
        ensures
            r == reference_size(self),
            self is Object ==> r == 8,
            self is Region ==> r == 12,
            self is Std ==> r == 64,
    {
        match self {
            Self::Object => HOBJ_REF_SIZE,
            Self::Region => HDSET_REG_REF_SIZE,
            Self::Std => H5R_REF_SIZE,
        }
    }
}

} // verus!
