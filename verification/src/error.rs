//! Error values of the runtime.

use vstd::prelude::*;
use vstd::string::*;
use crate::text::{append_decimal, decimal_text};

verus! {

/// A buffer holds fewer bytes than a field of the given width in bits needs.
#[derive(Debug, Clone, Copy, PartialEq, Eq, Structural)]
pub struct TryFromSliceError(usize);

/// The text of a [`TryFromSliceError`] for a field of `bits` bits.
pub open spec fn too_short_text(bits: nat) -> Seq<char> {
    "slice not big enough for "@ + decimal_text(bits) + " bits"@
}

impl TryFromSliceError {
    /// The width in bits of the field that did not fit.
    pub closed spec fn spec_bits(&self) -> usize {
        self.0
    }

    /// The error for a field of `bits` bits.
    pub fn new(bits: usize) -> (e: Self)
        ensures
            e.bits() == bits,
    {
        TryFromSliceError(bits)
    }

    /// The width in bits of the field that did not fit.
    #[verifier::when_used_as_spec(spec_bits)]
    pub fn bits(&self) -> (n: usize)
        ensures
            n == self.bits(),
    {
        self.0
    }

    /// A description of the failure for diagnostics.
    pub fn message(&self) -> (s: String)
        ensures
            s@ == too_short_text(self.bits() as nat),
    {
        let mut s = String::from_str("slice not big enough for ");
        append_decimal(&mut s, self.0);
        s.append(" bits");
        s
    }
}

/// Why a table turned a keyset down.
#[derive(Debug, Clone, Copy, PartialEq, Eq, Structural)]
pub enum TableError {
    /// The keyset has `found` keys where the table's shape has `expected`.
    ArityMismatch { expected: usize, found: usize },
    /// The key at `position`, the first such, is not of the kind that the
    /// table's shape has there.
    KindMismatch { position: usize },
}

/// The text of a [`TableError`].
pub open spec fn table_error_text(e: TableError) -> Seq<char> {
    match e {
        TableError::ArityMismatch { expected, found } => "keyset has "@ + decimal_text(
            found as nat,
        ) + " keys, the table takes "@ + decimal_text(expected as nat),
        TableError::KindMismatch { position } => "key "@ + decimal_text(position as nat)
            + " is not of the table's kind"@,
    }
}

impl TableError {
    /// A description of the failure for diagnostics.
    pub fn message(&self) -> (s: String)
        ensures
            s@ == table_error_text(*self),
    {
        match self {
            TableError::ArityMismatch { expected, found } => {
                let mut s = String::from_str("keyset has ");
                append_decimal(&mut s, *found);
                s.append(" keys, the table takes ");
                append_decimal(&mut s, *expected);
                s
            },
            TableError::KindMismatch { position } => {
                let mut s = String::from_str("key ");
                append_decimal(&mut s, *position);
                s.append(" is not of the table's kind");
                s
            },
        }
    }
}

} // verus!
