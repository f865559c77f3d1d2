//! Portable outcome classification, and the divergences the comparator
//! can report.

use vstd::prelude::*;

verus! {

/// A portable category for a failed file operation, standing in for a raw
/// platform error code. Only the category of a failure is compared across
/// the two sides.
#[derive(Clone, Copy, Debug, PartialEq, Eq, Structural)]
pub enum ErrKind {
    NotFound,
    PermissionDenied,
    AlreadyExists,
    InvalidInput,
    UnexpectedEof,
    StorageFull,
    FileTooLarge,
    Interrupted,
    Unsupported,
    Other,
}

/// An observable difference between the two sides for one operation.
#[derive(Clone, Copy, Debug, PartialEq, Eq, Structural)]
pub enum Divergence {
    /// Both sides succeeded, with different values.
    ValueMismatch,
    /// Both sides failed, with different categories.
    KindMismatch(ErrKind, ErrKind),
    /// The first side succeeded while the second failed with this category.
    OkVsErr(ErrKind),
    /// The first side failed with this category while the second succeeded.
    ErrVsOk(ErrKind),
    /// The byte buffers produced by the two sides first differ at this
    /// index, where they hold these two bytes.
    ByteMismatch(usize, u8, u8),
}

} // verus!
