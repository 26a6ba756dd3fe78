//! What a failed validation reports.

use crate::number::Number;
use vstd::prelude::*;

verus! {

/// The reason a byte slice is not an encoding of a type. Every variant names
/// the type whose check failed; the numeric fields give the value the check
/// wanted and the value it found.
#[derive(Debug, PartialEq, Eq)]
pub enum VerificationError {
    /// Fewer bytes than the header, or the offset table, needs.
    HeaderIsBroken { name: String, expected: u64, actual: u64 },
    /// The length of the slice is not the total size that the type or the
    /// header calls for.
    TotalSizeNotMatch { name: String, expected: u64, actual: u64 },
    /// The first offset is misaligned or too small, or the offsets decrease.
    OffsetsNotMatch { name: String },
    /// The number of fields in a table does not fit the declared number.
    FieldCountNotMatch { name: String, expected: u64, actual: u64 },
    /// The discriminant of a union names no declared variant.
    UnknownItem { name: String, item_id: Number },
}

/// The mathematical value of a `VerificationError`.
pub enum ErrorView {
    HeaderIsBroken { name: Seq<char>, expected: nat, actual: nat },
    TotalSizeNotMatch { name: Seq<char>, expected: nat, actual: nat },
    OffsetsNotMatch { name: Seq<char> },
    FieldCountNotMatch { name: Seq<char>, expected: nat, actual: nat },
    UnknownItem { name: Seq<char>, item_id: nat },
}

impl View for VerificationError {
    type V = ErrorView;

    open spec fn view(&self) -> ErrorView {
        match self {
            VerificationError::HeaderIsBroken { name, expected, actual } => {
                ErrorView::HeaderIsBroken {
                    name: name@,
                    expected: *expected as nat,
                    actual: *actual as nat,
                }
            },
            VerificationError::TotalSizeNotMatch { name, expected, actual } => {
                ErrorView::TotalSizeNotMatch {
                    name: name@,
                    expected: *expected as nat,
                    actual: *actual as nat,
                }
            },
            VerificationError::OffsetsNotMatch { name } => ErrorView::OffsetsNotMatch {
                name: name@,
            },
            VerificationError::FieldCountNotMatch { name, expected, actual } => {
                ErrorView::FieldCountNotMatch {
                    name: name@,
                    expected: *expected as nat,
                    actual: *actual as nat,
                }
            },
            VerificationError::UnknownItem { name, item_id } => ErrorView::UnknownItem {
                name: name@,
                item_id: *item_id as nat,
            },
        }
    }
}

impl ErrorView {
    /// True of the two errors that a slice cut short can give.
    pub open spec fn is_size_error(self) -> bool {
        self is HeaderIsBroken || self is TotalSizeNotMatch
    }
}

/// The outcome of validating a slice, as a mathematical value.
pub type Verdict = Result<(), ErrorView>;

} // verus!
