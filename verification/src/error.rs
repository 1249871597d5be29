//! Conversion errors.

use vstd::prelude::*;
use crate::types::{DataType, TypeView};

verus! {

/// Why a conversion between a column array and dynamic values failed.
#[derive(Debug, PartialEq, Eq)]
pub enum ConvertError {
    /// The value at `row` does not have the type that the column asks for.
    TypeMismatch { row: usize, expected: DataType },
    /// The text at `row` of a column of structured text is malformed.
    MalformedText { row: usize, data_type: DataType },
    /// A column of this type cannot be built with the lengths at hand: its
    /// child columns do not have its number of rows, or its contents exceed
    /// what its offsets can address.
    LengthInconsistency { data_type: DataType },
}

/// The mathematical value of a [`ConvertError`].
pub enum ConvertErrorView {
    TypeMismatch { row: nat, expected: TypeView },
    MalformedText { row: nat, data_type: TypeView },
    LengthInconsistency { data_type: TypeView },
}

impl View for ConvertError {
    type V = ConvertErrorView;

    open spec fn view(&self) -> ConvertErrorView {
        match self {
            ConvertError::TypeMismatch { row, expected } => ConvertErrorView::TypeMismatch {
                row: *row as nat,
                expected: expected@,
            },
            ConvertError::MalformedText { row, data_type } => ConvertErrorView::MalformedText {
                row: *row as nat,
                data_type: data_type@,
            },
            ConvertError::LengthInconsistency { data_type } => ConvertErrorView::LengthInconsistency {
                data_type: data_type@,
            },
        }
    }
}

} // verus!
