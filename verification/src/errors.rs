//! The error taxonomy shared by every set command: a lookup miss, a value of
//! the wrong variant, or a degenerate empty operand list.

use vstd::prelude::*;

verus! {

/// Why a command failed. Every error aborts the command cleanly and leaves
/// the store untouched.
#[derive(Debug)]
pub enum ApplicationError {
    /// The named key is absent from the store.
    KeyNotFound(String),
    /// The named key is present but its value is not a set.
    WrongType(String),
    /// The operand key list was empty: there are no sets to intersect.
    NoOperands,
}

/// The abstract form of an error: keys as character sequences.
pub enum ErrorModel {
    KeyNotFound(Seq<char>),
    WrongType(Seq<char>),
    NoOperands,
}

impl View for ApplicationError {
    type V = ErrorModel;

    open spec fn view(&self) -> ErrorModel {
        match self {
            ApplicationError::KeyNotFound(k) => ErrorModel::KeyNotFound(k@),
            ApplicationError::WrongType(k) => ErrorModel::WrongType(k@),
            ApplicationError::NoOperands => ErrorModel::NoOperands,
        }
    }
}

} // verus!
