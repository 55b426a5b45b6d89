//! What goes wrong, and what is said about it.

use vstd::prelude::*;

verus! {

/// Which side an error lies on.
#[derive(Clone, Copy, Debug, PartialEq, Eq, Structural)]
pub enum ErrorKind {
    /// The user asked for something that cannot be done.
    InvalidInput,
    /// The puzzle database does not hold what was asked of it.
    InvalidData,
    /// The engine misbehaved.
    Other,
}

/// An error, with the message for the user.
#[derive(Debug)]
pub struct Error {
    pub kind: ErrorKind,
    pub message: String,
}

/// An error as a mathematical value.
#[verifier::ext_equal]
pub struct ErrorView {
    pub kind: ErrorKind,
    pub message: Seq<char>,
}

impl View for Error {
    type V = ErrorView;

    open spec fn view(&self) -> ErrorView {
        ErrorView { kind: self.kind, message: self.message@ }
    }
}

} // verus!
