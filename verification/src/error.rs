//! The errors of this library.

use vstd::prelude::*;

verus! {

/// An error with its message. The variants are those of DataFusion's own error type that this
/// library gives rise to.
#[derive(Debug)]
pub enum DistributedError {
    /// A broken assumption of the library or of its caller.
    Internal(String),
    /// A failure during execution.
    Execution(String),
    /// A feature that nobody provided.
    NotImplemented(String),
}

/// What a [`DistributedError`] says.
pub enum ErrorView {
    Internal(Seq<char>),
    Execution(Seq<char>),
    NotImplemented(Seq<char>),
}

impl View for DistributedError {
    type V = ErrorView;

    open spec fn view(&self) -> ErrorView {
        match self {
            DistributedError::Internal(m) => ErrorView::Internal(m@),
            DistributedError::Execution(m) => ErrorView::Execution(m@),
            DistributedError::NotImplemented(m) => ErrorView::NotImplemented(m@),
        }
    }
}

/// An error shows its own variant and message.
pub proof fn error_shows_its_message(m: String)
    ensures
        DistributedError::Internal(m)@ == ErrorView::Internal(m@),
        DistributedError::Execution(m)@ == ErrorView::Execution(m@),
        DistributedError::NotImplemented(m)@ == ErrorView::NotImplemented(m@),
{
}

} // verus!
