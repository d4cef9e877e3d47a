//! What a failed request is answered with.
use vstd::prelude::*;

verus! {

/// Who has to act on a failure.
#[derive(Clone, Copy, Debug, PartialEq, Eq, Structural)]
pub enum ErrorKind {
    /// Something went wrong that neither the caller nor the source is to blame for.
    Failure,
    /// The request, or the source it was made of, has to be corrected.
    Usage,
    /// One file cannot be measured, and the others still can.
    Skippable,
}

/// A failure, and what to tell the reader about it.
#[derive(Clone, Debug)]
pub struct Fault {
    pub kind: ErrorKind,
    pub message: String,
}

impl Fault {
    /// A failure with the given message.
    pub fn new(kind: ErrorKind, message: String) -> (r: Fault)
        ensures
            r.kind == kind,
            r.message@ == message@,
    {
        Fault { kind, message }
    }

    /// What to tell the reader.
    pub fn message(&self) -> (r: &str)
        ensures
            r@ == self.message@,
    {
        self.message.as_str()
    }

    /// Whether the rest of the run can go on without the file this is about.
    pub fn is_skippable(&self) -> (r: bool)
        ensures
            r == (self.kind == ErrorKind::Skippable),
    {
        self.kind == ErrorKind::Skippable
    }
}

} // verus!
