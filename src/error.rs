use vstd::prelude::*;

verus! {

/// What went wrong in a failed operation.
#[derive(Debug, Clone, Copy, PartialEq, Eq, Structural)]
pub enum ErrorKind {
    /// A key or index does not resolve, or a coercion has no representation.
    Absent,
    /// The operation does not fit the container's kind, or an index is out of bounds.
    Invalid,
}

/// The error of every fallible operation: a kind tag.
#[derive(Debug, Clone, Copy, PartialEq, Eq, Structural)]
pub struct Exception {
    pub kind: ErrorKind,
}

impl Exception {
    pub fn absent() -> (r: Exception)
        ensures
            r.kind == ErrorKind::Absent,
    {
        Exception { kind: ErrorKind::Absent }
    }

    pub fn invalid() -> (r: Exception)
        ensures
            r.kind == ErrorKind::Invalid,
    {
        Exception { kind: ErrorKind::Invalid }
    }

    /// A short human-readable description of the error.
    pub fn message(&self) -> (r: String)
        ensures
            self.kind == ErrorKind::Absent ==> r@ == "absent"@,
            self.kind == ErrorKind::Invalid ==> r@ == "invalid"@,
    {
        match self.kind {
            ErrorKind::Absent => {
                proof { reveal_strlit("absent"); }
                "absent".to_owned()
            },
            ErrorKind::Invalid => {
                proof { reveal_strlit("invalid"); }
                "invalid".to_owned()
            },
        }
    }
}

} // verus!
