use vstd::prelude::*;

verus! {

/// What went wrong while extracting assets from an executable.
#[derive(Debug, Clone, PartialEq, Eq)]
pub enum ErrorKind {
    /// The buffer does not start with the executable signature `MZ`.
    InvalidExeHeader,
    /// The format marker is not at its fixed offset.
    InvalidMagic,
    /// A read needed more bytes than remain.
    TruncatedInput,
    /// A seek would move the cursor past the end of the buffer.
    OutOfBounds,
    /// A compressed chunk is not a valid zlib stream.
    InflateError,
    /// An extensions, triggers or constants section holds records, which are
    /// not decoded, and the policy in force rejects them.
    UnsupportedSection,
    /// A sprite frame's size differs from the first frame's (sprite name).
    InconsistentFrameDimensions(String),
    /// A sprite frame's pixel data length is not width * height * 4 (sprite name).
    InconsistentPixelDataLength(String),
}

/// An extraction failure.
#[derive(Debug, Clone)]
pub struct Error {
    pub kind: ErrorKind,
}

impl Error {
    pub fn kind(&self) -> (r: &ErrorKind)
        ensures
            *r == self.kind,
    {
        &self.kind
    }
}

impl From<ErrorKind> for Error {
    fn from(kind: ErrorKind) -> (r: Error)
        ensures
            r.kind == kind,
    {
        Error { kind }
    }
}

impl vstd::std_specs::convert::FromSpecImpl<ErrorKind> for Error {
    open spec fn obeys_from_spec() -> bool {
        true
    }

    open spec fn from_spec(kind: ErrorKind) -> Error {
        Error { kind }
    }
}

} // verus!
