use vstd::prelude::*;

verus! {

/// Why a query specification cannot be compiled.
#[derive(Clone, Copy, Debug, PartialEq, Eq, Structural)]
pub enum CompileError {
    /// The limit is negative.
    NegativeLimit,
    /// The offset is negative.
    NegativeOffset,
    /// A cursor holds more values than there are orderings.
    CursorTooLong,
    /// A filter or an ordering refers to an empty field path, or to one with
    /// an empty segment.
    EmptyFieldPath,
}

/// The errors of the codecs, the query compiler and the path normalizer.
#[derive(Clone, Debug, PartialEq, Eq)]
pub enum Error {
    /// A wire tag does not fit the requested shape; it carries the name of the
    /// field that holds the value, empty for a value decoded on its own.
    TypeMismatch(String),
    /// A timestamp is not an RFC 3339 instant; it carries the name of the field
    /// that holds the value, empty for a value decoded on its own.
    MalformedTimestamp(String),
    /// A required field is absent from the wire document; it carries the field's name.
    MissingField(String),
    /// The query specification is invalid.
    Compile(CompileError),
    /// An absolute resource name lacks the `(default)/documents/` segment.
    PathFormat,
    /// A project id is empty.
    EmptyProjectId,
}

impl Error {
    /// A copy of this error.
    pub fn duplicate(&self) -> (r: Error)
        ensures
            r == *self,
    {
        match self {
            Error::TypeMismatch(f) => Error::TypeMismatch(f.clone()),
            Error::MalformedTimestamp(f) => Error::MalformedTimestamp(f.clone()),
            Error::MissingField(f) => Error::MissingField(f.clone()),
            Error::Compile(c) => Error::Compile(*c),
            Error::PathFormat => Error::PathFormat,
            Error::EmptyProjectId => Error::EmptyProjectId,
        }
    }
}

} // verus!
