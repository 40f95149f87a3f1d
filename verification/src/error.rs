use vstd::prelude::*;

verus! {

/// Categories of failure.
#[derive(Debug, Clone, Copy, PartialEq, Eq, Structural)]
pub enum ErrorKind {
    /// A generic error that falls under no other category.
    Other,
    /// Space could not be allocated in a texture atlas.
    AtlasAlloc,
    /// The operation failed earlier and the failure was cached.
    CachedFailure,
    /// An error from GPU-related code.
    Gpu,
    /// An id referred to nothing.
    InvalidId,
    /// A font could not be parsed.
    InvalidFont,
    /// An image could not be parsed.
    InvalidImage,
    /// A path is malformed or points somewhere wrong.
    InvalidPath,
    /// A generic IO error.
    Io,
}

/// A general-purpose error: a kind, a message, and an optional source.
#[derive(Debug)]
pub struct Error {
    pub kind: ErrorKind,
    pub message: String,
    pub source: Option<Box<Error>>,
}

pub type OhmResult<T> = Result<T, Error>;

impl Error {
    /// The source error, if one was recorded.
    pub open spec fn source_error(&self) -> Option<Error> {
        match self.source {
            Some(b) => Some(*b),
            None => None,
        }
    }

    /// An error of the given kind with a message and no source.
    pub fn new(kind: ErrorKind, message: String) -> (e: Error)
        ensures
            e.kind == kind,
            e.message@ == message@,
            e.source_error() is None,
    {
        Error { kind, message, source: None }
    }

    /// Wraps a source error, keeping its message as this one's.
    pub fn wrap(kind: ErrorKind, source: Error) -> (e: Error)
        ensures
            e.kind == kind,
            e.message@ == source.message@,
            e.source_error() == Some(source),
    {
        let message: String = source.message.clone();
        Error { kind, message, source: Some(Box::new(source)) }
    }

    /// This error with its source replaced.
    pub fn with_source(self, source: Error) -> (e: Error)
        ensures
            e.kind == self.kind,
            e.message@ == self.message@,
            e.source_error() == Some(source),
    {
        Error { kind: self.kind, message: self.message, source: Some(Box::new(source)) }
    }

    /// A new error with the same kind, `self` as source, and a new message.
    pub fn with_context(self, context: String) -> (e: Error)
        ensures
            e.kind == self.kind,
            e.message@ == context@,
            e.source_error() == Some(self),
    {
        Error { kind: self.kind, message: context, source: Some(Box::new(self)) }
    }

    pub fn kind(&self) -> (k: ErrorKind)
        ensures
            k == self.kind,
    {
        self.kind
    }

    pub fn message(&self) -> (m: &String)
        ensures
            m == &self.message,
    {
        &self.message
    }
}

} // verus!
