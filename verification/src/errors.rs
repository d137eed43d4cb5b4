//! Error kinds and the error value every fallible operation returns.

use vstd::prelude::*;
use vstd::std_specs::convert::FromSpecImpl;

verus! {

/// The closed set of failures this library reports.
#[derive(Debug, Clone, Copy, PartialEq, Eq, Hash, Structural)]
pub enum ErrorKind {
    /// Bytes could not be obtained from the underlying source.
    IoError,
    /// The bytes are not a well-formed Whisper structure.
    ParseError,
    /// The requested window is empty or reversed.
    InvalidTimeRange,
    /// The requested window starts in the future.
    InvalidTimeStart,
    /// The requested window ends before the oldest retained instant.
    InvalidTimeEnd,
    /// No archive retains data far enough back for the request.
    NoArchiveAvailable,
    /// The header describes an archive the file does not contain.
    CorruptDatabase,
}

/// As `outcome`, with the value taken by its view.
pub open spec fn outcome_view<T: View>(r: MementoResult<T>) -> Result<T::V, ErrorKind> {
    match r {
        Ok(t) => Ok(t@),
        Err(e) => Err(e.kind),
    }
}

/// An error: its kind and a static description for diagnostics.
#[derive(Debug, Clone, Copy)]
pub struct MementoError {
    pub kind: ErrorKind,
    pub description: &'static str,
}

pub type MementoResult<T> = Result<T, MementoError>;

/// A result with its error reduced to the error's kind.
pub open spec fn outcome<T>(r: MementoResult<T>) -> Result<T, ErrorKind> {
    match r {
        Ok(t) => Ok(t),
        Err(e) => Err(e.kind),
    }
}

impl MementoError {
    pub fn new(kind: ErrorKind, description: &'static str) -> (e: MementoError)
        ensures
            e.kind == kind,
            e.description == description,
    {
        MementoError { kind, description }
    }

    pub fn kind(&self) -> (k: ErrorKind)
        ensures
            k == self.kind,
    {
        self.kind
    }

    pub fn description(&self) -> (d: &'static str)
        ensures
            d == self.description,
    {
        self.description
    }
}

impl FromSpecImpl<(ErrorKind, &'static str)> for MementoError {
    open spec fn obeys_from_spec() -> bool {
        true
    }

    open spec fn from_spec(pair: (ErrorKind, &'static str)) -> MementoError {
        MementoError { kind: pair.0, description: pair.1 }
    }
}

impl From<(ErrorKind, &'static str)> for MementoError {
    fn from(pair: (ErrorKind, &'static str)) -> (e: MementoError) {
        MementoError { kind: pair.0, description: pair.1 }
    }
}

} // verus!
