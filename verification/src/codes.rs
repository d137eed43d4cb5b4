//! Numeric result codes for callers that cannot take an error value, such as
//! bindings to other languages.

use crate::errors::ErrorKind;
use vstd::prelude::*;
use vstd::std_specs::convert::FromSpecImpl;

verus! {

/// The outcome of a call as a code: success, a string that could not be
/// read, or one code for each kind of error.
#[derive(Debug, Clone, Copy, PartialEq, Eq, Hash, Structural)]
pub enum MementoErrorCode {
    NoError,
    InvalidString,
    IoError,
    ParseError,
    InvalidTimeRange,
    InvalidTimeStart,
    InvalidTimeEnd,
    NoArchiveAvailable,
    CorruptDatabase,
}

impl MementoErrorCode {
    /// The number that stands for this code.
    pub open spec fn spec_code(self) -> u32 {
        match self {
            MementoErrorCode::NoError => 0,
            MementoErrorCode::InvalidString => 101,
            MementoErrorCode::IoError => 1001,
            MementoErrorCode::ParseError => 1002,
            MementoErrorCode::InvalidTimeRange => 1003,
            MementoErrorCode::InvalidTimeStart => 1004,
            MementoErrorCode::InvalidTimeEnd => 1005,
            MementoErrorCode::NoArchiveAvailable => 1006,
            MementoErrorCode::CorruptDatabase => 1007,
        }
    }

    /// The code that stands for a kind of error.
    pub open spec fn spec_from_kind(kind: ErrorKind) -> MementoErrorCode {
        match kind {
            ErrorKind::IoError => MementoErrorCode::IoError,
            ErrorKind::ParseError => MementoErrorCode::ParseError,
            ErrorKind::InvalidTimeRange => MementoErrorCode::InvalidTimeRange,
            ErrorKind::InvalidTimeStart => MementoErrorCode::InvalidTimeStart,
            ErrorKind::InvalidTimeEnd => MementoErrorCode::InvalidTimeEnd,
            ErrorKind::NoArchiveAvailable => MementoErrorCode::NoArchiveAvailable,
            ErrorKind::CorruptDatabase => MementoErrorCode::CorruptDatabase,
        }
    }

    #[verifier::when_used_as_spec(spec_code)]
    pub fn code(self) -> (n: u32)
        ensures
            n == self.spec_code(),
    {
        match self {
            MementoErrorCode::NoError => 0,
            MementoErrorCode::InvalidString => 101,
            MementoErrorCode::IoError => 1001,
            MementoErrorCode::ParseError => 1002,
            MementoErrorCode::InvalidTimeRange => 1003,
            MementoErrorCode::InvalidTimeStart => 1004,
            MementoErrorCode::InvalidTimeEnd => 1005,
            MementoErrorCode::NoArchiveAvailable => 1006,
            MementoErrorCode::CorruptDatabase => 1007,
        }
    }

    /// Whether the code stands for a failure.
    pub fn is_error(&self) -> (b: bool)
        ensures
            b == (*self != MementoErrorCode::NoError),
            b == (self.spec_code() != 0),
    {
        match self {
            MementoErrorCode::NoError => false,
            _ => true,
        }
    }

    /// A short description of the code.
    pub fn message(&self) -> (msg: &'static str)
        ensures
            msg == (match *self {
                MementoErrorCode::NoError => "no error",
                MementoErrorCode::InvalidString => "invalid string",
                MementoErrorCode::IoError => "io error",
                MementoErrorCode::ParseError => "parse error",
                MementoErrorCode::InvalidTimeRange => "invalid time range",
                MementoErrorCode::InvalidTimeStart => "invalid time start",
                MementoErrorCode::InvalidTimeEnd => "invalid time end",
                MementoErrorCode::NoArchiveAvailable => "no archive available",
                MementoErrorCode::CorruptDatabase => "corrupt database",
            }),
    {
        match *self {
            MementoErrorCode::NoError => "no error",
            MementoErrorCode::InvalidString => "invalid string",
            MementoErrorCode::IoError => "io error",
            MementoErrorCode::ParseError => "parse error",
            MementoErrorCode::InvalidTimeRange => "invalid time range",
            MementoErrorCode::InvalidTimeStart => "invalid time start",
            MementoErrorCode::InvalidTimeEnd => "invalid time end",
            MementoErrorCode::NoArchiveAvailable => "no archive available",
            MementoErrorCode::CorruptDatabase => "corrupt database",
        }
    }

    /// The code of every kind of error is a failure, and no two kinds share
    /// a code.
    pub proof fn lemma_kinds_are_errors(a: ErrorKind, b: ErrorKind)
        ensures
            Self::spec_from_kind(a) != MementoErrorCode::NoError,
            Self::spec_from_kind(a).spec_code() >= 1001,
            Self::spec_from_kind(a) == Self::spec_from_kind(b) ==> a == b,
            Self::spec_from_kind(a).spec_code() == Self::spec_from_kind(b).spec_code() ==> a == b,
    {
    }
}

impl FromSpecImpl<ErrorKind> for MementoErrorCode {
    open spec fn obeys_from_spec() -> bool {
        true
    }

    open spec fn from_spec(kind: ErrorKind) -> MementoErrorCode {
        MementoErrorCode::spec_from_kind(kind)
    }
}

impl From<ErrorKind> for MementoErrorCode {
    fn from(kind: ErrorKind) -> (code: MementoErrorCode) {
        match kind {
            ErrorKind::IoError => MementoErrorCode::IoError,
            ErrorKind::ParseError => MementoErrorCode::ParseError,
            ErrorKind::InvalidTimeRange => MementoErrorCode::InvalidTimeRange,
            ErrorKind::InvalidTimeStart => MementoErrorCode::InvalidTimeStart,
            ErrorKind::InvalidTimeEnd => MementoErrorCode::InvalidTimeEnd,
            ErrorKind::NoArchiveAvailable => MementoErrorCode::NoArchiveAvailable,
            ErrorKind::CorruptDatabase => MementoErrorCode::CorruptDatabase,
        }
    }
}

impl Default for MementoErrorCode {
    fn default() -> (code: MementoErrorCode)
        ensures
            code == MementoErrorCode::NoError,
    {
        MementoErrorCode::NoError
    }
}

} // verus!
