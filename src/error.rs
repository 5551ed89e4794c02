//! The errors of this library.
use vstd::prelude::*;

verus! {

/// Why a filesystem structure was refused.
#[derive(Debug)]
pub enum ParseError {
    /// The filesystem doesn't meet the code's expectations;
    /// maybe the code is wrong, maybe the filesystem is corrupt.
    AssumptionFailed { reason: String },
    /// The filesystem is valid, but requests a feature the code doesn't support.
    UnsupportedFeature { reason: String },
    /// The request is for something which is surely not there.
    NotFound { reason: String },
}

/// What went wrong in a byte source.
#[derive(Clone, Copy, Debug, PartialEq, Eq, Structural)]
pub enum IoErrorKind {
    /// The source ended before the bytes asked for.
    UnexpectedEof,
    /// Any other failure of the source.
    Other,
}

/// A failure reported by a byte source.
#[derive(Debug)]
pub struct IoError {
    pub kind: IoErrorKind,
    pub message: String,
}

/// Any error of this library: a refused structure, or a failing byte source.
#[derive(Debug)]
pub enum Error {
    Parse(ParseError),
    Io(IoError),
}

/// The four kinds of error, as a plain value.
#[derive(Clone, Copy, Debug, PartialEq, Eq, Structural)]
pub enum ErrorKind {
    AssumptionFailed,
    UnsupportedFeature,
    NotFound,
    Io,
}

impl Error {
    /// Which of the four kinds this error is.
    pub open spec fn kind(&self) -> ErrorKind {
        match self {
            Error::Parse(ParseError::AssumptionFailed { .. }) => ErrorKind::AssumptionFailed,
            Error::Parse(ParseError::UnsupportedFeature { .. }) => ErrorKind::UnsupportedFeature,
            Error::Parse(ParseError::NotFound { .. }) => ErrorKind::NotFound,
            Error::Io(_) => ErrorKind::Io,
        }
    }

    pub open spec fn is_assumption_failed(&self) -> bool {
        self matches Error::Parse(ParseError::AssumptionFailed { .. })
    }

    pub open spec fn is_unsupported_feature(&self) -> bool {
        self matches Error::Parse(ParseError::UnsupportedFeature { .. })
    }

    pub open spec fn is_not_found(&self) -> bool {
        self matches Error::Parse(ParseError::NotFound { .. })
    }

    pub open spec fn is_io(&self) -> bool {
        self matches Error::Io(_)
    }
}

/// `r` failed because the filesystem broke an expectation.
pub open spec fn fails_assumption<T>(r: Result<T, Error>) -> bool {
    r matches Err(e) && e.is_assumption_failed()
}

/// `r` failed because the filesystem uses a feature this library lacks.
pub open spec fn fails_unsupported<T>(r: Result<T, Error>) -> bool {
    r matches Err(e) && e.is_unsupported_feature()
}

/// `r` failed because what was asked for is not there.
pub open spec fn fails_not_found<T>(r: Result<T, Error>) -> bool {
    r matches Err(e) && e.is_not_found()
}

/// `r` failed with an error of kind `k`, or in the byte source.
pub open spec fn fails_as<T>(r: Result<T, Error>, k: ErrorKind) -> bool {
    r matches Err(e) && (e.kind() == k || e.is_io())
}

/// `r` failed in the byte source.
pub open spec fn fails_io<T>(r: Result<T, Error>) -> bool {
    r matches Err(e) && e.is_io()
}

pub fn assumption_failed(reason: &str) -> (e: Error)
    ensures
        e.is_assumption_failed(),
{
    Error::Parse(ParseError::AssumptionFailed { reason: reason.to_owned() })
}

pub fn unsupported_feature(reason: &str) -> (e: Error)
    ensures
        e.is_unsupported_feature(),
{
    Error::Parse(ParseError::UnsupportedFeature { reason: reason.to_owned() })
}

pub fn not_found(reason: &str) -> (e: Error)
    ensures
        e.is_not_found(),
{
    Error::Parse(ParseError::NotFound { reason: reason.to_owned() })
}

pub fn unexpected_eof() -> (e: Error)
    ensures
        e matches Error::Io(IoError { kind: IoErrorKind::UnexpectedEof, .. }),
{
    Error::Io(IoError { kind: IoErrorKind::UnexpectedEof, message: "failed to fill whole buffer".to_owned() })
}

impl ParseError {
    /// The explanation carried by the error.
    pub fn reason(&self) -> (r: &String) {
        match self {
            ParseError::AssumptionFailed { reason } => reason,
            ParseError::UnsupportedFeature { reason } => reason,
            ParseError::NotFound { reason } => reason,
        }
    }
}

/// An error of this library as a failure of a byte source, for callers that
/// hand the library's readers on as plain I/O.
pub fn map_lib_error_to_io(error: &Error) -> (r: IoError)
    ensures
        error matches Error::Io(io) ==> r.kind == io.kind,
        error matches Error::Parse(_) ==> r.kind == IoErrorKind::Other,
{
    match error {
        Error::Io(io) => IoError { kind: io.kind, message: io.message.clone() },
        Error::Parse(p) => {
            let mut message = "Ext4 error: ".to_owned();
            message.append(p.reason().as_str());
            IoError { kind: IoErrorKind::Other, message }
        },
    }
}

} // verus!
