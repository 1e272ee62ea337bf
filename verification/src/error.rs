//! The closed set of failure kinds surfaced by the core operations.

use vstd::prelude::*;
use vstd::string::StringExecFns;

verus! {

/// Failure kind reported by an I/O layer built around the library.
#[derive(Debug, Clone, Copy, PartialEq, Eq, Structural)]
pub enum IoErrorKind {
    NotFound,
    PermissionDenied,
    UnexpectedEof,
    WriteZero,
    Interrupted,
    Other,
}

/// An enumeration of the various error kinds used throughout the library.
#[derive(Debug, Clone, Copy, PartialEq, Eq, Structural)]
pub enum ErrorKind {
    BadStreamPosition(u64),
    BlockNumDoesNotExist,
    BlockSizeTooBig,
    FileIsEmpty,
    IntegerOverflow,
    InvalidBlockHash(u64),
    InvalidBlockSize,
    InvalidDataLength,
    InvalidDigestLength(usize),
    InvalidFileSize,
    InvalidIndex,
    InvalidMerkleLeaves,
    InvalidSliceLength,
    IOError(IoErrorKind),
    ParseError,
    PathDoesNotExist,
    PathIsNotAFile,
    SliceTooLong,
    SliceTooShort,
    StringTooLong,
    StringTooShort,
    ZeroBlockSize,
}

/// An error: a kind together with a short static description.
#[derive(Debug, Clone, Copy)]
pub struct Error {
    pub kind: ErrorKind,
    pub message: &'static str,
}

impl Error {
    pub fn new(kind: ErrorKind, message: &'static str) -> (r: Self)
        ensures
            r.kind == kind,
            r.message == message,
    {
        Error { kind, message }
    }

    pub fn kind(&self) -> (k: ErrorKind)
        ensures
            k == self.kind,
    {
        self.kind
    }

    pub fn message(&self) -> (m: &'static str)
        ensures
            m == self.message,
    {
        self.message
    }

    /// The kind, as a spec-level accessor.
    pub open spec fn spec_kind(&self) -> ErrorKind {
        self.kind
    }
}

impl ErrorKind {
    /// A short, fixed description of the kind; the counterpart of a display
    /// implementation, which verified code cannot provide.
    pub fn describe(&self) -> &'static str {
        match self {
            ErrorKind::BadStreamPosition(_) => "Bad stream position.",
            ErrorKind::BlockNumDoesNotExist => "Block number does not exist (out of bounds).",
            ErrorKind::BlockSizeTooBig => "Block size is too big.",
            ErrorKind::FileIsEmpty => "File is empty.",
            ErrorKind::IntegerOverflow => "Integer overflow.",
            ErrorKind::InvalidBlockHash(_) => "Invalid block hash.",
            ErrorKind::InvalidBlockSize => "Invalid block size.",
            ErrorKind::InvalidDataLength => "Invalid data length.",
            ErrorKind::InvalidDigestLength(_) => "Invalid digest length.",
            ErrorKind::InvalidFileSize => "Invalid file size.",
            ErrorKind::InvalidIndex => "Invalid index (out of bounds).",
            ErrorKind::InvalidMerkleLeaves => "Invalid merkle tree leaves.",
            ErrorKind::InvalidSliceLength => "Invalid slice length.",
            ErrorKind::IOError(_) => "IO error.",
            ErrorKind::ParseError => "Parse error.",
            ErrorKind::PathDoesNotExist => "Path does not exist.",
            ErrorKind::PathIsNotAFile => "Path is not a file.",
            ErrorKind::SliceTooLong => "Slice too long.",
            ErrorKind::SliceTooShort => "Slice too short.",
            ErrorKind::StringTooLong => "String too long.",
            ErrorKind::StringTooShort => "String too short.",
            ErrorKind::ZeroBlockSize => "Zero block size.",
        }
    }
}

impl Error {
    /// The kind's description followed by the error's own message.
    pub fn describe(&self) -> String {
        let mut out = String::new();
        out.append(self.kind.describe());
        out.append(" ");
        out.append(self.message);
        out
    }
}

/// The result type used throughout the library.
pub type Result<T> = core::result::Result<T, Error>;

} // verus!
