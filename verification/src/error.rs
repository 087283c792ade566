//! The kinds of failure, and a short text for each error.

use crate::hex::HexError;
use crate::index::IndexError;
use crate::objects::ObjectError;
use crate::refs::RefError;
use vstd::prelude::*;

verus! {

/// The four kinds of failure that callers tell apart.
#[derive(Debug, Clone, Copy, PartialEq, Eq, Structural)]
pub enum ErrorKind {
    /// An object, a reference or a file is not there.
    NotFound,
    /// Data is malformed: a header, a signature, a version, text, a number.
    Format,
    /// Data is well formed and contradicts itself or what was asked for.
    Validation,
    /// Data ends early or cannot be read or written.
    Io,
}

/// The kind of each error of the hexadecimal codec.
pub open spec fn hex_error_kind(e: HexError) -> ErrorKind {
    ErrorKind::Format
}

/// The text for each error of the hexadecimal codec.
pub open spec fn hex_error_message(e: HexError) -> Seq<char> {
    match e {
        HexError::OddLength => "invalid hex string"@,
        HexError::InvalidDigit => "invalid hex character"@,
    }
}

/// The kind of each error of the object codec.
pub open spec fn object_error_kind(e: ObjectError) -> ErrorKind {
    match e {
        ObjectError::InvalidHeader => ErrorKind::Format,
        ObjectError::TypeNotUtf8 => ErrorKind::Format,
        ObjectError::UnknownType => ErrorKind::Validation,
        ObjectError::SizeNotUtf8 => ErrorKind::Format,
        ObjectError::SizeNotANumber => ErrorKind::Format,
        ObjectError::SizeMismatch => ErrorKind::Validation,
        ObjectError::TruncatedTree => ErrorKind::Format,
        ObjectError::CorruptStream => ErrorKind::Io,
        ObjectError::CompressionFailed => ErrorKind::Io,
        ObjectError::InvalidHash => ErrorKind::NotFound,
        ObjectError::NotFound => ErrorKind::NotFound,
    }
}

/// The text for each error of the object codec.
pub open spec fn object_error_message(e: ObjectError) -> Seq<char> {
    match e {
        ObjectError::InvalidHeader => "invalid object header"@,
        ObjectError::TypeNotUtf8 => "object type is not valid utf-8"@,
        ObjectError::UnknownType => "unknown object type"@,
        ObjectError::SizeNotUtf8 => "object size is not valid utf-8"@,
        ObjectError::SizeNotANumber => "object size is not a number"@,
        ObjectError::SizeMismatch => "object size does not match header"@,
        ObjectError::TruncatedTree => "tree ends inside an entry"@,
        ObjectError::CorruptStream => "read zlib stream"@,
        ObjectError::CompressionFailed => "write blob to zlib"@,
        ObjectError::InvalidHash => "not a valid object name"@,
        ObjectError::NotFound => "not a valid object"@,
    }
}

/// The kind of each error of the index codec.
pub open spec fn index_error_kind(e: IndexError) -> ErrorKind {
    match e {
        IndexError::ShortRead => ErrorKind::Io,
        IndexError::InvalidSignature => ErrorKind::Format,
        IndexError::UnsupportedVersion => ErrorKind::Format,
        IndexError::InvalidStage => ErrorKind::Format,
        IndexError::PathNotUtf8 => ErrorKind::Format,
        IndexError::PathTooLong => ErrorKind::Format,
        IndexError::TooManyEntries => ErrorKind::Format,
    }
}

/// The text for each error of the index codec.
pub open spec fn index_error_message(e: IndexError) -> Seq<char> {
    match e {
        IndexError::ShortRead => "index file ends inside a field"@,
        IndexError::InvalidSignature => "invalid index signature"@,
        IndexError::UnsupportedVersion => "unsupported index version"@,
        IndexError::InvalidStage => "invalid merge status"@,
        IndexError::PathNotUtf8 => "parse path"@,
        IndexError::PathTooLong => "path is too long for the index"@,
        IndexError::TooManyEntries => "too many entries for the index"@,
    }
}

/// The kind of each error of the reference resolver.
pub open spec fn ref_error_kind(e: RefError) -> ErrorKind {
    match e {
        RefError::ShortRead => ErrorKind::Io,
        RefError::HeadNotUtf8 => ErrorKind::Format,
        RefError::HeadTargetMissing => ErrorKind::NotFound,
    }
}

/// The text for each error of the reference resolver.
pub open spec fn ref_error_message(e: RefError) -> Seq<char> {
    match e {
        RefError::ShortRead => "reference file holds less than 40 bytes"@,
        RefError::HeadNotUtf8 => "HEAD is not valid utf-8"@,
        RefError::HeadTargetMissing => "HEAD points to a reference that does not exist"@,
    }
}

impl HexError {
    /// The kind of this error.
    pub fn kind(&self) -> (kind: ErrorKind)
        ensures
            kind == hex_error_kind(*self),
    {
        ErrorKind::Format
    }

    /// A short text that says what failed.
    pub fn message(&self) -> (text: &'static str)
        ensures
            text@ == hex_error_message(*self),
    {
        match self {
            HexError::OddLength => "invalid hex string",
            HexError::InvalidDigit => "invalid hex character",
        }
    }
}

impl ObjectError {
    /// The kind of this error.
    pub fn kind(&self) -> (kind: ErrorKind)
        ensures
            kind == object_error_kind(*self),
    {
        match self {
            ObjectError::InvalidHeader => ErrorKind::Format,
            ObjectError::TypeNotUtf8 => ErrorKind::Format,
            ObjectError::UnknownType => ErrorKind::Validation,
            ObjectError::SizeNotUtf8 => ErrorKind::Format,
            ObjectError::SizeNotANumber => ErrorKind::Format,
            ObjectError::SizeMismatch => ErrorKind::Validation,
            ObjectError::TruncatedTree => ErrorKind::Format,
            ObjectError::CorruptStream => ErrorKind::Io,
            ObjectError::CompressionFailed => ErrorKind::Io,
            ObjectError::InvalidHash => ErrorKind::NotFound,
            ObjectError::NotFound => ErrorKind::NotFound,
        }
    }

    /// A short text that says what failed.
    pub fn message(&self) -> (text: &'static str)
        ensures
            text@ == object_error_message(*self),
    {
        match self {
            ObjectError::InvalidHeader => "invalid object header",
            ObjectError::TypeNotUtf8 => "object type is not valid utf-8",
            ObjectError::UnknownType => "unknown object type",
            ObjectError::SizeNotUtf8 => "object size is not valid utf-8",
            ObjectError::SizeNotANumber => "object size is not a number",
            ObjectError::SizeMismatch => "object size does not match header",
            ObjectError::TruncatedTree => "tree ends inside an entry",
            ObjectError::CorruptStream => "read zlib stream",
            ObjectError::CompressionFailed => "write blob to zlib",
            ObjectError::InvalidHash => "not a valid object name",
            ObjectError::NotFound => "not a valid object",
        }
    }
}

impl IndexError {
    /// The kind of this error.
    pub fn kind(&self) -> (kind: ErrorKind)
        ensures
            kind == index_error_kind(*self),
    {
        match self {
            IndexError::ShortRead => ErrorKind::Io,
            _ => ErrorKind::Format,
        }
    }

    /// A short text that says what failed.
    pub fn message(&self) -> (text: &'static str)
        ensures
            text@ == index_error_message(*self),
    {
        match self {
            IndexError::ShortRead => "index file ends inside a field",
            IndexError::InvalidSignature => "invalid index signature",
            IndexError::UnsupportedVersion => "unsupported index version",
            IndexError::InvalidStage => "invalid merge status",
            IndexError::PathNotUtf8 => "parse path",
            IndexError::PathTooLong => "path is too long for the index",
            IndexError::TooManyEntries => "too many entries for the index",
        }
    }
}

impl RefError {
    /// The kind of this error.
    pub fn kind(&self) -> (kind: ErrorKind)
        ensures
            kind == ref_error_kind(*self),
    {
        match self {
            RefError::ShortRead => ErrorKind::Io,
            RefError::HeadNotUtf8 => ErrorKind::Format,
            RefError::HeadTargetMissing => ErrorKind::NotFound,
        }
    }

    /// A short text that says what failed.
    pub fn message(&self) -> (text: &'static str)
        ensures
            text@ == ref_error_message(*self),
    {
        match self {
            RefError::ShortRead => "reference file holds less than 40 bytes",
            RefError::HeadNotUtf8 => "HEAD is not valid utf-8",
            RefError::HeadTargetMissing => "HEAD points to a reference that does not exist",
        }
    }
}

} // verus!
