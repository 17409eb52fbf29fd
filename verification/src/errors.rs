//! The error taxonomy shared by the reader and the writer. All errors are
//! returned, never thrown; every operation short-circuits at its first error.
use vstd::prelude::*;

use crate::models::BxesValue;

verus! {

/// A primitive read failed; carries the byte offset at which the read was
/// attempted and a description of the failure.
#[derive(Debug)]
pub struct FailedToReadValueError {
    pub offset: usize,
    pub message: String,
}

impl FailedToReadValueError {
    pub fn new(offset: usize, message: String) -> (r: Self)
        ensures
            r.offset == offset,
            r.message@ == message@,
    {
        Self { offset, message }
    }
}

/// Two files of a split-directory log carried different version headers.
#[derive(Debug)]
pub struct VersionsMismatchError {
    pub previous_version: u32,
    pub current_version: u32,
}

impl VersionsMismatchError {
    pub fn new(previous_version: u32, current_version: u32) -> (r: Self)
        ensures
            r == (VersionsMismatchError { previous_version, current_version }),
    {
        Self { previous_version, current_version }
    }
}

/// Everything that can go wrong while decoding a BXES stream.
#[derive(Debug)]
pub enum BxesReadError {
    /// The input could not be opened.
    FailedToOpenFile(String),
    /// A primitive read ran past the end of the input.
    FailedToReadValue(FailedToReadValueError),
    /// The current position could not be determined.
    FailedToReadPos(String),
    /// A string payload was not valid UTF-8; carries the offset of the
    /// payload bytes.
    FailedToCreateUtf8String(usize),
    /// A type tag byte outside the known table.
    FailedToParseTypeId(u8),
    /// A value index with no entry in the values section.
    FailedToIndexValue(usize),
    /// A pair index with no entry in the key/value section.
    FailedToIndexKeyValue(usize),
    /// An event name index resolved to a non-string value.
    NameOfEventIsNotAString,
    /// An event lifecycle field decoded to a value that is not a lifecycle,
    /// or to an ordinal outside the enumeration.
    LifecycleOfEventOutOfRange,
    /// The key half of a pair resolved to a non-string value.
    EventAttributeKeyIsNotAString,
    /// Split-directory files disagree on the version header.
    VersionsMismatchError(VersionsMismatchError),
    /// The archive could not be unpacked.
    FailedToExtractArchive,
    /// The archive holds more than one entry.
    TooManyFilesInArchive,
    /// A scratch directory for unpacking could not be created.
    FailedToCreateTempDir,
    /// The archive contents are not a readable archive.
    InvalidArchive(String),
    /// A value that had to be a string carried another tag.
    ExpectedString(BxesValue),
}

/// Everything that can go wrong while encoding a BXES stream.
#[derive(Debug)]
pub enum BxesWriteError {
    /// The output could not be opened.
    FailedToOpenFileForWriting(String),
    /// A primitive write failed.
    WriteError(String),
    /// The current position could not be determined for a backpatch.
    FailedToGetWriterPosition(String),
    /// A seek for a backpatch failed.
    FailedToSeek(String),
    /// An attribute referenced a pair that was never interned.
    FailedToFindKeyValueIndex((BxesValue, BxesValue)),
    /// A reference site named a value that was never interned.
    FailedToFindValueIndex(BxesValue),
    /// A scratch file for the archive could not be created.
    FailedToCreateTempFile,
    /// The archive could not be built.
    FailedToCreateArchive,
}

} // verus!
