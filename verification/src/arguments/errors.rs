//! What can go wrong with the file of arguments.

use vstd::prelude::*;

verus! {

/// The file could not be made into a stream. Each variant holds the file's
/// path and the cause that the reader gave.
#[derive(Debug, PartialEq, Eq)]
pub enum FileErr {
    /// The file could not be opened.
    Open(String, String),
    /// The first read of the file failed.
    Read(String, String),
}

/// The stream could not yield its next record.
#[derive(Debug, PartialEq, Eq)]
pub enum InputIteratorErr {
    /// A read failed in mid-stream: the file's path, and the cause that the
    /// reader gave.
    FileRead(String, String),
    /// A record is longer than the window can hold.
    RecordTooLong,
}

} // verus!
