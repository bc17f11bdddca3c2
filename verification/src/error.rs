//! Error taxonomy: configuration errors are distinguishable from I/O and
//! encoding errors, and each category maps to a fixed process exit code.

use vstd::prelude::*;

verus! {

/// The failure categories a run can end with. Configuration errors
/// (`Args`, `CommandLine`) are reported before any external process runs;
/// `Io` covers build-tool invocation and file-system failures; `Utf8`
/// covers a source file that is not valid UTF-8.
#[derive(Debug)]
pub enum Error {
    Io(String),
    Utf8(String),
    Args(String),
    CommandLine(String),
}

impl Error {
    /// The process exit code reported for this error: I/O failures exit
    /// with 3, encoding failures with 2, and user-input errors with 1.
    pub fn exit_code(&self) -> (c: u8)
        ensures
            c == (match self {
                Error::Io(_) => 3u8,
                Error::Utf8(_) => 2u8,
                Error::Args(_) => 1u8,
                Error::CommandLine(_) => 1u8,
            }),
    {
        match self {
            Error::Io(_) => 3,
            Error::Utf8(_) => 2,
            Error::Args(_) => 1,
            Error::CommandLine(_) => 1,
        }
    }

    /// The text carried by the error, for display by the caller.
    pub fn message(&self) -> (m: &String)
        ensures
            m@ == (match self {
                Error::Io(s) => s@,
                Error::Utf8(s) => s@,
                Error::Args(s) => s@,
                Error::CommandLine(s) => s@,
            }),
    {
        match self {
            Error::Io(s) => s,
            Error::Utf8(s) => s,
            Error::Args(s) => s,
            Error::CommandLine(s) => s,
        }
    }
}

} // verus!
