//! What can go wrong, by kind.

use vstd::prelude::*;
use crate::text::{decimal, push_decimal};

verus! {

/// The kinds of failure. A failure while a snapshot is taken ends the run;
/// one while an item is fetched or put ends that item only.
#[derive(Debug)]
#[allow(inconsistent_fields)]
pub enum Error {
    /// The transport failed before a response came.
    Network(String),
    /// A response came with a status outside 200..=299.
    HTTPError(u16),
    /// The file system refused a read or a write.
    IoError(String),
    /// A value that had to be there was not.
    NoneError,
    /// A listing could not be decoded.
    DecodeError(String),
    /// The body was not as long as the response had said.
    LengthMismatch { expected: u64, got: u64 },
    /// The object's digest is not the one that the snapshot gave.
    ChecksumError { method: String, expected: String, got: String },
    /// The snapshot and the response give two modification times.
    ModifiedMismatch { http: u64, snapshot: u64 },
    /// Neither the snapshot nor the response gives a modification time.
    NoModifiedTime,
    /// A key that no merged source stands for.
    UnexpectedPrefix,
    /// An explicit deadline passed.
    TimeoutError,
    /// A sub-process ended with a failure.
    ProcessError(String),
    /// The target refused the operation.
    StorageError(String),
    /// The options given do not go together.
    ConfigureError(String),
    /// A pipe could not do its work.
    PipeError(String),
}

pub type Result<T> = core::result::Result<T, Error>;

pub const NETWORK: &'static str = "Network Error ";

pub const HTTP: &'static str = "HTTP Error ";

pub const IO: &'static str = "IO Error ";

pub const NONE: &'static str = "None Error";

pub const DECODE: &'static str = "Decode Error ";

pub const LENGTH: &'static str = "content length mismatch: ";

pub const CHECKSUM: &'static str = "Checksum Error: method=";

pub const EXPECTED: &'static str = ", expected=";

pub const GOT: &'static str = ", got=";

pub const MODIFIED: &'static str = "mismatch modified time: http=";

pub const SNAPSHOT: &'static str = ", snapshot=";

pub const NO_MODIFIED: &'static str = "no modified time";

pub const PREFIX: &'static str = "unexpected prefix";

pub const TIMEOUT: &'static str = "Timeout Error";

pub const PROCESS: &'static str = "Process Error ";

pub const STORAGE: &'static str = "Storage Error ";

pub const CONFIGURE: &'static str = "Configure Error ";

pub const PIPE: &'static str = "Pipe Error ";

/// What the log says of a failure.
pub open spec fn error_text(e: Error) -> Seq<char> {
    match e {
        Error::Network(m) => NETWORK@ + m@,
        Error::HTTPError(code) => HTTP@ + decimal(code as nat),
        Error::IoError(m) => IO@ + m@,
        Error::NoneError => NONE@,
        Error::DecodeError(m) => DECODE@ + m@,
        Error::LengthMismatch { expected, got } => LENGTH@ + decimal(got as nat) + seq!['/']
            + decimal(expected as nat),
        Error::ChecksumError { method, expected, got } => CHECKSUM@ + method@ + EXPECTED@
            + expected@ + GOT@ + got@,
        Error::ModifiedMismatch { http, snapshot } => MODIFIED@ + decimal(http as nat) + SNAPSHOT@
            + decimal(snapshot as nat),
        Error::NoModifiedTime => NO_MODIFIED@,
        Error::UnexpectedPrefix => PREFIX@,
        Error::TimeoutError => TIMEOUT@,
        Error::ProcessError(m) => PROCESS@ + m@,
        Error::StorageError(m) => STORAGE@ + m@,
        Error::ConfigureError(m) => CONFIGURE@ + m@,
        Error::PipeError(m) => PIPE@ + m@,
    }
}

fn with_message(kind: &str, message: &str) -> (s: String)
    ensures
        s@ == kind@ + message@,
{
    let mut s = String::from_str(kind);
    s.append(message);
    s
}

impl Error {
    /// Writes the failure as the log shows it.
    pub fn to_string(&self) -> (s: String)
        ensures
            s@ == error_text(*self),
    {
        match self {
            Error::Network(m) => with_message(NETWORK, m.as_str()),
            Error::HTTPError(code) => {
                let mut s = String::from_str(HTTP);
                push_decimal(&mut s, *code as u64);
                s
            },
            Error::IoError(m) => with_message(IO, m.as_str()),
            Error::NoneError => String::from_str(NONE),
            Error::DecodeError(m) => with_message(DECODE, m.as_str()),
            Error::LengthMismatch { expected, got } => {
                let mut s = String::from_str(LENGTH);
                push_decimal(&mut s, *got);
                s.push('/');
                push_decimal(&mut s, *expected);
                s
            },
            Error::ChecksumError { method, expected, got } => {
                let mut s = String::from_str(CHECKSUM);
                s.append(method.as_str());
                s.append(EXPECTED);
                s.append(expected.as_str());
                s.append(GOT);
                s.append(got.as_str());
                s
            },
            Error::ModifiedMismatch { http, snapshot } => {
                let mut s = String::from_str(MODIFIED);
                push_decimal(&mut s, *http);
                s.append(SNAPSHOT);
                push_decimal(&mut s, *snapshot);
                s
            },
            Error::NoModifiedTime => String::from_str(NO_MODIFIED),
            Error::UnexpectedPrefix => String::from_str(PREFIX),
            Error::TimeoutError => String::from_str(TIMEOUT),
            Error::ProcessError(m) => with_message(PROCESS, m.as_str()),
            Error::StorageError(m) => with_message(STORAGE, m.as_str()),
            Error::ConfigureError(m) => with_message(CONFIGURE, m.as_str()),
            Error::PipeError(m) => with_message(PIPE, m.as_str()),
        }
    }
}

} // verus!
