//! Deadlines: what becomes of a result that may have come too late.

use vstd::prelude::*;
use crate::error::Error;

verus! {

/// The mark of a deadline that passed.
#[derive(Debug)]
pub struct Elapsed;

/// A result that a deadline may have cut short, as a plain result.
pub trait TryTimeoutExt<T> {
    spec fn in_time(&self) -> Option<Result<T, Error>>;

    /// The result itself if it came in time, and the timeout error if not.
    fn into_result(self) -> (r: Result<T, Error>)
        ensures
            match self.in_time() {
                Some(inner) => r == inner,
                None => r matches Err(e) && e is TimeoutError,
            },
    ;
}

impl<T> TryTimeoutExt<T> for Result<Result<T, Error>, Elapsed> {
    open spec fn in_time(&self) -> Option<Result<T, Error>> {
        match *self {
            Ok(inner) => Some(inner),
            Err(_) => None,
        }
    }

    fn into_result(self) -> (r: Result<T, Error>) {
        match self {
            Ok(inner) => inner,
            Err(_) => Err(Error::TimeoutError),
        }
    }
}

/// How long a deletion may take, in seconds.
pub const DELETE_TIMEOUT_SECS: u64 = 60;

/// How long a call that is known to hang at times may take, in seconds.
pub const REQUEST_TIMEOUT_SECS: u64 = 60;

/// How long the client waits for a connection, in seconds.
pub const CONNECT_TIMEOUT_SECS: u64 = 10;

} // verus!
