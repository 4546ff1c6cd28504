//! The pipe that holds every object against the digest of its snapshot item.

use vstd::prelude::*;
use crate::error::Error;
use crate::traits::Metadata;
use crate::utils::checksum::{calc_checksum, compare_checksum, digest_hex};

verus! {

/// A source whose objects are checked before they are handed on.
pub struct ChecksumPipe<Source> {
    pub source: Source,
}

/// What the pipe owes for an item and the bytes of its object: where the
/// item gives a method and a digest, the bytes have that digest; where it
/// lacks either, nothing is asked.
pub open spec fn checksum_verdict<S: Metadata>(
    snapshot: S,
    data: Seq<u8>,
    r: Result<(), Error>,
) -> bool {
    match (snapshot.checksum_method_of(), snapshot.checksum_of()) {
        (Some(method), Some(expected)) => match digest_hex(method, data) {
            Some(got) => {
                &&& r is Ok <==> expected == got
                &&& r matches Err(e) ==> (e matches Error::ChecksumError {
                    method: m,
                    expected: x,
                    got: g,
                } && m@ == method && x@ == expected && g@ == got)
            },
            None => r matches Err(e) && e is IoError,
        },
        _ => r is Ok,
    }
}

/// What the pipe hands on for an item, from what the wrapped source gave
/// for it and the bytes `data` of the object: a failure of the source as it
/// is; the object itself where the check passes or none is asked; and else
/// the failure of the check.
pub open spec fn is_checked<S: Metadata, T>(
    snapshot: S,
    fetched: Result<T, Error>,
    data: Seq<u8>,
    r: Result<T, Error>,
) -> bool {
    match fetched {
        Err(fault) => r == Err::<T, Error>(fault),
        Ok(object) => match r {
            Ok(same) => same == object && checksum_verdict(snapshot, data, Ok::<(), Error>(())),
            Err(e) => checksum_verdict(snapshot, data, Err::<(), Error>(e)),
        },
    }
}

impl<Source> ChecksumPipe<Source> {
    pub fn new(source: Source) -> (pipe: Self)
        ensures
            pipe.source == source,
    {
        ChecksumPipe { source }
    }

    /// Checks the bytes that the wrapped source gave for an item. The object
    /// is handed on only where this returns `Ok`.
    pub fn verify<S: Metadata>(&self, snapshot: &S, data: &[u8]) -> (r: Result<(), Error>)
        ensures
            checksum_verdict(*snapshot, data@, r),
    {
        match (snapshot.checksum_method(), snapshot.checksum()) {
            (Some(method), Some(expected)) => match calc_checksum(data, method) {
                Some(got) => compare_checksum(method, expected, got),
                None => Err(Error::IoError(String::from_str("unsupported checksum method"))),
            },
            _ => Ok(()),
        }
    }

    /// Whether the object of an item is read and checked: only where the
    /// item gives a method and a digest.
    pub fn checks<S: Metadata>(&self, snapshot: &S) -> (r: bool)
        ensures
            r == (snapshot.checksum_method_of() is Some && snapshot.checksum_of() is Some),
    {
        snapshot.checksum_method().is_some() && snapshot.checksum().is_some()
    }

    /// Hands on what the wrapped source gave for an item, after the check of
    /// its bytes `data`: the failure of the source as it is, the object
    /// untouched where the bytes have the digest that the item gives or the
    /// item gives none, and else the failure of the check, with which the
    /// object is given up. The driver reads the bytes where `checks` says
    /// so, and rewinds.
    pub fn get_object<S: Metadata, T>(
        &self,
        snapshot: &S,
        fetched: Result<T, Error>,
        data: &[u8],
    ) -> (r: Result<T, Error>)
        ensures
            is_checked(*snapshot, fetched, data@, r),
    {
        match fetched {
            Err(fault) => Err(fault),
            Ok(object) => match self.verify(snapshot, data) {
                Ok(_) => Ok(object),
                Err(e) => Err(e),
            },
        }
    }
}

/// Checksum enforcement: an object whose digest is not the expected one is
/// refused with the method and both digests, and one whose digest is the
/// expected one is handed on as it came.
pub proof fn lemma_checksum_enforced<S: Metadata, T>(
    snapshot: S,
    object: T,
    data: Seq<u8>,
    r: Result<T, Error>,
    method: Seq<char>,
    expected: Seq<char>,
    got: Seq<char>,
)
    requires
        is_checked(snapshot, Ok::<T, Error>(object), data, r),
        snapshot.checksum_method_of() == Some(method),
        snapshot.checksum_of() == Some(expected),
        digest_hex(method, data) == Some(got),
    ensures
        got != expected ==> (r matches Err(e) && (e matches Error::ChecksumError {
            method: m,
            expected: x,
            got: g,
        } && m@ == method && x@ == expected && g@ == got)),
        got == expected ==> r == Ok::<T, Error>(object),
{
}

} // verus!
