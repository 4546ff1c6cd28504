//! What a snapshot item offers to the engine and to the pipes.

use vstd::prelude::*;
use crate::common::{SnapshotPath, TransferPath};

verus! {

/// An item is found, sorted and routed by its key.
pub trait Key: Sized {
    spec fn key_view(&self) -> Seq<char>;

    /// The same item under another key.
    spec fn with_key(&self, key: String) -> Self;

    /// Under another key the item has that key.
    proof fn lemma_with_key(&self, key: String)
        ensures
            self.with_key(key).key_view() == key@,
    ;

    fn key(&self) -> (k: &str)
        ensures
            k@ == self.key_view(),
    ;

    fn key_mut(&mut self) -> (k: &mut String)
        ensures
            k@ == old(self).key_view(),
            *final(self) == old(self).with_key(*final(k)),
            final(self).key_view() == final(k)@,
    ;
}

/// What an item knows of the object besides its key.
pub trait Metadata {
    spec fn priority_of(&self) -> int;

    spec fn last_modified_of(&self) -> Option<u64>;

    spec fn checksum_of(&self) -> Option<Seq<char>>;

    spec fn checksum_method_of(&self) -> Option<Seq<char>>;

    /// Items of higher priority are transferred first.
    fn priority(&self) -> (p: isize)
        ensures
            p == self.priority_of(),
    ;

    fn last_modified(&self) -> (t: Option<u64>)
        ensures
            t == self.last_modified_of(),
    ;

    fn checksum(&self) -> (c: Option<&str>)
        ensures
            c is Some == self.checksum_of() is Some,
            c matches Some(s) ==> s@ == self.checksum_of()->0,
    ;

    fn checksum_method(&self) -> (m: Option<&str>)
        ensures
            m is Some == self.checksum_method_of() is Some,
            m matches Some(s) ==> s@ == self.checksum_method_of()->0,
    ;
}

/// Whether the object behind a source item has to replace the one behind a
/// target item of the same key.
pub trait Diff {
    spec fn differs(&self, other: &Self) -> bool;

    fn diff(&self, other: &Self) -> (d: bool)
        ensures
            d == self.differs(other),
    ;
}

/// The object of an item for targets that resolve keys themselves: the key
/// as it is.
pub fn echo_key<S: Key>(snapshot: &S) -> (object: TransferPath)
    ensures
        object.0@ == snapshot.key_view(),
{
    TransferPath(String::from_str(snapshot.key()))
}

impl Key for SnapshotPath {
    open spec fn key_view(&self) -> Seq<char> {
        self.0@
    }

    open spec fn with_key(&self, key: String) -> Self {
        SnapshotPath(key, self.1)
    }

    proof fn lemma_with_key(&self, key: String) {
    }

    fn key(&self) -> (k: &str) {
        self.0.as_str()
    }

    fn key_mut(&mut self) -> (k: &mut String) {
        &mut self.0
    }
}

impl Diff for SnapshotPath {
    open spec fn differs(&self, other: &Self) -> bool {
        self.1 || other.1
    }

    fn diff(&self, other: &Self) -> (d: bool) {
        self.1 || other.1
    }
}

impl Metadata for SnapshotPath {
    open spec fn priority_of(&self) -> int {
        0
    }

    open spec fn last_modified_of(&self) -> Option<u64> {
        None
    }

    open spec fn checksum_of(&self) -> Option<Seq<char>> {
        None
    }

    open spec fn checksum_method_of(&self) -> Option<Seq<char>> {
        None
    }

    fn priority(&self) -> (p: isize) {
        0
    }

    fn last_modified(&self) -> (t: Option<u64>) {
        None
    }

    fn checksum(&self) -> (c: Option<&str>) {
        None
    }

    fn checksum_method(&self) -> (m: Option<&str>) {
        None
    }
}

} // verus!
