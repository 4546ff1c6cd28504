//! The plain values that every stage carries.

use vstd::prelude::*;

verus! {

/// Limits that hold while a snapshot is taken.
#[derive(Debug, Copy, Clone)]
pub struct SnapshotConfig {
    pub concurrent_resolve: usize,
}

/// A snapshot item that is only a key, with its `force` flag.
#[derive(Debug)]
pub struct SnapshotPath(pub String, pub bool);

/// How many requests a snapshot makes at once unless it is told otherwise.
pub const DEFAULT_CONCURRENT_RESOLVE: usize = 64;

/// How many items are in flight at once unless the engine is told
/// otherwise.
pub const DEFAULT_CONCURRENT_TRANSFER: usize = 8;

impl Default for SnapshotConfig {
    fn default() -> (config: Self)
        ensures
            config.concurrent_resolve == DEFAULT_CONCURRENT_RESOLVE,
    {
        SnapshotConfig { concurrent_resolve: DEFAULT_CONCURRENT_RESOLVE }
    }
}

impl SnapshotPath {
    /// The item for `key`, transferred only when the target lacks it.
    pub fn new(key: String) -> (item: Self)
        ensures
            item.0 == key,
            !item.1,
    {
        Self(key, false)
    }

    /// The item for `key`, transferred whatever the target holds.
    pub fn force(key: String) -> (item: Self)
        ensures
            item.0 == key,
            item.1,
    {
        Self(key, true)
    }
}

impl Clone for SnapshotPath {
    fn clone(&self) -> (item: Self)
        ensures
            item == *self,
    {
        Self(self.0.clone(), self.1)
    }
}

/// An absolute URL that the byte-stream pipe fetches.
#[derive(Debug)]
pub struct TransferURL(pub String);

/// A key handed on as it is, for targets that resolve it themselves.
#[derive(Debug)]
pub struct TransferPath(pub String);

} // verus!
