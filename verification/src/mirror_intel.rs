//! The mirror-intel target: it is told of every object and fetches what it
//! lacks by itself.

use vstd::prelude::*;
use crate::common::{SnapshotPath, TransferPath};
use crate::error::Error;
use crate::text::{contains, join_slash, occurs_in, slash_joined};

verus! {

/// Where mirror-intel listens.
#[derive(Debug)]
pub struct MirrorIntelConfig {
    pub base: String,
}

/// mirror-intel as a target.
pub struct MirrorIntel {
    pub config: MirrorIntelConfig,
}

/// The mark of an object that the store already has.
pub const STORED_MARK: &'static str = "jcloud";

/// How long a queue may get before the sender slows down.
pub const QUEUE_LIMIT: u64 = 16384;

/// How many seconds the sender waits after a request: one if the object
/// was not in the store yet, and one more for every entry of the queue
/// above the limit.
pub open spec fn pause_after(location: Option<Seq<char>>, queue_length: Option<u64>) -> int {
    (match location {
        Some(l) => if occurs_in(STORED_MARK@, l) {
            0int
        } else {
            1int
        },
        None => 0int,
    }) + (match queue_length {
        Some(q) => if q > QUEUE_LIMIT {
            q - QUEUE_LIMIT
        } else {
            0int
        },
        None => 0int,
    })
}

impl MirrorIntel {
    pub fn new(base: String) -> (target: Self)
        ensures
            target.config.base == base,
    {
        MirrorIntel { config: MirrorIntelConfig { base } }
    }

    /// mirror-intel lists nothing, so every object is told to it.
    pub fn snapshot(&self) -> (items: Vec<SnapshotPath>)
        ensures
            items@.len() == 0,
    {
        Vec::new()
    }

    /// The address that is asked for an object.
    pub fn target_url(&self, item: &TransferPath) -> (url: String)
        ensures
            url@ == slash_joined(self.config.base@, item.0@),
    {
        join_slash(self.config.base.as_str(), item.0.as_str())
    }

    /// How many seconds to wait after the answer to a request, from where
    /// it redirects to and how long it says the queue is.
    pub fn throttle(&self, location: Option<&str>, queue_length: Option<u64>) -> (seconds: u64)
        ensures
            seconds == pause_after(
                match location {
                    Some(l) => Some(l@),
                    None => None,
                },
                queue_length,
            ),
    {
        let first: u64 = match location {
            Some(l) => if contains(l, STORED_MARK) {
                0
            } else {
                1
            },
            None => 0,
        };
        let second: u64 = match queue_length {
            Some(q) => if q > QUEUE_LIMIT {
                q - QUEUE_LIMIT
            } else {
                0
            },
            None => 0,
        };
        first + second
    }

    /// Nothing is ever deleted through mirror-intel.
    pub fn delete_object(&self) -> (r: Result<(), Error>)
        ensures
            r matches Err(e) && e is StorageError,
    {
        Err(Error::StorageError(String::from_str("delete is not supported for mirror-intel backend")))
    }
}

} // verus!
