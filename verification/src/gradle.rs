//! The Gradle source: the distributions that the version service lists.

use vstd::prelude::*;
use crate::common::TransferURL;
use crate::metadata::{MetaView, SnapshotMeta};
use crate::text::{join_slash, slash_joined, strip_prefix};

verus! {

/// Where the versions are listed and where the distributions lie.
#[derive(Debug)]
pub struct Gradle {
    pub api_base: String,
    pub distribution_base: String,
}

/// What the version service says of one version.
#[derive(Debug)]
pub struct GradleVersion {
    /// The release that this version is a candidate for, if it is one.
    pub rc_for: Option<String>,
    pub download_url: Option<String>,
}

/// The key of a version that is mirrored: what follows the base address in
/// the address of its distribution. A release candidate, a version without
/// an address and one that lies elsewhere are not mirrored.
pub open spec fn version_key(base: Seq<char>, version: GradleVersion) -> Option<Seq<char>> {
    if version.rc_for matches Some(rc) && rc@.len() > 0 {
        None
    } else {
        match version.download_url {
            Some(url) => if base.is_prefix_of(url@) {
                Some(url@.skip(base.len() as int))
            } else {
                None
            },
            None => None,
        }
    }
}

impl Gradle {
    /// The item for a version, if it is mirrored.
    pub fn version_item(&self, version: &GradleVersion) -> (r: Option<SnapshotMeta>)
        ensures
            match version_key(self.distribution_base@, *version) {
                Some(key) => r matches Some(item) && item@ == (MetaView {
                    key,
                    size: None,
                    last_modified: None,
                    checksum_method: None,
                    checksum: None,
                    force: false,
                    force_last: false,
                }),
                None => r is None,
            },
    {
        match &version.rc_for {
            Some(rc) => {
                if rc.as_str().unicode_len() > 0 {
                    return None;
                }
            },
            None => {},
        }
        match &version.download_url {
            Some(url) => match strip_prefix(url.as_str(), self.distribution_base.as_str()) {
                Some(key) => Some(SnapshotMeta::new(key)),
                None => None,
            },
            None => None,
        }
    }

    /// The address from which the object of an item is fetched.
    pub fn get_object(&self, snapshot: &SnapshotMeta) -> (url: TransferURL)
        ensures
            url.0@ == slash_joined(self.distribution_base@, snapshot.key@),
    {
        TransferURL(join_slash(self.distribution_base.as_str(), snapshot.key.as_str()))
    }
}

} // verus!
