//! The crates.io source: one item for each version of each crate that the
//! index names.

use vstd::prelude::*;
use crate::common::TransferURL;
use crate::metadata::{MetaView, SnapshotMeta, SnapshotMetaFlag};
use crate::text::{join_slash, slash_joined};

verus! {

/// One line of the index: a version of a crate.
#[derive(Debug)]
pub struct CratesIoPackage {
    pub name: String,
    pub vers: String,
    pub cksum: String,
}

/// Where the index and the crates are fetched.
#[derive(Debug)]
pub struct CratesIo {
    /// The archive of the index.
    pub zip_master: String,
    /// The base address of the crate files.
    pub crates_base: String,
    /// Reading stops after ten thousand versions.
    pub debug: bool,
}

pub const SHA256: &'static str = "sha256";

pub const CRATE_SUFFIX: &'static str = ".crate";

/// How many versions are read in debug mode before reading stops.
pub const DEBUG_PACKAGES: usize = 10000;

/// The key of a version of a crate: the name as directory, then name,
/// version and suffix.
pub open spec fn crate_key(name: Seq<char>, vers: Seq<char>) -> Seq<char> {
    name + seq!['/'] + name + seq!['-'] + vers + CRATE_SUFFIX@
}

impl CratesIo {
    /// The item for one version of a crate.
    pub fn package_item(&self, package: CratesIoPackage) -> (item: SnapshotMeta)
        ensures
            item@ == (MetaView {
                key: crate_key(package.name@, package.vers@),
                size: None,
                last_modified: None,
                checksum_method: Some(SHA256@),
                checksum: Some(package.cksum@),
                force: false,
                force_last: false,
            }),
    {
        let mut key = package.name.clone();
        key.push('/');
        key.append(package.name.as_str());
        key.push('-');
        key.append(package.vers.as_str());
        key.append(CRATE_SUFFIX);
        proof {
            assert(key@ =~= crate_key(package.name@, package.vers@));
        }
        SnapshotMeta {
            key,
            size: None,
            last_modified: None,
            checksum_method: Some(String::from_str(SHA256)),
            checksum: Some(package.cksum),
            flags: SnapshotMetaFlag { force: false, force_last: false },
        }
    }

    /// Whether reading stops after a file of the index, `read` versions
    /// having been read so far.
    pub fn stops_after(&self, read: usize) -> (r: bool)
        ensures
            r == (self.debug && read >= DEBUG_PACKAGES),
    {
        self.debug && read >= DEBUG_PACKAGES
    }

    /// The address from which the object of an item is fetched.
    pub fn get_object(&self, snapshot: &SnapshotMeta) -> (url: TransferURL)
        ensures
            url.0@ == slash_joined(self.crates_base@, snapshot.key@),
    {
        TransferURL(join_slash(self.crates_base.as_str(), snapshot.key.as_str()))
    }
}

} // verus!
