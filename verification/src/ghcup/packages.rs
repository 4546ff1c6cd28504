//! The files on the Haskell download site that the metadata names.

use vstd::prelude::*;
use super::hls::{items_under, keys_under};
use super::parser::{distinct, expected_config_version, GhcupYamlParser};
use super::utils::{latest, version_order, ObjectInfo, Version};
use crate::common::TransferURL;
use crate::error::Error;
use crate::ghcup::GhcupRepoConfig;

use crate::metadata::SnapshotMeta;
use crate::text::{join_slash, slash_joined, KeyOrder};

verus! {

/// Where the metadata comes from, and whether old releases count.
#[derive(Debug)]
pub struct GhcupPackages {
    pub ghcup_repo_config: GhcupRepoConfig,
    pub include_old_versions: bool,
}

pub const DOWNLOADS: &'static str = "https://downloads.haskell.org";

pub const DOWNLOADS_SLASH: &'static str = "https://downloads.haskell.org/";

impl GhcupPackages {
    /// Which of the files of metadata is read: the newest. Also says
    /// whether its version is the one that this reader was written for.
    pub fn choose_config(&self, files: &Vec<ObjectInfo>) -> (r: Result<(usize, bool), Error>)
        ensures
            files@.len() == 0 ==> (r matches Err(e) && e is ProcessError),
            files@.len() > 0 ==> (r matches Ok((at, expected)) && at < files@.len() && (forall|
                i: int,
            |
                0 <= i < files@.len() ==> version_order(
                    (#[trigger] files@[i]).version,
                    files@[at as int].version,
                ) != KeyOrder::After) && expected == (files@[at as int].version == (Version {
                patch: 8,
                minor: 0,
                major: 0,
            }))),
    {
        match latest(files) {
            Some(at) => {
                let wanted = expected_config_version();
                let found = &files[at].version;
                let expected = found.major == wanted.major && found.minor == wanted.minor
                    && found.patch == wanted.patch;
                Ok((at, expected))
            },
            None => Err(Error::ProcessError(String::from_str("no config file found"))),
        }
    }

    /// The snapshot that the metadata stands for: one item for each file on
    /// the download site that it names.
    pub fn snapshot(&self, config: &GhcupYamlParser) -> (items: Vec<SnapshotMeta>)
        ensures
            exists|uris: Seq<Seq<char>>|
                {
                    &&& distinct(uris)
                    &&& forall|u: Seq<char>| #[trigger]
                        uris.contains(u) <==> config.ghcup_downloads.offers(
                            self.include_old_versions,
                            u,
                        )
                    &&& items@.map_values(|item: SnapshotMeta| item@.key) == keys_under(
                        uris,
                        DOWNLOADS_SLASH@,
                    )
                },
    {
        let uris = config.ghcup_downloads.uris(self.include_old_versions);
        items_under(&uris, DOWNLOADS_SLASH)
    }

    /// The address from which the object of an item is fetched.
    pub fn get_object(&self, snapshot: &SnapshotMeta) -> (url: TransferURL)
        ensures
            url.0@ == slash_joined(DOWNLOADS@, snapshot.key@),
    {
        TransferURL(join_slash(DOWNLOADS, snapshot.key.as_str()))
    }
}

} // verus!
