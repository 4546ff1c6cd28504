//! The files of metadata themselves as a source.

use vstd::prelude::*;
use super::utils::ObjectInfoWithUrl;
use crate::common::TransferURL;
use crate::ghcup::GhcupRepoConfig;
use crate::metadata::{MetaView, SnapshotMeta, SnapshotMetaFlag};
use crate::text::{join_slash, slash_joined};

verus! {

/// Where the files of metadata come from and under which directory they
/// are mirrored. It remembers where each is fetched.
#[derive(Debug)]
pub struct GhcupYaml {
    pub ghcup_repo_config: GhcupRepoConfig,
    pub path_prefix: &'static str,
    /// For each key, the address of the file; of two entries for one key
    /// the later one counts.
    pub name_url_map: Vec<(String, String)>,
}

pub const LEGACY_PREFIX: &'static str = "ghcup/data";

pub const PREFIX: &'static str = "haskell/ghcup-metadata/master";

/// The address kept for `key`: that of the last entry with the key.
pub open spec fn mapped(mapping: Seq<(String, String)>, key: Seq<char>) -> Option<Seq<char>>
    decreases mapping.len(),
{
    if mapping.len() == 0 {
        None
    } else if mapping.last().0@ == key {
        Some(mapping.last().1@)
    } else {
        mapped(mapping.drop_last(), key)
    }
}

impl GhcupYaml {
    pub fn new(ghcup_repo_config: GhcupRepoConfig, legacy: bool) -> (source: Self)
        ensures
            source.ghcup_repo_config == ghcup_repo_config,
            source.path_prefix@ == if legacy {
                LEGACY_PREFIX@
            } else {
                PREFIX@
            },
            source.name_url_map@.len() == 0,
    {
        let path_prefix = if legacy {
            LEGACY_PREFIX
        } else {
            PREFIX
        };
        GhcupYaml { ghcup_repo_config, path_prefix, name_url_map: Vec::new() }
    }

    /// Takes one file of metadata into the snapshot, `now` being the time:
    /// the address is kept for the key, and the item, which is always
    /// transferred and last, is returned.
    pub fn add_file(&mut self, file: ObjectInfoWithUrl, now: u64) -> (item: SnapshotMeta)
        ensures
            item@ == (MetaView {
                key: slash_joined(old(self).path_prefix@, file.name@),
                size: None,
                last_modified: Some(now),
                checksum_method: None,
                checksum: None,
                force: true,
                force_last: true,
            }),
            final(self).ghcup_repo_config == old(self).ghcup_repo_config,
            final(self).path_prefix == old(self).path_prefix,
            final(self).name_url_map@.len() == old(self).name_url_map@.len() + 1,
            final(self).name_url_map@.drop_last() == old(self).name_url_map@,
            final(self).name_url_map@.last().0@ == item@.key,
            final(self).name_url_map@.last().1@ == file.url@,
    {
        let key = join_slash(self.path_prefix, file.name.as_str());
        let ghost before = self.name_url_map@;
        self.name_url_map.push((key.clone(), file.url));
        proof {
            assert(self.name_url_map@.drop_last() =~= before);
        }
        SnapshotMeta {
            key,
            size: None,
            last_modified: Some(now),
            checksum_method: None,
            checksum: None,
            flags: SnapshotMetaFlag { force: true, force_last: true },
        }
    }

    /// The address from which the object of an item is fetched, if the
    /// item is of this source's snapshot.
    pub fn get_object(&self, snapshot: &SnapshotMeta) -> (r: Option<TransferURL>)
        ensures
            match mapped(self.name_url_map@, snapshot.key@) {
                Some(url) => r matches Some(found) && found.0@ == url,
                None => r is None,
            },
    {
        let mut i: usize = self.name_url_map.len();
        proof {
            assert(self.name_url_map@.take(i as int) =~= self.name_url_map@);
        }
        while i > 0
            invariant
                i <= self.name_url_map@.len(),
                mapped(self.name_url_map@, snapshot.key@) == mapped(
                    self.name_url_map@.take(i as int),
                    snapshot.key@,
                ),
            decreases i,
        {
            proof {
                assert(self.name_url_map@.take(i as int).drop_last()
                    =~= self.name_url_map@.take(i - 1));
            }
            if self.name_url_map[i - 1].0 == snapshot.key {
                return Some(TransferURL(self.name_url_map[i - 1].1.clone()));
            }
            i -= 1;
        }
        None
    }
}

} // verus!
