//! The conda source: the packages that the index of each repository lists,
//! and the index files themselves, which go last.

use vstd::prelude::*;
use crate::common::TransferURL;
use crate::metadata::{opt_str_view, MetaView, SnapshotMeta, SnapshotMetaFlag};
use crate::text::{join_slash, slash_joined};

verus! {

/// Where the list of repositories is read from.
#[derive(Debug)]
pub struct CondaConfig {
    pub repo_config: String,
}

/// The repositories that are mirrored, all under one base address.
#[derive(Debug)]
pub struct CondaRepos {
    pub base: String,
    pub repos: Vec<String>,
}

/// The conda source.
pub struct Conda {
    pub config: CondaConfig,
    pub repos: CondaRepos,
}

/// What the index of a repository says of one package.
#[derive(Debug)]
pub struct CondaPackage {
    pub name: String,
    pub size: Option<u64>,
    pub sha256: Option<String>,
}

/// Turns the entries of the index of the repository `repo` into items.
#[derive(Debug)]
pub struct Snapshot {
    pub repo: String,
}

pub const SHA256: &'static str = "sha256";

pub const REPODATA: &'static str = "repodata.json";

pub const REPODATA_BZ2: &'static str = "repodata.json.bz2";

pub const CURRENT_REPODATA: &'static str = "current_repodata.json";

/// How many repositories are read at once.
pub const CONCURRENT_REPOS: usize = 4;

/// The item for a package of the repository `repo`.
pub open spec fn package_view(repo: Seq<char>, package: CondaPackage) -> MetaView {
    MetaView {
        key: slash_joined(repo, package.name@),
        size: package.size,
        last_modified: None,
        checksum_method: if package.sha256 is Some {
            Some(SHA256@)
        } else {
            None
        },
        checksum: opt_str_view(package.sha256),
        force: false,
        force_last: false,
    }
}

/// The item for an index file, which is always transferred, and last.
pub open spec fn forced_view(key: Seq<char>) -> MetaView {
    MetaView {
        key,
        size: None,
        last_modified: None,
        checksum_method: None,
        checksum: None,
        force: true,
        force_last: true,
    }
}

impl Snapshot {
    /// The item for one package.
    pub fn package(&self, package: CondaPackage) -> (item: SnapshotMeta)
        ensures
            item@ == package_view(self.repo@, package),
    {
        let key = join_slash(self.repo.as_str(), package.name.as_str());
        let method = match &package.sha256 {
            Some(_) => Some(String::from_str(SHA256)),
            None => None,
        };
        SnapshotMeta {
            key,
            size: package.size,
            last_modified: None,
            checksum_method: method,
            checksum: package.sha256,
            flags: SnapshotMetaFlag { force: false, force_last: false },
        }
    }

    /// The items of the index files of the repository.
    pub fn index_items(&self) -> (items: Vec<SnapshotMeta>)
        ensures
            items@.len() == 3,
            items@[0]@ == forced_view(slash_joined(self.repo@, REPODATA@)),
            items@[1]@ == forced_view(slash_joined(self.repo@, REPODATA_BZ2@)),
            items@[2]@ == forced_view(slash_joined(self.repo@, CURRENT_REPODATA@)),
    {
        let mut items: Vec<SnapshotMeta> = Vec::new();
        items.push(SnapshotMeta::force(join_slash(self.repo.as_str(), REPODATA)));
        items.push(SnapshotMeta::force(join_slash(self.repo.as_str(), REPODATA_BZ2)));
        items.push(SnapshotMeta::force(join_slash(self.repo.as_str(), CURRENT_REPODATA)));
        items
    }

    /// The items of a repository: one for each package of its index, in the
    /// order of the index, and then the index files.
    pub fn items(&self, packages: Vec<CondaPackage>) -> (items: Vec<SnapshotMeta>)
        ensures
            items@.len() == packages@.len() + 3,
            forall|i: int|
                0 <= i < packages@.len() ==> (#[trigger] items@[i])@ == package_view(
                    self.repo@,
                    packages@[i],
                ),
            items@[packages@.len() as int]@ == forced_view(slash_joined(self.repo@, REPODATA@)),
            items@[packages@.len() as int + 1]@ == forced_view(slash_joined(self.repo@, REPODATA_BZ2@)),
            items@[packages@.len() as int + 2]@ == forced_view(
                slash_joined(self.repo@, CURRENT_REPODATA@),
            ),
    {
        let ghost all = packages@;
        let mut items: Vec<SnapshotMeta> = Vec::new();
        for package in it: packages
            invariant
                it.seq() == all,
                items@.len() == it.index(),
                forall|i: int|
                    0 <= i < items@.len() ==> (#[trigger] items@[i])@ == package_view(
                        self.repo@,
                        all[i],
                    ),
        {
            items.push(self.package(package));
        }
        let mut index = self.index_items();
        items.append(&mut index);
        items
    }
}

impl Conda {
    pub fn new(config: CondaConfig, repos: CondaRepos) -> (source: Self)
        ensures
            source.config == config,
            source.repos == repos,
    {
        Conda { config, repos }
    }

    /// Where the index of a repository is fetched.
    pub fn repodata_url(&self, repo: &str) -> (url: String)
        ensures
            url@ == slash_joined(slash_joined(self.repos.base@, repo@), REPODATA@),
    {
        let dir = join_slash(self.repos.base.as_str(), repo);
        join_slash(dir.as_str(), REPODATA)
    }

    /// The address from which the object of an item is fetched.
    pub fn get_object(&self, snapshot: &SnapshotMeta) -> (url: TransferURL)
        ensures
            url.0@ == slash_joined(self.repos.base@, snapshot.key@),
    {
        TransferURL(join_slash(self.repos.base.as_str(), snapshot.key.as_str()))
    }
}

} // verus!
