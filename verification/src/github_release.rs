//! The GitHub Releases source: the assets of the newest releases of a
//! repository.

use vstd::prelude::*;
use crate::common::TransferURL;
use crate::error::Error;
use crate::metadata::{MetaView, SnapshotMeta, SnapshotMetaFlag};
use crate::text::{concat3, strip_prefix};

verus! {

/// One file of a release.
#[derive(Debug)]
pub struct GitHubReleaseAsset {
    pub url: String,
    pub id: u64,
    pub name: String,
    pub content_type: String,
    pub size: u64,
    /// Seconds since the epoch.
    pub created_at: u64,
    /// Seconds since the epoch.
    pub updated_at: u64,
    pub browser_download_url: String,
}

/// One release, with its files.
#[derive(Debug)]
pub struct GitHubReleaseItem {
    pub tag_name: String,
    pub name: String,
    pub assets: Vec<GitHubReleaseAsset>,
}

/// Which repository is mirrored, and how much of it.
#[derive(Debug)]
pub struct GitHubRelease {
    /// Owner and name, with a slash between.
    pub repo: String,
    /// How many releases count, the newest first.
    pub version_to_retain: usize,
}

pub const GITHUB: &'static str = "https://github.com/";

pub const API_REPOS: &'static str = "https://api.github.com/repos/";

pub const RELEASES: &'static str = "/releases";

/// The address under which the files of the repository are fetched.
pub open spec fn download_base(repo: Seq<char>) -> Seq<char> {
    GITHUB@ + repo + seq!['/']
}

/// The item for a file of a release.
pub open spec fn asset_view(repo: Seq<char>, asset: GitHubReleaseAsset) -> MetaView {
    MetaView {
        key: asset.browser_download_url@.skip(download_base(repo).len() as int),
        size: Some(asset.size),
        last_modified: Some(asset.updated_at),
        checksum_method: None,
        checksum: None,
        force: false,
        force_last: false,
    }
}

/// The files of the first `n` releases, in their order.
pub open spec fn assets_of(releases: Seq<GitHubReleaseItem>, n: int) -> Seq<GitHubReleaseAsset>
    decreases n,
{
    if n <= 0 || n > releases.len() {
        Seq::empty()
    } else {
        assets_of(releases, n - 1) + releases[n - 1].assets@
    }
}

impl GitHubRelease {
    pub fn new(repo: String, version_to_retain: usize) -> (source: Self)
        ensures
            source.repo == repo,
            source.version_to_retain == version_to_retain,
    {
        GitHubRelease { repo, version_to_retain }
    }

    /// Where the releases are listed.
    pub fn api_url(&self) -> (url: String)
        ensures
            url@ == API_REPOS@ + self.repo@ + RELEASES@,
    {
        concat3(API_REPOS, self.repo.as_str(), RELEASES)
    }

    /// The item for a file of a release. A file that does not lie under the
    /// repository is refused.
    pub fn asset_item(&self, asset: &GitHubReleaseAsset) -> (r: Result<SnapshotMeta, Error>)
        ensures
            match r {
                Ok(item) => download_base(self.repo@).is_prefix_of(asset.browser_download_url@)
                    && item@ == asset_view(self.repo@, *asset),
                Err(e) => e is DecodeError && !download_base(self.repo@).is_prefix_of(
                    asset.browser_download_url@,
                ),
            },
    {
        let mut base = String::from_str(GITHUB);
        base.append(self.repo.as_str());
        base.push('/');
        proof {
            assert(base@ =~= download_base(self.repo@));
        }
        match strip_prefix(asset.browser_download_url.as_str(), base.as_str()) {
            Some(key) => Ok(
                SnapshotMeta {
                    key,
                    size: Some(asset.size),
                    last_modified: Some(asset.updated_at),
                    checksum_method: None,
                    checksum: None,
                    flags: SnapshotMetaFlag { force: false, force_last: false },
                },
            ),
            None => Err(Error::DecodeError(String::from_str("unmatched base URL"))),
        }
    }

    /// How many of the releases listed count.
    pub open spec fn retained(&self, listed: int) -> int {
        if self.version_to_retain < listed {
            self.version_to_retain as int
        } else {
            listed
        }
    }

    /// The items of the releases that count: one for each of their files,
    /// in the order of the listing.
    pub fn snapshot(&self, releases: &Vec<GitHubReleaseItem>) -> (r: Result<
        Vec<SnapshotMeta>,
        Error,
    >)
        ensures
            match r {
                Ok(items) => {
                    let assets = assets_of(releases@, self.retained(releases@.len() as int));
                    &&& items@.len() == assets.len()
                    &&& forall|i: int|
                        0 <= i < assets.len() ==> (#[trigger] items@[i])@ == asset_view(
                            self.repo@,
                            assets[i],
                        ) && download_base(self.repo@).is_prefix_of(
                            assets[i].browser_download_url@,
                        )
                },
                Err(e) => e is DecodeError && exists|i: int|
                    0 <= i < assets_of(releases@, self.retained(releases@.len() as int)).len()
                        && !download_base(self.repo@).is_prefix_of(
                        (#[trigger] assets_of(
                            releases@,
                            self.retained(releases@.len() as int),
                        )[i]).browser_download_url@,
                    ),
            },
    {
        let n: usize = if self.version_to_retain < releases.len() {
            self.version_to_retain
        } else {
            releases.len()
        };
        let ghost wanted = assets_of(releases@, n as int);
        let mut items: Vec<SnapshotMeta> = Vec::new();
        let mut i: usize = 0;
        while i < n
            invariant
                i <= n <= releases@.len(),
                n == self.retained(releases@.len() as int),
                wanted == assets_of(releases@, n as int),
                items@.len() == assets_of(releases@, i as int).len(),
                assets_of(releases@, i as int).is_prefix_of(wanted),
                forall|k: int|
                    0 <= k < items@.len() ==> (#[trigger] items@[k])@ == asset_view(
                        self.repo@,
                        assets_of(releases@, i as int)[k],
                    ) && download_base(self.repo@).is_prefix_of(
                        assets_of(releases@, i as int)[k].browser_download_url@,
                    ),
            decreases n - i,
        {
            let assets = &releases[i].assets;
            let m: usize = assets.len();
            let ghost done = assets_of(releases@, i as int);
            let ghost next = assets_of(releases@, i + 1);
            proof {
                assert(next == done + assets@);
                lemma_assets_prefix(releases@, i + 1, n as int);
            }
            let mut j: usize = 0;
            while j < m
                invariant
                    j <= m,
                    m == assets@.len(),
                    n == self.retained(releases@.len() as int),
                    wanted == assets_of(releases@, n as int),
                    next == done + assets@,
                    next.is_prefix_of(wanted),
                    items@.len() == done.len() + j,
                    forall|k: int|
                        0 <= k < items@.len() ==> (#[trigger] items@[k])@ == asset_view(
                            self.repo@,
                            next[k],
                        ) && download_base(self.repo@).is_prefix_of(next[k].browser_download_url@),
                decreases m - j,
            {
                proof {
                    assert(next[done.len() + j] == assets@[j as int]);
                    assert(wanted[done.len() + j] == next[done.len() + j]);
                }
                match self.asset_item(&assets[j]) {
                    Ok(item) => {
                        items.push(item);
                    },
                    Err(e) => {
                        proof {
                            let at = done.len() + j;
                            assert(0 <= at < wanted.len());
                            assert(!download_base(self.repo@).is_prefix_of(
                                wanted[at].browser_download_url@,
                            ));
                        }
                        return Err(e);
                    },
                }
                j += 1;
            }
            i += 1;
        }
        Ok(items)
    }

    /// The address from which the object of an item is fetched.
    pub fn get_object(&self, snapshot: &SnapshotMeta) -> (url: TransferURL)
        ensures
            url.0@ == download_base(self.repo@) + snapshot.key@,
    {
        let mut url = String::from_str(GITHUB);
        url.append(self.repo.as_str());
        url.push('/');
        url.append(snapshot.key.as_str());
        proof {
            assert(url@ =~= download_base(self.repo@) + snapshot.key@);
        }
        TransferURL(url)
    }
}

/// The files of fewer releases are the first of the files of more.
proof fn lemma_assets_prefix(releases: Seq<GitHubReleaseItem>, a: int, b: int)
    requires
        0 <= a <= b <= releases.len(),
    ensures
        assets_of(releases, a).is_prefix_of(assets_of(releases, b)),
    decreases b - a,
{
    if a < b {
        lemma_assets_prefix(releases, a, b - 1);
        let x = assets_of(releases, a);
        let y = assets_of(releases, b - 1);
        let z = assets_of(releases, b);
        assert(z == y + releases[b - 1].assets@);
        assert(x =~= z.subrange(0, x.len() as int)) by {
            assert(x =~= y.subrange(0, x.len() as int));
        }
    } else {
        let x = assets_of(releases, a);
        assert(x.subrange(0, x.len() as int) =~= x);
    }
}

} // verus!
