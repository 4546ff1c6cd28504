//! The metadata of ghcup: which files each release of each tool offers.

use vstd::prelude::*;
use super::utils::Version;
use crate::index_pipe::views;
use crate::utils::checksum::same_text;

verus! {

/// The version of the metadata that this reader was written for.
pub fn expected_config_version() -> (v: Version)
    ensures
        v.major == 0,
        v.minor == 0,
        v.patch == 8,
{
    Version::new(0, 0, 8)
}

/// Where one file is fetched, and its digest.
#[derive(Debug)]
pub struct DownloadSource {
    pub dl_uri: String,
    pub dl_hash: String,
}

/// The file of a release for one platform.
#[derive(Debug)]
pub struct BinaryRelease {
    pub arch: String,
    pub distribution: String,
    pub version: String,
    pub source: DownloadSource,
}

/// One release of a tool.
#[derive(Debug)]
pub struct Release {
    pub vi_tags: Vec<String>,
    pub vi_source_dl: Option<DownloadSource>,
    pub vi_arch: Vec<BinaryRelease>,
}

/// The releases of every tool.
#[derive(Debug)]
pub struct Components {
    pub cabal: Vec<Release>,
    pub hls: Vec<Release>,
    pub ghcup: Vec<Release>,
    pub ghc: Vec<Release>,
    pub stack: Vec<Release>,
}

/// The metadata as a whole.
#[derive(Debug)]
pub struct GhcupYamlParser {
    pub ghcup_downloads: Components,
}

pub const OLD: &'static str = "old";

/// No string stands twice in the list.
pub open spec fn distinct(s: Seq<Seq<char>>) -> bool {
    forall|i: int, j: int| 0 <= i < j < s.len() ==> s[i] != s[j]
}

/// Adds `uri` to the list unless it is there.
pub fn add_unique(found: &mut Vec<String>, uri: &str)
    requires
        distinct(views(old(found)@)),
    ensures
        distinct(views(final(found)@)),
        forall|u: Seq<char>| #[trigger]
            views(final(found)@).contains(u) <==> views(old(found)@).contains(u) || u == uri@,
{
    let ghost before = views(found@);
    let n: usize = found.len();
    let mut i: usize = 0;
    while i < n
        invariant
            i <= n,
            n == found@.len(),
            views(found@) == before,
            distinct(before),
            *found == *old(found),
            forall|j: int| 0 <= j < i ==> before[j] != uri@,
        decreases n - i,
    {
        if same_text(found[i].as_str(), uri) {
            proof {
                assert(before[i as int] == uri@);
                assert(before.contains(uri@));
            }
            return ;
        }
        proof {
            assert(before[i as int] == found@[i as int]@);
        }
        i += 1;
    }
    found.push(String::from_str(uri));
    proof {
        let after = views(found@);
        assert(after =~= before.push(uri@));
        assert forall|u: Seq<char>| #[trigger] after.contains(u) <==> before.contains(u) || u
            == uri@ by {
            if after.contains(u) {
                let k = choose|k: int| 0 <= k < after.len() && after[k] == u;
                if k < before.len() {
                    assert(before[k] == u);
                }
            }
            if before.contains(u) {
                let k = choose|k: int| 0 <= k < before.len() && before[k] == u;
                assert(after[k] == u);
            }
            if u == uri@ {
                assert(after[before.len() as int] == u);
            }
        }
    }
}

impl Release {
    /// The release names `u` as the address of one of its files.
    pub open spec fn offers(&self, u: Seq<char>) -> bool {
        ||| exists|i: int| 0 <= i < self.vi_arch@.len() && (#[trigger] self.vi_arch@[i]).source.dl_uri@ == u
        ||| (self.vi_source_dl matches Some(source) && source.dl_uri@ == u)
    }

    pub open spec fn old_release(&self) -> bool {
        exists|i: int| 0 <= i < self.vi_tags@.len() && (#[trigger] self.vi_tags@[i])@ == OLD@
    }

    /// Adds the addresses of the files of this release to `found`.
    pub fn add_uris(&self, found: &mut Vec<String>)
        requires
            distinct(views(old(found)@)),
        ensures
            distinct(views(final(found)@)),
            forall|u: Seq<char>| #[trigger]
                views(final(found)@).contains(u) <==> views(old(found)@).contains(u)
                    || self.offers(u),
    {
        let ghost before = views(found@);
        let n: usize = self.vi_arch.len();
        let mut i: usize = 0;
        while i < n
            invariant
                i <= n,
                n == self.vi_arch@.len(),
                distinct(views(found@)),
                forall|u: Seq<char>| #[trigger]
                    views(found@).contains(u) <==> before.contains(u) || exists|k: int|
                        0 <= k < i && (#[trigger] self.vi_arch@[k]).source.dl_uri@ == u,
            decreases n - i,
        {
            let ghost mid = views(found@);
            add_unique(found, self.vi_arch[i].source.dl_uri.as_str());
            proof {
                assert forall|u: Seq<char>| #[trigger]
                    views(found@).contains(u) <==> before.contains(u) || exists|k: int|
                        0 <= k < i + 1 && (#[trigger] self.vi_arch@[k]).source.dl_uri@ == u by {
                    if mid.contains(u) && !before.contains(u) {
                        let k = choose|k: int|
                            0 <= k < i && (#[trigger] self.vi_arch@[k]).source.dl_uri@ == u;
                        assert(0 <= k < i + 1);
                    }
                    if exists|k: int|
                        0 <= k < i + 1 && (#[trigger] self.vi_arch@[k]).source.dl_uri@ == u {
                        let k = choose|k: int|
                            0 <= k < i + 1 && (#[trigger] self.vi_arch@[k]).source.dl_uri@ == u;
                        if k < i {
                            assert(mid.contains(u));
                        }
                    }
                }
            }
            i += 1;
        }
        match &self.vi_source_dl {
            Some(source) => {
                add_unique(found, source.dl_uri.as_str());
            },
            None => {},
        }
    }

    /// The addresses of the files of this release, each once.
    pub fn uris(&self) -> (found: Vec<String>)
        ensures
            distinct(views(found@)),
            forall|u: Seq<char>| #[trigger] views(found@).contains(u) <==> self.offers(u),
    {
        let mut found: Vec<String> = Vec::new();
        proof {
            assert(views(found@) =~= Seq::<Seq<char>>::empty());
        }
        self.add_uris(&mut found);
        found
    }

    /// Whether the release is marked as old.
    pub fn is_old(&self) -> (r: bool)
        ensures
            r == self.old_release(),
    {
        let n: usize = self.vi_tags.len();
        let mut i: usize = 0;
        while i < n
            invariant
                i <= n,
                n == self.vi_tags@.len(),
                forall|k: int| 0 <= k < i ==> (#[trigger] self.vi_tags@[k])@ != OLD@,
            decreases n - i,
        {
            if same_text(self.vi_tags[i].as_str(), OLD) {
                return true;
            }
            i += 1;
        }
        false
    }
}

/// One of `releases` that counts names `u`.
pub open spec fn offered(releases: Seq<Release>, include_old_versions: bool, u: Seq<char>) -> bool {
    exists|i: int|
        0 <= i < releases.len() && (include_old_versions || !(#[trigger] releases[i]).old_release())
            && releases[i].offers(u)
}

/// Adds the addresses of the releases that count to `found`.
pub fn add_release_uris(
    releases: &Vec<Release>,
    include_old_versions: bool,
    found: &mut Vec<String>,
)
    requires
        distinct(views(old(found)@)),
    ensures
        distinct(views(final(found)@)),
        forall|u: Seq<char>| #[trigger]
            views(final(found)@).contains(u) <==> views(old(found)@).contains(u) || offered(
                releases@,
                include_old_versions,
                u,
            ),
{
    let ghost before = views(found@);
    let n: usize = releases.len();
    let mut i: usize = 0;
    while i < n
        invariant
            i <= n,
            n == releases@.len(),
            distinct(views(found@)),
            forall|u: Seq<char>| #[trigger]
                views(found@).contains(u) <==> before.contains(u) || offered(
                    releases@.take(i as int),
                    include_old_versions,
                    u,
                ),
        decreases n - i,
    {
        let ghost done = releases@.take(i as int);
        let ghost more = releases@.take(i + 1);
        if include_old_versions || !releases[i].is_old() {
            releases[i].add_uris(found);
        }
        proof {
            assert forall|u: Seq<char>| #[trigger]
                views(found@).contains(u) <==> before.contains(u) || offered(
                    more,
                    include_old_versions,
                    u,
                ) by {
                if offered(done, include_old_versions, u) {
                    let k = choose|k: int|
                        0 <= k < done.len() && (include_old_versions || !(
                        #[trigger] done[k]).old_release()) && done[k].offers(u);
                    assert(more[k] == done[k]);
                }
                if offered(more, include_old_versions, u) {
                    let k = choose|k: int|
                        0 <= k < more.len() && (include_old_versions || !(
                        #[trigger] more[k]).old_release()) && more[k].offers(u);
                    if k < i {
                        assert(done[k] == more[k]);
                    }
                }
                if (include_old_versions || !releases@[i as int].old_release())
                    && releases@[i as int].offers(u) {
                    assert(more[i as int] == releases@[i as int]);
                }
            }
        }
        i += 1;
    }
    proof {
        assert(releases@.take(n as int) =~= releases@);
    }
}

impl Components {
    /// A release of some tool that counts names `u`.
    pub open spec fn offers(&self, include_old_versions: bool, u: Seq<char>) -> bool {
        ||| offered(self.cabal@, include_old_versions, u)
        ||| offered(self.hls@, include_old_versions, u)
        ||| offered(self.ghcup@, include_old_versions, u)
        ||| offered(self.ghc@, include_old_versions, u)
        ||| offered(self.stack@, include_old_versions, u)
    }

    /// The addresses of the files of all tools, each once. Releases marked
    /// as old count only if `include_old_versions` says so.
    pub fn uris(&self, include_old_versions: bool) -> (found: Vec<String>)
        ensures
            distinct(views(found@)),
            forall|u: Seq<char>| #[trigger]
                views(found@).contains(u) <==> self.offers(include_old_versions, u),
    {
        let mut found: Vec<String> = Vec::new();
        proof {
            assert(views(found@) =~= Seq::<Seq<char>>::empty());
        }
        add_release_uris(&self.cabal, include_old_versions, &mut found);
        add_release_uris(&self.hls, include_old_versions, &mut found);
        add_release_uris(&self.ghcup, include_old_versions, &mut found);
        add_release_uris(&self.ghc, include_old_versions, &mut found);
        add_release_uris(&self.stack, include_old_versions, &mut found);
        found
    }
}

} // verus!
