//! The ghcup source: the install script, the metadata file and the files
//! that the metadata names.

use vstd::prelude::*;
use crate::common::{SnapshotPath, TransferURL};
use crate::error::Error;
use crate::index_pipe::views;
use crate::metadata::{MetaView, SnapshotMeta, SnapshotMetaFlag};
use crate::pattern::{find_captures, regex_captures_of};
use crate::text::{from_chars, join_slash, matches_at, slash_joined, to_chars};
use crate::utils::checksum::same_text;
use self::parser::{add_unique, distinct, OLD};

pub mod hls;
pub mod packages;
pub mod parser;
pub mod script;
pub mod utils;
pub mod version;
pub mod yaml;

verus! {

/// Where one file is fetched, and its digest.
#[derive(Debug)]
pub struct DownloadSource {
    pub dl_uri: String,
    /// The directory that the archive unpacks to, where it says so.
    pub dl_subdir: Option<String>,
    pub dl_hash: String,
}

/// The file of a release for one platform.
#[derive(Debug)]
pub struct BinaryRelease {
    pub arch: String,
    pub distribution: String,
    pub version: String,
    pub source: DownloadSource,
}

/// One release of a tool.
#[derive(Debug)]
pub struct Release {
    pub vi_tags: Vec<String>,
    pub vi_source_dl: Option<DownloadSource>,
    pub vi_arch: Vec<BinaryRelease>,
}

/// The releases of every tool.
#[derive(Debug)]
pub struct Components {
    pub cabal: Vec<Release>,
    pub hls: Vec<Release>,
    pub ghcup: Vec<Release>,
    pub ghc: Vec<Release>,
}

/// The metadata as a whole.
#[derive(Debug)]
pub struct GhcupYamlParser {
    pub ghcup_downloads: Components,
}

impl Release {
    /// The release names `u` as the address of one of its files.
    pub open spec fn offers(&self, u: Seq<char>) -> bool {
        ||| exists|i: int| 0 <= i < self.vi_arch@.len() && (#[trigger] self.vi_arch@[i]).source.dl_uri@ == u
        ||| (self.vi_source_dl matches Some(source) && source.dl_uri@ == u)
    }

    pub open spec fn old_release(&self) -> bool {
        exists|i: int| 0 <= i < self.vi_tags@.len() && (#[trigger] self.vi_tags@[i])@ == OLD@
    }

    /// Adds the addresses of the files of this release to `found`.
    pub fn add_uris(&self, found: &mut Vec<String>)
        requires
            distinct(views(old(found)@)),
        ensures
            distinct(views(final(found)@)),
            forall|u: Seq<char>| #[trigger]
                views(final(found)@).contains(u) <==> views(old(found)@).contains(u)
                    || self.offers(u),
    {
        let ghost before = views(found@);
        let n: usize = self.vi_arch.len();
        let mut i: usize = 0;
        while i < n
            invariant
                i <= n,
                n == self.vi_arch@.len(),
                distinct(views(found@)),
                forall|u: Seq<char>| #[trigger]
                    views(found@).contains(u) <==> before.contains(u) || exists|k: int|
                        0 <= k < i && (#[trigger] self.vi_arch@[k]).source.dl_uri@ == u,
            decreases n - i,
        {
            let ghost mid = views(found@);
            add_unique(found, self.vi_arch[i].source.dl_uri.as_str());
            proof {
                assert forall|u: Seq<char>| #[trigger]
                    views(found@).contains(u) <==> before.contains(u) || exists|k: int|
                        0 <= k < i + 1 && (#[trigger] self.vi_arch@[k]).source.dl_uri@ == u by {
                    if mid.contains(u) && !before.contains(u) {
                        let k = choose|k: int|
                            0 <= k < i && (#[trigger] self.vi_arch@[k]).source.dl_uri@ == u;
                        assert(0 <= k < i + 1);
                    }
                    if exists|k: int|
                        0 <= k < i + 1 && (#[trigger] self.vi_arch@[k]).source.dl_uri@ == u {
                        let k = choose|k: int|
                            0 <= k < i + 1 && (#[trigger] self.vi_arch@[k]).source.dl_uri@ == u;
                        if k < i {
                            assert(mid.contains(u));
                        }
                    }
                }
            }
            i += 1;
        }
        match &self.vi_source_dl {
            Some(source) => {
                add_unique(found, source.dl_uri.as_str());
            },
            None => {},
        }
    }

    /// The addresses of the files of this release, each once.
    pub fn uris(&self) -> (found: Vec<String>)
        ensures
            distinct(views(found@)),
            forall|u: Seq<char>| #[trigger] views(found@).contains(u) <==> self.offers(u),
    {
        let mut found: Vec<String> = Vec::new();
        proof {
            assert(views(found@) =~= Seq::<Seq<char>>::empty());
        }
        self.add_uris(&mut found);
        found
    }

    /// Whether the release is marked as old.
    pub fn is_old(&self) -> (r: bool)
        ensures
            r == self.old_release(),
    {
        let n: usize = self.vi_tags.len();
        let mut i: usize = 0;
        while i < n
            invariant
                i <= n,
                n == self.vi_tags@.len(),
                forall|k: int| 0 <= k < i ==> (#[trigger] self.vi_tags@[k])@ != OLD@,
            decreases n - i,
        {
            if same_text(self.vi_tags[i].as_str(), OLD) {
                return true;
            }
            i += 1;
        }
        false
    }
}

/// One of `releases` that counts names `u`.
pub open spec fn offered(releases: Seq<Release>, include_old_versions: bool, u: Seq<char>) -> bool {
    exists|i: int|
        0 <= i < releases.len() && (include_old_versions || !(#[trigger] releases[i]).old_release())
            && releases[i].offers(u)
}

/// Adds the addresses of the releases that count to `found`.
pub fn add_release_uris(
    releases: &Vec<Release>,
    include_old_versions: bool,
    found: &mut Vec<String>,
)
    requires
        distinct(views(old(found)@)),
    ensures
        distinct(views(final(found)@)),
        forall|u: Seq<char>| #[trigger]
            views(final(found)@).contains(u) <==> views(old(found)@).contains(u) || offered(
                releases@,
                include_old_versions,
                u,
            ),
{
    let ghost before = views(found@);
    let n: usize = releases.len();
    let mut i: usize = 0;
    while i < n
        invariant
            i <= n,
            n == releases@.len(),
            distinct(views(found@)),
            forall|u: Seq<char>| #[trigger]
                views(found@).contains(u) <==> before.contains(u) || offered(
                    releases@.take(i as int),
                    include_old_versions,
                    u,
                ),
        decreases n - i,
    {
        let ghost done = releases@.take(i as int);
        let ghost more = releases@.take(i + 1);
        if include_old_versions || !releases[i].is_old() {
            releases[i].add_uris(found);
        }
        proof {
            assert forall|u: Seq<char>| #[trigger]
                views(found@).contains(u) <==> before.contains(u) || offered(
                    more,
                    include_old_versions,
                    u,
                ) by {
                if offered(done, include_old_versions, u) {
                    let k = choose|k: int|
                        0 <= k < done.len() && (include_old_versions || !(
                        #[trigger] done[k]).old_release()) && done[k].offers(u);
                    assert(more[k] == done[k]);
                }
                if offered(more, include_old_versions, u) {
                    let k = choose|k: int|
                        0 <= k < more.len() && (include_old_versions || !(
                        #[trigger] more[k]).old_release()) && more[k].offers(u);
                    if k < i {
                        assert(done[k] == more[k]);
                    }
                }
                if (include_old_versions || !releases@[i as int].old_release())
                    && releases@[i as int].offers(u) {
                    assert(more[i as int] == releases@[i as int]);
                }
            }
        }
        i += 1;
    }
    proof {
        assert(releases@.take(n as int) =~= releases@);
    }
}

impl Components {
    /// A release of some tool that counts names `u`.
    pub open spec fn offers(&self, include_old_versions: bool, u: Seq<char>) -> bool {
        ||| offered(self.cabal@, include_old_versions, u)
        ||| offered(self.hls@, include_old_versions, u)
        ||| offered(self.ghcup@, include_old_versions, u)
        ||| offered(self.ghc@, include_old_versions, u)
    }

    /// The addresses of the files of all tools, each once. Releases marked
    /// as old count only if `include_old_versions` says so.
    pub fn uris(&self, include_old_versions: bool) -> (found: Vec<String>)
        ensures
            distinct(views(found@)),
            forall|u: Seq<char>| #[trigger]
                views(found@).contains(u) <==> self.offers(include_old_versions, u),
    {
        let mut found: Vec<String> = Vec::new();
        proof {
            assert(views(found@) =~= Seq::<Seq<char>>::empty());
        }
        add_release_uris(&self.cabal, include_old_versions, &mut found);
        add_release_uris(&self.hls, include_old_versions, &mut found);
        add_release_uris(&self.ghcup, include_old_versions, &mut found);
        add_release_uris(&self.ghc, include_old_versions, &mut found);
        found
    }
}

/// The repository that holds the metadata.
#[derive(Debug)]
pub struct GhcupRepoConfig {
    /// Owner and name, with a slash between.
    pub repo: String,
    pub branch: String,
}

/// The install script as a source.
#[derive(Debug)]
pub struct GhcupScript {
    pub script_url: String,
    /// The address of the mirror, which the script is rewritten to use.
    pub target_mirror: String,
}

/// The metadata file as a source.
#[derive(Debug)]
pub struct GhcupYaml {
    pub ghcup_base: String,
    /// The address of the mirror, which the metadata is rewritten to use.
    pub target_mirror: String,
}

/// The files that the metadata names, as a source.
#[derive(Debug)]
pub struct Ghcup {
    pub ghcup_base: String,
    pub include_old_versions: bool,
}

/// The line of the ghcup sources that names the metadata file, with the
/// address as the group `url`.
pub const VERSION_PATTERN: &'static str = "ghcupURL.*(?P<url>https://.*yaml)";

pub const VERSION_MODULE: &'static str = "/lib/GHCup/Version.hs";

pub const HASKELL_ORG: &'static str = "https://www.haskell.org";

pub const HASKELL_ORG_SLASH: &'static str = "https://www.haskell.org/";

pub const DOWNLOADS: &'static str = "https://downloads.haskell.org";

pub const DOWNLOADS_SLASH: &'static str = "https://downloads.haskell.org/";

pub const INSTALL_SCRIPT: &'static str = "install.sh";

/// `s` without the slashes that it ends with.
pub open spec fn without_trailing_slashes(s: Seq<char>) -> Seq<char>
    decreases s.len(),
{
    if s.len() > 0 && s.last() == '/' {
        without_trailing_slashes(s.drop_last())
    } else {
        s
    }
}

/// `s` without every copy of `prefix` that it starts with.
pub open spec fn without_leading(s: Seq<char>, prefix: Seq<char>) -> Seq<char>
    decreases s.len(),
{
    if prefix.len() > 0 && prefix.is_prefix_of(s) {
        without_leading(s.skip(prefix.len() as int), prefix)
    } else {
        s
    }
}

/// Cuts the slashes off the end of a base address.
pub fn trim_base(base: &str) -> (r: String)
    ensures
        r@ == without_trailing_slashes(base@),
{
    let chars = to_chars(base);
    let mut n: usize = chars.len();
    proof {
        assert(base@.take(n as int) =~= base@);
    }
    while n > 0 && chars[n - 1] == '/'
        invariant
            n <= chars@.len(),
            chars@ == base@,
            without_trailing_slashes(base@) == without_trailing_slashes(base@.take(n as int)),
        decreases n,
    {
        proof {
            assert(base@.take(n as int).drop_last() =~= base@.take(n - 1));
        }
        n -= 1;
    }
    from_chars(chars.as_slice(), 0, n)
}

/// Cuts every copy of `prefix` off the start of a text.
pub fn trim_leading(s: &str, prefix: &str) -> (r: String)
    ensures
        r@ == without_leading(s@, prefix@),
{
    let chars = to_chars(s);
    let pattern = to_chars(prefix);
    let n: usize = chars.len();
    let m: usize = pattern.len();
    let mut at: usize = 0;
    proof {
        assert(s@.skip(0) =~= s@);
    }
    while m > 0 && matches_at(&chars, at, &pattern)
        invariant
            at <= n,
            n == chars@.len(),
            m == pattern@.len(),
            chars@ == s@,
            pattern@ == prefix@,
            without_leading(s@, prefix@) == without_leading(s@.skip(at as int), prefix@),
        decreases n - at,
    {
        proof {
            assert(s@.skip(at as int).skip(m as int) =~= s@.skip(at + m));
        }
        at += m;
    }
    proof {
        assert(s@.skip(at as int) =~= chars@.subrange(at as int, n as int));
    }
    from_chars(chars.as_slice(), at, n)
}

/// Where the module that names the metadata file is fetched.
pub fn version_module_url(ghcup_base: &str) -> (url: String)
    ensures
        url@ == without_trailing_slashes(ghcup_base@) + VERSION_MODULE@,
{
    let mut url = trim_base(ghcup_base);
    url.append(VERSION_MODULE);
    url
}

/// The address of the metadata file that a module names.
pub open spec fn yaml_url_of(module: Seq<char>) -> Option<Seq<char>> {
    match regex_captures_of(VERSION_PATTERN@, module) {
        Some(matches) => if matches.len() > 0 && matches[0].len() > 1 {
            matches[0][1]
        } else {
            None
        },
        None => None,
    }
}

/// Finds the address of the metadata file in the module that names it.
pub fn find_yaml_url(module: &str) -> (r: Result<String, Error>)
    ensures
        match yaml_url_of(module@) {
            Some(url) => r matches Ok(found) && found@ == url,
            None => r matches Err(e) && e is ProcessError,
        },
{
    let matches = match find_captures(VERSION_PATTERN, module) {
        Some(m) => m,
        None => {
            return Err(Error::ProcessError(String::from_str("unable to parse ghcup version")));
        },
    };
    proof {
        assert(matches.deep_view().len() == matches@.len());
    }
    if matches.len() == 0 {
        return Err(Error::ProcessError(String::from_str("unable to parse ghcup version")));
    }
    let first = &matches[0];
    proof {
        assert(matches.deep_view()[0] == first.deep_view());
        assert(first.deep_view().len() == first@.len());
    }
    if first.len() < 2 {
        return Err(Error::ProcessError(String::from_str("unable to parse ghcup version")));
    }
    proof {
        assert(first.deep_view()[1] == first@[1].deep_view());
    }
    match &first[1] {
        Some(url) => Ok(url.clone()),
        None => Err(Error::ProcessError(String::from_str("unable to parse ghcup version"))),
    }
}

impl GhcupScript {
    /// The snapshot of the script: one item, with the time of the script
    /// where it is known.
    pub fn snapshot(&self, last_modified: Option<u64>) -> (items: Vec<SnapshotMeta>)
        ensures
            items@.len() == 1,
            items@[0]@ == (MetaView {
                key: INSTALL_SCRIPT@,
                size: None,
                last_modified,
                checksum_method: None,
                checksum: None,
                force: false,
                force_last: false,
            }),
    {
        let mut items: Vec<SnapshotMeta> = Vec::new();
        items.push(
            SnapshotMeta {
                key: String::from_str(INSTALL_SCRIPT),
                size: None,
                last_modified,
                checksum_method: None,
                checksum: None,
                flags: SnapshotMetaFlag { force: false, force_last: false },
            },
        );
        items
    }

    /// The address from which the script is fetched.
    pub fn get_object(&self) -> (url: TransferURL)
        ensures
            url.0@ == self.script_url@,
    {
        TransferURL(self.script_url.clone())
    }
}

impl GhcupYaml {
    /// The snapshot of the metadata file: one item, under the address of
    /// the file without the site, with the time of the file where it is
    /// known.
    pub fn snapshot(&self, yaml_url: &str, last_modified: Option<u64>) -> (items: Vec<SnapshotMeta>)
        ensures
            items@.len() == 1,
            items@[0]@ == (MetaView {
                key: without_leading(yaml_url@, HASKELL_ORG_SLASH@),
                size: None,
                last_modified,
                checksum_method: None,
                checksum: None,
                force: false,
                force_last: false,
            }),
    {
        let mut items: Vec<SnapshotMeta> = Vec::new();
        items.push(
            SnapshotMeta {
                key: trim_leading(yaml_url, HASKELL_ORG_SLASH),
                size: None,
                last_modified,
                checksum_method: None,
                checksum: None,
                flags: SnapshotMetaFlag { force: false, force_last: false },
            },
        );
        items
    }

    /// The address from which the object of an item is fetched.
    pub fn get_object(&self, snapshot: &SnapshotMeta) -> (url: TransferURL)
        ensures
            url.0@ == slash_joined(HASKELL_ORG@, snapshot.key@),
    {
        TransferURL(join_slash(HASKELL_ORG, snapshot.key.as_str()))
    }
}

impl Ghcup {
    /// The snapshot that the metadata stands for: one item for each file
    /// that it names, under the address of the file without the site.
    pub fn snapshot(&self, config: &GhcupYamlParser) -> (items: Vec<SnapshotPath>)
        ensures
            exists|uris: Seq<Seq<char>>|
                {
                    &&& distinct(uris)
                    &&& forall|u: Seq<char>| #[trigger]
                        uris.contains(u) <==> config.ghcup_downloads.offers(
                            self.include_old_versions,
                            u,
                        )
                    &&& items@.len() == uris.len()
                    &&& forall|i: int|
                        0 <= i < uris.len() ==> (#[trigger] items@[i]).0@ == without_leading(
                            uris[i],
                            DOWNLOADS_SLASH@,
                        ) && !items@[i].1
                },
    {
        let uris = config.ghcup_downloads.uris(self.include_old_versions);
        let mut items: Vec<SnapshotPath> = Vec::new();
        let n: usize = uris.len();
        let mut i: usize = 0;
        while i < n
            invariant
                i <= n,
                n == uris@.len(),
                items@.len() == i,
                forall|k: int|
                    0 <= k < i ==> (#[trigger] items@[k]).0@ == without_leading(
                        uris@[k]@,
                        DOWNLOADS_SLASH@,
                    ) && !items@[k].1,
            decreases n - i,
        {
            items.push(SnapshotPath::new(trim_leading(uris[i].as_str(), DOWNLOADS_SLASH)));
            i += 1;
        }
        proof {
            let v = views(uris@);
            assert(v.len() == uris@.len());
            assert forall|k: int| 0 <= k < v.len() implies (#[trigger] items@[k]).0@
                == without_leading(v[k], DOWNLOADS_SLASH@) && !items@[k].1 by {
                assert(v[k] == uris@[k]@);
            }
        }
        items
    }

    /// The address from which the object of an item is fetched.
    pub fn get_object(&self, snapshot: &SnapshotPath) -> (url: TransferURL)
        ensures
            url.0@ == slash_joined(DOWNLOADS@, snapshot.0@),
    {
        TransferURL(join_slash(DOWNLOADS, snapshot.0.as_str()))
    }
}

} // verus!
