//! The files of the metadata repository: which of them hold metadata, and
//! of which version.

use vstd::prelude::*;
use crate::ghcup::GhcupRepoConfig;
use crate::github_release::API_REPOS;
use crate::pattern::{find_captures, regex_captures_of};
use crate::text::{
    all_digits, decimal, digits_value, find_char, first_of, from_chars, parse_u64, push_decimal,
    to_chars, KeyOrder,
};

verus! {

/// Three numbers. Versions are ordered by the patch number first, then the
/// minor and then the major one.
#[derive(Debug, Copy, Clone, PartialEq, Eq, Structural)]
pub struct Version {
    pub patch: usize,
    pub minor: usize,
    pub major: usize,
}

/// The number that a part of a version stands for.
pub open spec fn part_value(s: Seq<char>) -> Option<usize> {
    if s.len() > 0 && all_digits(s) && digits_value(s) <= usize::MAX {
        Some(digits_value(s) as usize)
    } else {
        None
    }
}

/// The version that a text of three numbers with dots between stands for.
pub open spec fn version_of(s: Seq<char>) -> Option<Version> {
    let a = first_of(s, '.');
    let rest = s.skip(a + 1);
    let b = first_of(rest, '.');
    let last = rest.skip(b + 1);
    if a < s.len() && b < rest.len() && first_of(last, '.') == last.len() {
        match (part_value(s.take(a)), part_value(rest.take(b)), part_value(last)) {
            (Some(major), Some(minor), Some(patch)) => Some(Version { patch, minor, major }),
            _ => None,
        }
    } else {
        None
    }
}

/// How two versions compare: by the patch number, then by the minor and
/// then by the major one.
pub open spec fn version_order(a: Version, b: Version) -> KeyOrder {
    if a.patch != b.patch {
        if a.patch < b.patch {
            KeyOrder::Before
        } else {
            KeyOrder::After
        }
    } else if a.minor != b.minor {
        if a.minor < b.minor {
            KeyOrder::Before
        } else {
            KeyOrder::After
        }
    } else if a.major != b.major {
        if a.major < b.major {
            KeyOrder::Before
        } else {
            KeyOrder::After
        }
    } else {
        KeyOrder::Same
    }
}

fn parse_part(chars: &Vec<char>, from: usize, to: usize) -> (r: Option<usize>)
    requires
        from <= to <= chars@.len(),
    ensures
        r == part_value(chars@.subrange(from as int, to as int)),
{
    match parse_u64(chars, from, to) {
        Some(n) => {
            if n <= usize::MAX as u64 {
                Some(n as usize)
            } else {
                None
            }
        },
        None => None,
    }
}

impl Version {
    pub fn new(major: usize, minor: usize, patch: usize) -> (v: Self)
        ensures
            v.major == major,
            v.minor == minor,
            v.patch == patch,
    {
        Version { major, minor, patch }
    }

    /// Reads a version.
    pub fn from_str(s: &str) -> (r: Result<Self, ()>)
        ensures
            match version_of(s@) {
                Some(v) => r == Ok::<Version, ()>(v),
                None => r is Err,
            },
    {
        let chars = to_chars(s);
        let n: usize = chars.len();
        proof {
            assert(chars@.skip(0) =~= s@);
        }
        let a = find_char(&chars, 0, '.');
        if a == n {
            return Err(());
        }
        let b = find_char(&chars, a + 1, '.');
        if b == n {
            return Err(());
        }
        let c = find_char(&chars, b + 1, '.');
        proof {
            let rest = s@.skip(a + 1);
            assert(rest =~= chars@.skip(a + 1));
            assert(rest.skip(b - a - 1 + 1) =~= chars@.skip(b + 1));
            assert(s@.take(a as int) =~= chars@.subrange(0, a as int));
            assert(rest.take(b - a - 1) =~= chars@.subrange(a + 1, b as int));
            assert(chars@.skip(b + 1) =~= chars@.subrange(b + 1, n as int));
        }
        if c != n {
            return Err(());
        }
        match (parse_part(&chars, 0, a), parse_part(&chars, a + 1, b), parse_part(&chars, b + 1, n)) {
            (Some(major), Some(minor), Some(patch)) => Ok(Version { patch, minor, major }),
            _ => Err(()),
        }
    }

    /// Writes the version as it is read.
    pub fn to_string(&self) -> (s: String)
        ensures
            s@ == decimal(self.major as nat) + seq!['.'] + decimal(self.minor as nat) + seq!['.']
                + decimal(self.patch as nat),
    {
        let mut s = String::new();
        push_decimal(&mut s, self.major as u64);
        s.push('.');
        push_decimal(&mut s, self.minor as u64);
        s.push('.');
        push_decimal(&mut s, self.patch as u64);
        proof {
            assert(s@ =~= decimal(self.major as nat) + seq!['.'] + decimal(self.minor as nat)
                + seq!['.'] + decimal(self.patch as nat));
        }
        s
    }

    /// Compares two versions.
    pub fn compare(&self, other: &Self) -> (o: KeyOrder)
        ensures
            o == version_order(*self, *other),
    {
        if self.patch != other.patch {
            if self.patch < other.patch {
                KeyOrder::Before
            } else {
                KeyOrder::After
            }
        } else if self.minor != other.minor {
            if self.minor < other.minor {
                KeyOrder::Before
            } else {
                KeyOrder::After
            }
        } else if self.major != other.major {
            if self.major < other.major {
                KeyOrder::Before
            } else {
                KeyOrder::After
            }
        } else {
            KeyOrder::Same
        }
    }
}

/// What the listing of the repository says of one file.
#[derive(Debug)]
pub struct FileMeta {
    pub path: String,
    /// Whether the entry is a file, and no directory.
    pub is_blob: bool,
    pub url: String,
}

/// A file of metadata.
#[derive(Debug)]
pub struct ObjectInfo {
    pub name: String,
    pub path: String,
    pub version: Version,
}

/// A file of metadata, with the address of its content.
#[derive(Debug)]
pub struct ObjectInfoWithUrl {
    pub name: String,
    pub path: String,
    pub version: Version,
    pub url: String,
}

/// The name of a file of metadata, with its version as the first group.
pub const YAML_CONFIG_PATTERN: &'static str = "ghcup-(?P<ver>\\d.\\d.\\d).yaml$";

/// What follows the last slash of a path.
pub open spec fn last_component(path: Seq<char>) -> Seq<char>
    decreases path.len(),
{
    if path.len() == 0 {
        path
    } else if path.last() == '/' {
        Seq::empty()
    } else {
        last_component(path.drop_last()).push(path.last())
    }
}

/// The version that the name of a file gives, where the path is that of a
/// file of metadata.
pub open spec fn metadata_version(path: Seq<char>) -> Option<Version> {
    match regex_captures_of(YAML_CONFIG_PATTERN@, path) {
        Some(matches) => if matches.len() > 0 && matches[0].len() > 1 && matches[0][1] is Some {
            version_of(matches[0][1]->0)
        } else {
            None
        },
        None => None,
    }
}

/// The name of the file at the end of a path.
pub fn file_name(path: &str) -> (name: String)
    ensures
        name@ == last_component(path@),
{
    let chars = to_chars(path);
    let n: usize = chars.len();
    let mut start: usize = n;
    proof {
        assert(path@.subrange(n as int, n as int) =~= Seq::<char>::empty());
    }
    while start > 0 && chars[start - 1] != '/'
        invariant
            start <= n,
            n == chars@.len(),
            chars@ == path@,
            forall|i: int| start <= i < n ==> chars@[i] != '/',
        decreases start,
    {
        start -= 1;
    }
    proof {
        lemma_last_component(path@, start as int);
    }
    from_chars(chars.as_slice(), start, n)
}

proof fn lemma_last_component(path: Seq<char>, start: int)
    requires
        0 <= start <= path.len(),
        forall|i: int| start <= i < path.len() ==> path[i] != '/',
        start > 0 ==> path[start - 1] == '/',
    ensures
        last_component(path) == path.subrange(start, path.len() as int),
    decreases path.len(),
{
    if path.len() == 0 {
        assert(path.subrange(start, path.len() as int) =~= path);
    } else if path.last() == '/' {
        assert(path.subrange(start, path.len() as int) =~= Seq::<char>::empty());
    } else {
        lemma_last_component(path.drop_last(), start);
        assert(path.subrange(start, path.len() as int) =~= path.drop_last().subrange(
            start,
            path.len() - 1,
        ).push(path.last()));
    }
}

/// The file of metadata that an entry of the listing stands for, if it
/// stands for one.
pub fn metadata_file(file: &FileMeta) -> (r: Option<ObjectInfo>)
    ensures
        match metadata_version(file.path@) {
            Some(version) => r matches Some(info) && info.version == version && info.path@
                == file.path@ && info.name@ == last_component(file.path@),
            None => r is None,
        },
{
    let matches = match find_captures(YAML_CONFIG_PATTERN, file.path.as_str()) {
        Some(m) => m,
        None => {
            return None;
        },
    };
    proof {
        assert(matches.deep_view().len() == matches@.len());
    }
    if matches.len() == 0 {
        return None;
    }
    let first = &matches[0];
    proof {
        assert(matches.deep_view()[0] == first.deep_view());
        assert(first.deep_view().len() == first@.len());
    }
    if first.len() < 2 {
        return None;
    }
    proof {
        assert(first.deep_view()[1] == first@[1].deep_view());
    }
    match &first[1] {
        Some(text) => match Version::from_str(text.as_str()) {
            Ok(version) => Some(
                ObjectInfo { name: file_name(file.path.as_str()), path: file.path.clone(), version },
            ),
            Err(_) => None,
        },
        None => None,
    }
}

/// A file of metadata as plain values: name, path and version.
pub open spec fn info_view(info: ObjectInfo) -> (Seq<char>, Seq<char>, Version) {
    (info.name@, info.path@, info.version)
}

/// The files of metadata among the entries of a listing, in their order.
pub open spec fn metadata_files(files: Seq<FileMeta>) -> Seq<(Seq<char>, Seq<char>, Version)>
    decreases files.len(),
{
    if files.len() == 0 {
        Seq::empty()
    } else {
        let rest = metadata_files(files.drop_last());
        let path = files.last().path@;
        match metadata_version(path) {
            Some(version) => rest.push((last_component(path), path, version)),
            None => rest,
        }
    }
}

/// Picks the files of metadata out of the entries of a listing.
pub fn filter_map_file_objs(files: Vec<FileMeta>) -> (found: Vec<ObjectInfo>)
    ensures
        found@.map_values(|info: ObjectInfo| info_view(info)) == metadata_files(files@),
{
    let mut found: Vec<ObjectInfo> = Vec::new();
    let n: usize = files.len();
    let mut k: usize = 0;
    proof {
        assert(files@.take(0) =~= Seq::<FileMeta>::empty());
        assert(found@.map_values(|info: ObjectInfo| info_view(info)) =~= Seq::empty());
    }
    while k < n
        invariant
            k <= n,
            n == files@.len(),
            found@.map_values(|info: ObjectInfo| info_view(info)) == metadata_files(
                files@.take(k as int),
            ),
        decreases n - k,
    {
        let ghost before = found@;
        proof {
            assert(files@.take(k + 1).drop_last() =~= files@.take(k as int));
            assert(files@.take(k + 1).last() == files@[k as int]);
        }
        match metadata_file(&files[k]) {
            Some(info) => {
                found.push(info);
                proof {
                    assert(found@.map_values(|info: ObjectInfo| info_view(info))
                        =~= before.map_values(|info: ObjectInfo| info_view(info)).push(
                        info_view(info),
                    ));
                }
            },
            None => {},
        }
        k += 1;
    }
    proof {
        assert(files@.take(n as int) =~= files@);
    }
    found
}

/// What stands between a repository and a commit in the address of a
/// listing.
pub const TREES: &'static str = "/git/trees/";

/// What stands between a repository and a path in the address that
/// describes a file.
pub const CONTENTS: &'static str = "/contents/";

/// Where the files of a repository at a commit are listed.
pub open spec fn tree_address(repo: Seq<char>, commit: Seq<char>) -> Seq<char> {
    API_REPOS@ + repo + TREES@ + commit
}

/// Where the files of the repository at a commit are listed.
pub fn tree_url(config: &GhcupRepoConfig, commit: &str) -> (url: String)
    ensures
        url@ == tree_address(config.repo@, commit@),
{
    let mut url = String::from_str(API_REPOS);
    url.append(config.repo.as_str());
    url.append(TREES);
    url.append(commit);
    url
}

/// Where a file of a repository is described.
pub open spec fn content_address(repo: Seq<char>, path: Seq<char>) -> Seq<char> {
    API_REPOS@ + repo + CONTENTS@ + path
}

/// Where a file of the repository is described.
pub fn content_url(config: &GhcupRepoConfig, path: &str) -> (url: String)
    ensures
        url@ == content_address(config.repo@, path@),
{
    let mut url = String::from_str(API_REPOS);
    url.append(config.repo.as_str());
    url.append(CONTENTS);
    url.append(path);
    url
}

/// The entries of a listing that are files, in their order.
pub open spec fn blobs_of(tree: Seq<FileMeta>) -> Seq<FileMeta>
    decreases tree.len(),
{
    if tree.len() == 0 {
        Seq::empty()
    } else if tree.last().is_blob {
        blobs_of(tree.drop_last()).push(tree.last())
    } else {
        blobs_of(tree.drop_last())
    }
}

/// The files of a repository, from the listing of all that it holds.
pub fn list_files(tree: Vec<FileMeta>) -> (files: Vec<FileMeta>)
    ensures
        files@ == blobs_of(tree@),
{
    let ghost all = tree@;
    let mut files: Vec<FileMeta> = Vec::new();
    proof {
        assert(all.take(0) =~= Seq::<FileMeta>::empty());
    }
    for entry in it: tree
        invariant
            it.seq() == all,
            files@ == blobs_of(all.take(it.index() as int)),
    {
        proof {
            let i = it.index() as int;
            assert(all.take(i + 1).drop_last() =~= all.take(i));
            assert(all.take(i + 1).last() == entry);
        }
        if entry.is_blob {
            files.push(entry);
        }
    }
    proof {
        assert(all.take(all.len() as int) =~= all);
    }
    files
}

/// A file of metadata with the address at which its content was found.
pub fn get_raw_blob_url(object: ObjectInfo, download_url: String) -> (r: ObjectInfoWithUrl)
    ensures
        r.name == object.name,
        r.path == object.path,
        r.version == object.version,
        r.url == download_url,
{
    ObjectInfoWithUrl {
        name: object.name,
        path: object.path,
        version: object.version,
        url: download_url,
    }
}

/// The newest of the files of metadata, the last of them if several share
/// the newest version.
pub fn latest(files: &Vec<ObjectInfo>) -> (r: Option<usize>)
    ensures
        r is None <==> files@.len() == 0,
        r matches Some(at) ==> at < files@.len() && (forall|i: int|
            0 <= i < files@.len() ==> version_order(
                (#[trigger] files@[i]).version,
                files@[at as int].version,
            ) != KeyOrder::After) && (forall|i: int|
            at < i < files@.len() ==> version_order(
                (#[trigger] files@[i]).version,
                files@[at as int].version,
            ) == KeyOrder::Before),
{
    let n: usize = files.len();
    if n == 0 {
        return None;
    }
    let mut at: usize = 0;
    let mut i: usize = 1;
    while i < n
        invariant
            1 <= i <= n,
            n == files@.len(),
            at < i,
            forall|k: int|
                0 <= k < i ==> version_order((#[trigger] files@[k]).version, files@[at as int].version)
                    != KeyOrder::After,
            forall|k: int|
                at < k < i ==> version_order((#[trigger] files@[k]).version, files@[at as int].version)
                    == KeyOrder::Before,
        decreases n - i,
    {
        match files[i].version.compare(&files[at].version) {
            KeyOrder::Before => {},
            _ => {
                at = i;
            },
        }
        i += 1;
    }
    Some(at)
}

} // verus!
