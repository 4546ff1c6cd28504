//! The opam source: what is downloaded for each package, and where it is
//! kept.

use vstd::prelude::*;
use crate::overlay::{join_path, joined_path};
use crate::text::{
    find_char, first_of, from_chars, join_slash, lemma_first_of, matches_at, slash_joined, to_chars,
};
use crate::utils::checksum::same_text;

verus! {

/// Where the repository is and where its mirror lies.
#[derive(Debug)]
pub struct Opam {
    pub repo: String,
    pub base_path: String,
    /// A cache of archives by digest, which is tried before the source.
    pub archive_url: Option<String>,
    pub debug_mode: bool,
    pub concurrent_downloads: usize,
}

/// What the index says of one package: where its source is fetched, and
/// its digests, each with the method that made it.
#[derive(Debug)]
pub struct OpamDownloadTask {
    pub name: String,
    pub src: String,
    pub hashes: Vec<(String, String)>,
}

/// One file to fetch: from where, to where, and the digest it has to have.
#[derive(Debug)]
pub struct DownloadTask {
    pub name: String,
    pub url: String,
    pub path: String,
    pub hash_type: String,
    pub hash: String,
}

pub const MD5: &'static str = "md5";

pub const EQUALS: &'static str = "=";

pub const REPO_FILE: &'static str = "repo";

pub const INDEX_FILE: &'static str = "index.tar.gz";

/// How many entries of the index are read in debug mode.
pub const DEBUG_ENTRIES: usize = 2000;

/// How often a download is tried.
pub const DOWNLOAD_ATTEMPTS: usize = 5;

/// Where `pat` first stands in `s`, or the length of `s` and one more if
/// it stands nowhere.
pub open spec fn first_occurrence(s: Seq<char>, pat: Seq<char>) -> int
    decreases s.len(),
{
    if pat.is_prefix_of(s) {
        0
    } else if s.len() == 0 {
        1
    } else {
        1 + first_occurrence(s.drop_first(), pat)
    }
}

/// What stands before and after the first `pat` in `s`.
pub open spec fn split_at_first(s: Seq<char>, pat: Seq<char>) -> Option<(Seq<char>, Seq<char>)> {
    let at = first_occurrence(s, pat);
    if at <= s.len() {
        Some((s.take(at), s.skip(at + pat.len())))
    } else {
        None
    }
}

/// Splits a string at the first occurrence of a pattern.
pub fn split_once(in_string: &str, pat: &str) -> (r: Option<(String, String)>)
    ensures
        r.deep_view() == split_at_first(in_string@, pat@),
{
    let chars = to_chars(in_string);
    let pattern = to_chars(pat);
    let n: usize = chars.len();
    let mut at: usize = 0;
    proof {
        assert(chars@.skip(0) =~= chars@);
    }
    loop
        invariant
            at <= n,
            n == chars@.len(),
            chars@ == in_string@,
            pattern@ == pat@,
            first_occurrence(in_string@, pat@) == at + first_occurrence(
                in_string@.skip(at as int),
                pat@,
            ),
        decreases n - at,
    {
        if matches_at(&chars, at, &pattern) {
            proof {
                assert(in_string@.take(at as int) =~= chars@.subrange(0, at as int));
                assert(in_string@.skip(at + pattern@.len()) =~= chars@.subrange(
                    at + pattern@.len(),
                    n as int,
                ));
            }
            let m: usize = pattern.len();
            return Some((from_chars(chars.as_slice(), 0, at), from_chars(chars.as_slice(), at + m, n)));
        }
        if at == n {
            return None;
        }
        proof {
            assert(in_string@.skip(at as int).drop_first() =~= in_string@.skip(at + 1));
        }
        at += 1;
    }
}

/// A digest as the index writes it, parted into method and value: the
/// method stands before an equals sign, and is `md5` where none is named.
pub open spec fn checksum_parts(text: Seq<char>) -> (Seq<char>, Seq<char>) {
    match split_at_first(text, EQUALS@) {
        Some(parts) => parts,
        None => (MD5@, text),
    }
}

/// Reads a digest with its method.
pub fn parse_checksum(text: &str) -> (r: (String, String))
    ensures
        (r.0@, r.1@) == checksum_parts(text@),
{
    match split_once(text, EQUALS) {
        Some(parts) => parts,
        None => (String::from_str(MD5), String::from_str(text)),
    }
}

/// Where the cache keeps a file: under the method, then the first two
/// characters of the digest, then the digest.
pub open spec fn hash_url(hash_type: Seq<char>, hash: Seq<char>) -> Option<Seq<char>> {
    if hash.len() >= 2 {
        Some(hash_type + seq!['/'] + hash.take(2) + seq!['/'] + hash)
    } else {
        None
    }
}

/// The path of a file in the cache; none for a digest of fewer than two
/// characters.
pub fn build_hash_url(hash_type: &str, hash: &str) -> (r: Option<String>)
    ensures
        r.deep_view() == hash_url(hash_type@, hash@),
{
    let chars = to_chars(hash);
    if chars.len() < 2 {
        return None;
    }
    let mut url = String::from_str(hash_type);
    url.push('/');
    url.push(chars[0]);
    url.push(chars[1]);
    url.push('/');
    url.append(hash);
    proof {
        assert(hash@.take(2) =~= seq![hash@[0], hash@[1]]);
        assert(url@ =~= hash_type@ + seq!['/'] + hash@.take(2) + seq!['/'] + hash@);
    }
    Some(url)
}

/// How the file that describes a package ends its path in the index.
pub const PACKAGE_FILE: &'static str = "/opam";

/// What is left of a path after its first `n` parts, each with the slash
/// that ends it; none where the path has fewer slashes.
pub open spec fn after_parts(path: Seq<char>, n: nat) -> Option<Seq<char>>
    decreases n,
{
    if n == 0 {
        Some(path)
    } else if first_of(path, '/') < path.len() {
        after_parts(path.skip(first_of(path, '/') + 1), (n - 1) as nat)
    } else {
        None
    }
}

/// Whether a path ends as the file of a package does.
pub open spec fn is_package_file(path: Seq<char>) -> bool {
    path.len() >= PACKAGE_FILE@.len() && path.skip(path.len() - PACKAGE_FILE@.len())
        == PACKAGE_FILE@
}

/// The package that an entry of the index describes: the third part of its
/// path. An entry that is not the file of a package, or lies less deep,
/// describes none.
pub open spec fn package_of_entry(path: Seq<char>) -> Option<Seq<char>> {
    if is_package_file(path) {
        match after_parts(path, 2) {
            Some(rest) => Some(rest.take(first_of(rest, '/'))),
            None => None,
        }
    } else {
        None
    }
}

/// The package that an entry of the index describes, by the path of the
/// entry.
pub fn entry_package(path: &str) -> (r: Option<String>)
    ensures
        r is Some <==> package_of_entry(path@) is Some,
        r matches Some(name) ==> package_of_entry(path@) == Some(name@),
{
    let chars = to_chars(path);
    let file = to_chars(PACKAGE_FILE);
    let n: usize = chars.len();
    if n < file.len() {
        return None;
    }
    let found = matches_at(&chars, n - file.len(), &file);
    proof {
        let tail = chars@.skip(n - file.len());
        assert(found ==> tail =~= file@);
    }
    if !found {
        return None;
    }
    proof {
        reveal_with_fuel(after_parts, 3);
        assert(chars@.skip(0) =~= chars@);
        lemma_first_of(chars@, '/');
    }
    let first = find_char(&chars, 0, '/');
    if first >= n {
        return None;
    }
    let second = find_char(&chars, first + 1, '/');
    proof {
        lemma_first_of(chars@.skip(first + 1), '/');
    }
    if second >= n {
        return None;
    }
    let end = find_char(&chars, second + 1, '/');
    proof {
        let rest = chars@.skip(first + 1).skip(second - first);
        assert(rest =~= chars@.skip(second + 1));
        lemma_first_of(rest, '/');
        assert(chars@.subrange(second + 1, end as int) =~= rest.take(first_of(rest, '/')));
    }
    Some(from_chars(chars.as_slice(), second + 1, end))
}

/// A value of a field of an opam file, as far as downloads read it.
#[derive(Debug)]
pub enum OpamValue {
    /// A string.
    Text(String),
    /// A list; each member is a string or something else.
    List(Vec<Option<String>>),
    /// Anything else.
    Other,
}

/// The section of an opam file that says where the source is fetched: its
/// fields, each name once.
#[derive(Debug)]
pub struct UrlSection {
    pub fields: Vec<(String, OpamValue)>,
}

pub const SRC: &'static str = "src";

pub const HTTP: &'static str = "http";

pub const ARCHIVE: &'static str = "archive";

pub const CHECKSUM: &'static str = "checksum";

/// Where the field `name` stands, or the number of fields if there is none.
pub open spec fn field_at(fields: Seq<(String, OpamValue)>, name: Seq<char>) -> int
    decreases fields.len(),
{
    if fields.len() == 0 {
        0
    } else if fields[0].0@ == name {
        0
    } else {
        1 + field_at(fields.drop_first(), name)
    }
}

/// The string in the field `name`, if there is such a field and it holds a
/// string.
pub open spec fn text_field(
    fields: Seq<(String, OpamValue)>,
    name: Seq<char>,
) -> Option<Seq<char>> {
    let at = field_at(fields, name);
    if 0 <= at < fields.len() && fields[at].1 is Text {
        Some(fields[at].1->Text_0@)
    } else {
        None
    }
}

/// The address of the source: what the first of the fields `src`, `http`
/// and `archive` that holds a string holds.
pub open spec fn source_of(fields: Seq<(String, OpamValue)>) -> Option<Seq<char>> {
    if text_field(fields, SRC@) is Some {
        text_field(fields, SRC@)
    } else if text_field(fields, HTTP@) is Some {
        text_field(fields, HTTP@)
    } else {
        text_field(fields, ARCHIVE@)
    }
}

/// The digests that a list names: those of its members that are strings.
pub open spec fn listed_checksums(members: Seq<Option<String>>) -> Seq<(Seq<char>, Seq<char>)>
    decreases members.len(),
{
    if members.len() == 0 {
        Seq::empty()
    } else {
        let rest = listed_checksums(members.drop_last());
        match members.last() {
            Some(text) => rest.push(checksum_parts(text@)),
            None => rest,
        }
    }
}

/// The digests of the source: one where the field `checksum` holds a
/// string, and those of its strings where it holds a list.
pub open spec fn checksums_of(fields: Seq<(String, OpamValue)>) -> Seq<(Seq<char>, Seq<char>)> {
    let at = field_at(fields, CHECKSUM@);
    if 0 <= at < fields.len() {
        match fields[at].1 {
            OpamValue::Text(text) => seq![checksum_parts(text@)],
            OpamValue::List(members) => listed_checksums(members@),
            OpamValue::Other => Seq::empty(),
        }
    } else {
        Seq::empty()
    }
}

/// Pairs of strings as plain values.
pub open spec fn pairs_view(pairs: Seq<(String, String)>) -> Seq<(Seq<char>, Seq<char>)> {
    pairs.map_values(|p: (String, String)| (p.0@, p.1@))
}

impl UrlSection {
    /// Where the field `name` stands.
    fn find(&self, name: &str) -> (at: usize)
        ensures
            at == field_at(self.fields@, name@),
            at <= self.fields@.len(),
    {
        let n: usize = self.fields.len();
        let mut at: usize = 0;
        proof {
            assert(self.fields@.skip(0) =~= self.fields@);
        }
        while at < n
            invariant
                at <= n,
                n == self.fields@.len(),
                field_at(self.fields@, name@) == at + field_at(self.fields@.skip(at as int), name@),
            decreases n - at,
        {
            proof {
                assert(self.fields@.skip(at as int)[0] == self.fields@[at as int]);
                assert(self.fields@.skip(at as int).drop_first() =~= self.fields@.skip(at + 1));
            }
            if same_text(self.fields[at].0.as_str(), name) {
                return at;
            }
            at += 1;
        }
        at
    }

    fn text(&self, name: &str) -> (r: Option<String>)
        ensures
            r.deep_view() == text_field(self.fields@, name@),
    {
        let at = self.find(name);
        if at < self.fields.len() {
            match &self.fields[at].1 {
                OpamValue::Text(text) => Some(text.clone()),
                _ => None,
            }
        } else {
            None
        }
    }

    /// The address of the source, if the section names one.
    pub fn source(&self) -> (r: Option<String>)
        ensures
            r.deep_view() == source_of(self.fields@),
    {
        match self.text(SRC) {
            Some(src) => Some(src),
            None => match self.text(HTTP) {
                Some(src) => Some(src),
                None => self.text(ARCHIVE),
            },
        }
    }

    /// The digests of the source, each with its method.
    pub fn checksums(&self) -> (r: Vec<(String, String)>)
        ensures
            pairs_view(r@) == checksums_of(self.fields@),
    {
        let mut found: Vec<(String, String)> = Vec::new();
        let at = self.find(CHECKSUM);
        proof {
            assert(pairs_view(found@) =~= Seq::empty());
        }
        if at < self.fields.len() {
            match &self.fields[at].1 {
                OpamValue::Text(text) => {
                    found.push(parse_checksum(text.as_str()));
                    proof {
                        assert(pairs_view(found@) =~= seq![checksum_parts(text@)]);
                    }
                },
                OpamValue::List(members) => {
                    let n: usize = members.len();
                    let mut i: usize = 0;
                    proof {
                        assert(members@.take(0) =~= Seq::empty());
                    }
                    while i < n
                        invariant
                            i <= n,
                            n == members@.len(),
                            pairs_view(found@) == listed_checksums(members@.take(i as int)),
                        decreases n - i,
                    {
                        let ghost before = pairs_view(found@);
                        proof {
                            assert(members@.take(i + 1).drop_last() =~= members@.take(i as int));
                            assert(members@.take(i + 1).last() == members@[i as int]);
                        }
                        match &members[i] {
                            Some(text) => {
                                found.push(parse_checksum(text.as_str()));
                                proof {
                                    assert(pairs_view(found@) =~= before.push(
                                        checksum_parts(text@),
                                    ));
                                }
                            },
                            None => {},
                        }
                        i += 1;
                    }
                    proof {
                        assert(members@.take(n as int) =~= members@);
                    }
                },
                OpamValue::Other => {},
            }
        }
        found
    }

    /// What is downloaded for the package `name`: its source with its
    /// digests. A package without a source or without a digest is left out.
    pub fn task(&self, name: String) -> (r: Option<OpamDownloadTask>)
        ensures
            match source_of(self.fields@) {
                Some(src) => if checksums_of(self.fields@).len() > 0 {
                    r matches Some(task) && task.name == name && task.src@ == src && pairs_view(
                        task.hashes@,
                    ) == checksums_of(self.fields@)
                } else {
                    r is None
                },
                None => r is None,
            },
    {
        let src = match self.source() {
            Some(src) => src,
            None => {
                return None;
            },
        };
        let hashes = self.checksums();
        proof {
            assert(pairs_view(hashes@).len() == hashes@.len());
        }
        if hashes.len() == 0 {
            return None;
        }
        Some(OpamDownloadTask { name, src, hashes })
    }
}

/// One of the names is `name`.
pub open spec fn named(names: Seq<String>, name: Seq<char>) -> bool {
    exists|i: int| 0 <= i < names.len() && (#[trigger] names[i])@ == name
}

/// The tasks whose package is among `names`, in their order.
pub open spec fn tasks_named(tasks: Seq<DownloadTask>, names: Seq<String>) -> Seq<DownloadTask>
    decreases tasks.len(),
{
    if tasks.len() == 0 {
        Seq::empty()
    } else {
        let rest = tasks_named(tasks.drop_last(), names);
        if named(names, tasks.last().name@) {
            rest.push(tasks.last())
        } else {
            rest
        }
    }
}

/// Of the downloads from the source, those of the packages that the cache
/// failed to serve.
pub fn retry_from_source(
    tasks: Vec<DownloadTask>,
    failed: &Vec<String>,
) -> (again: Vec<DownloadTask>)
    ensures
        again@ == tasks_named(tasks@, failed@),
{
    let ghost all = tasks@;
    let mut again: Vec<DownloadTask> = Vec::new();
    proof {
        assert(all.take(0) =~= Seq::<DownloadTask>::empty());
    }
    for task in it: tasks
        invariant
            it.seq() == all,
            again@ == tasks_named(all.take(it.index() as int), failed@),
    {
        let ghost i = it.index() as int;
        proof {
            assert(all.take(i + 1).drop_last() =~= all.take(i));
            assert(all.take(i + 1).last() == task);
        }
        let n: usize = failed.len();
        let mut k: usize = 0;
        let mut found = false;
        while k < n && !found
            invariant
                k <= n,
                n == failed@.len(),
                found ==> named(failed@, task.name@),
                !found ==> forall|j: int| 0 <= j < k ==> (#[trigger] failed@[j])@ != task.name@,
            decreases n - k,
        {
            if same_text(failed[k].as_str(), task.name.as_str()) {
                found = true;
            }
            k += 1;
        }
        if found {
            again.push(task);
        }
    }
    proof {
        assert(all.take(all.len() as int) =~= all);
    }
    again
}

impl Opam {
    /// Whether an entry of the index is read, by its number from zero.
    pub fn reads_entry(&self, index: usize) -> (r: bool)
        ensures
            r == !(self.debug_mode && index >= DEBUG_ENTRIES),
    {
        !(self.debug_mode && index >= DEBUG_ENTRIES)
    }

    /// Where a file of the repository is fetched.
    pub fn repo_url(&self, file: &str) -> (url: String)
        ensures
            url@ == slash_joined(self.repo@, file@),
    {
        join_slash(self.repo.as_str(), file)
    }

    /// The files to fetch for a package, the one to try first at the front:
    /// the copy in the cache, if a cache is configured, and the source.
    /// Both go to the same place, which the first digest of the package
    /// names. A package without a digest, or with one too short to name a
    /// place, is left out.
    pub fn download_tasks(&self, package: &OpamDownloadTask) -> (tasks: Vec<DownloadTask>)
        ensures
            package.hashes@.len() == 0 || hash_url(
                package.hashes@[0].0@,
                package.hashes@[0].1@,
            ) is None ==> tasks@.len() == 0,
            package.hashes@.len() > 0 && hash_url(package.hashes@[0].0@, package.hashes@[0].1@)
                is Some ==> {
                let relative = hash_url(package.hashes@[0].0@, package.hashes@[0].1@)->0;
                &&& tasks@.len() == if self.archive_url is Some {
                    2int
                } else {
                    1int
                }
                &&& forall|i: int|
                    0 <= i < tasks@.len() ==> (#[trigger] tasks@[i]).name@ == package.name@
                        && tasks@[i].path@ == joined_path(self.base_path@, relative)
                        && tasks@[i].hash_type@ == package.hashes@[0].0@ && tasks@[i].hash@
                        == package.hashes@[0].1@
                &&& tasks@.last().url@ == package.src@
                &&& self.archive_url matches Some(archive) ==> tasks@[0].url@ == slash_joined(
                    archive@,
                    relative,
                )
            },
    {
        let mut tasks: Vec<DownloadTask> = Vec::new();
        if package.hashes.len() == 0 {
            return tasks;
        }
        let hash_type = &package.hashes[0].0;
        let hash = &package.hashes[0].1;
        let relative = match build_hash_url(hash_type.as_str(), hash.as_str()) {
            Some(relative) => relative,
            None => {
                return tasks;
            },
        };
        let path = join_path(self.base_path.as_str(), relative.as_str());
        match &self.archive_url {
            Some(archive) => {
                tasks.push(
                    DownloadTask {
                        name: package.name.clone(),
                        url: join_slash(archive.as_str(), relative.as_str()),
                        path: path.clone(),
                        hash_type: hash_type.clone(),
                        hash: hash.clone(),
                    },
                );
            },
            None => {},
        }
        tasks.push(
            DownloadTask {
                name: package.name.clone(),
                url: package.src.clone(),
                path,
                hash_type: hash_type.clone(),
                hash: hash.clone(),
            },
        );
        tasks
    }

    /// Whether a file with this digest was taken before.
    pub fn seen(&self, taken: &Vec<(String, String)>, hash_type: &str, hash: &str) -> (r: bool)
        ensures
            r == exists|i: int|
                0 <= i < taken@.len() && (#[trigger] taken@[i]).0@ == hash_type@ && taken@[i].1@
                    == hash@,
    {
        let n: usize = taken.len();
        let mut i: usize = 0;
        while i < n
            invariant
                i <= n,
                n == taken@.len(),
                forall|k: int|
                    0 <= k < i ==> !((#[trigger] taken@[k]).0@ == hash_type@ && taken@[k].1@
                        == hash@),
            decreases n - i,
        {
            if same_text(taken[i].0.as_str(), hash_type) && same_text(taken[i].1.as_str(), hash) {
                return true;
            }
            i += 1;
        }
        false
    }
}

} // verus!
