//! The overlay write discipline: a file is written under a temporary name
//! of its run and gets its final name only when it is complete; files that
//! no run has confirmed are swept away at the end.

use vstd::prelude::*;
use crate::text::to_chars;
use crate::utils::checksum::same_text;

verus! {

/// What the overlay refuses.
#[derive(Debug)]
pub struct OverlayFSError(pub String);

/// A file that the overlay knows of.
#[derive(Debug)]
pub struct KnownFile {
    pub path: String,
    /// Whether this run has confirmed the file.
    pub fused: bool,
}

/// One directory under the discipline.
#[derive(Debug)]
pub struct OverlayDirectory {
    pub base_path: String,
    /// What marks the temporary files of this run.
    pub run_id: String,
    /// The files found when the directory was opened, and those written
    /// since. No path stands twice.
    pub fused_files: Vec<KnownFile>,
}

/// A file that is being written.
#[derive(Debug)]
pub struct OverlayFile {
    /// The name under which the content is written.
    pub tmp_path: String,
    pub run_id: String,
    /// The name that the file gets when it is complete.
    pub path: String,
}

pub const TMP_FILE_SUFFIX: &'static str = ".tmp";

/// How long the mark of a run is.
pub const RUN_ID_LENGTH: usize = 8;

/// A letter or a digit of ASCII.
pub open spec fn is_alphanumeric(b: u8) -> bool {
    (0x30 <= b <= 0x39) || (0x41 <= b <= 0x5a) || (0x61 <= b <= 0x7a)
}

/// `Rng::sample` of the crate rand with its distribution `Alphanumeric`, on
/// the generator of the thread: a letter or a digit of ASCII, drawn at
/// random.
#[verifier::external_body]
pub(crate) fn random_alphanumeric() -> (b: u8)
    ensures
        is_alphanumeric(b),
{
    rand::Rng::sample(&mut rand::thread_rng(), rand::distributions::Alphanumeric)
}

/// Draws the mark of a run: eight letters or digits.
pub fn new_run_id() -> (id: String)
    ensures
        id@.len() == RUN_ID_LENGTH,
        forall|i: int|
            0 <= i < id@.len() ==> is_alphanumeric(#[trigger] id@[i] as u8) && (id@[i] as u32)
                < 128,
{
    let mut id = String::new();
    let mut i: usize = 0;
    while i < RUN_ID_LENGTH
        invariant
            i <= RUN_ID_LENGTH,
            id@.len() == i,
            forall|k: int|
                0 <= k < id@.len() ==> is_alphanumeric(#[trigger] id@[k] as u8) && (id@[k] as u32)
                    < 128,
        decreases RUN_ID_LENGTH - i,
    {
        let b = random_alphanumeric();
        id.push(b as char);
        i += 1;
    }
    id
}

/// The temporary name of `path` in the run `run_id`: the path, the mark of
/// the run after a dot unless it is empty, and the suffix.
pub open spec fn tmp_name(path: Seq<char>, run_id: Seq<char>) -> Seq<char> {
    if run_id.len() == 0 {
        path + TMP_FILE_SUFFIX@
    } else {
        path + seq!['.'] + run_id + TMP_FILE_SUFFIX@
    }
}

/// A name that ends like a temporary file.
pub open spec fn is_tmp_name(name: Seq<char>) -> bool {
    name.len() >= TMP_FILE_SUFFIX@.len() && name.skip(name.len() - TMP_FILE_SUFFIX@.len())
        == TMP_FILE_SUFFIX@
}

/// `path` below `base`, as the paths of the file system join: a path that
/// starts at the root stands for itself.
pub open spec fn joined_path(base: Seq<char>, path: Seq<char>) -> Seq<char> {
    if path.len() > 0 && path[0] == '/' {
        path
    } else if base.len() == 0 || base.last() == '/' {
        base + path
    } else {
        base + seq!['/'] + path
    }
}

/// The state of `path` among the known files: whether it is known, and if
/// so whether it is confirmed.
pub open spec fn state_of(files: Seq<KnownFile>, path: Seq<char>) -> Option<bool>
    decreases files.len(),
{
    if files.len() == 0 {
        None
    } else if files.last().path@ == path {
        Some(files.last().fused)
    } else {
        state_of(files.drop_last(), path)
    }
}

/// No path stands twice.
pub open spec fn distinct_paths(files: Seq<KnownFile>) -> bool {
    forall|i: int, j: int|
        0 <= i < j < files.len() ==> (#[trigger] files[i]).path@ != (#[trigger] files[j]).path@
}

/// Joins a path to a base.
pub fn join_path(base: &str, path: &str) -> (r: String)
    ensures
        r@ == joined_path(base@, path@),
{
    let p = to_chars(path);
    if p.len() > 0 && p[0] == '/' {
        return String::from_str(path);
    }
    let b = to_chars(base);
    let mut r = String::from_str(base);
    if !(b.len() == 0 || b[b.len() - 1] == '/') {
        r.push('/');
    }
    r.append(path);
    r
}

/// Whether a name ends like a temporary file.
pub fn is_tmp_file(name: &str) -> (r: bool)
    ensures
        r == is_tmp_name(name@),
{
    let chars = to_chars(name);
    let suffix = to_chars(TMP_FILE_SUFFIX);
    let n: usize = chars.len();
    let m: usize = suffix.len();
    if n < m {
        return false;
    }
    let mut i: usize = 0;
    while i < m
        invariant
            i <= m <= n,
            n == chars@.len(),
            m == suffix@.len(),
            chars@ == name@,
            suffix@ == TMP_FILE_SUFFIX@,
            forall|k: int| 0 <= k < i ==> chars@[n - m + k] == suffix@[k],
        decreases m - i,
    {
        if chars[n - m + i] != suffix[i] {
            proof {
                assert(name@.skip(n - m)[i as int] == chars@[n - m + i]);
            }
            return false;
        }
        i += 1;
    }
    proof {
        assert(name@.skip(n - m) =~= TMP_FILE_SUFFIX@);
    }
    true
}

/// What opening a directory finds to do.
pub struct Opened {
    pub directory: OverlayDirectory,
    /// The files that earlier runs left unfinished, which are removed.
    pub stale: Vec<String>,
}

/// `r` is what opening finds to do where the files `existing` lie under
/// the base: the temporary files among them are to be removed, and the
/// others are known and not confirmed.
pub open spec fn is_opening_of(
    base_path: String,
    run_id: String,
    existing: Seq<Seq<char>>,
    r: Opened,
) -> bool {
    &&& r.directory.base_path == base_path
    &&& r.directory.run_id == run_id
    &&& r.directory.wf()
    &&& forall|p: Seq<char>| #[trigger]
        r.directory.knows(p) == if existing.contains(p) && !is_tmp_name(p) {
            Some(false)
        } else {
            None
        }
    &&& forall|p: Seq<char>| #[trigger]
        crate::index_pipe::views(r.stale@).contains(p) <==> existing.contains(p) && is_tmp_name(p)
}

impl OverlayFile {
    /// The content is written under the temporary name of the path and the
    /// run.
    pub open spec fn wf(&self) -> bool {
        self.tmp_path@ == tmp_name(self.path@, self.run_id@)
    }

    /// The file that is written for `path` in the run `run_id`.
    pub fn create(path: String, run_id: String) -> (file: Self)
        ensures
            file.path == path,
            file.run_id == run_id,
            file.wf(),
    {
        let mut tmp_path = path.clone();
        if run_id.as_str().unicode_len() > 0 {
            tmp_path.push('.');
            tmp_path.append(run_id.as_str());
        }
        tmp_path.append(TMP_FILE_SUFFIX);
        proof {
            assert(tmp_path@ =~= tmp_name(path@, run_id@));
        }
        OverlayFile { tmp_path, run_id, path }
    }
}

impl OverlayDirectory {
    /// The state of a path under the base, as the directory knows it.
    pub open spec fn knows(&self, path: Seq<char>) -> Option<bool> {
        state_of(self.fused_files@, path)
    }

    pub open spec fn wf(&self) -> bool {
        distinct_paths(self.fused_files@)
    }

    /// Where the known file `path` stands.
    fn find(&self, path: &str) -> (r: Option<usize>)
        ensures
            match r {
                Some(i) => i < self.fused_files@.len() && self.fused_files@[i as int].path@
                    == path@,
                None => forall|i: int|
                    0 <= i < self.fused_files@.len() ==> (#[trigger] self.fused_files@[i]).path@
                        != path@,
            },
    {
        let n: usize = self.fused_files.len();
        let mut i: usize = 0;
        while i < n
            invariant
                i <= n,
                n == self.fused_files@.len(),
                forall|k: int| 0 <= k < i ==> (#[trigger] self.fused_files@[k]).path@ != path@,
            decreases n - i,
        {
            if same_text(self.fused_files[i].path.as_str(), path) {
                return Some(i);
            }
            i += 1;
        }
        None
    }

    /// Opens a directory in which the files `existing` were found, each by
    /// its full path. Those that end like a temporary file were left
    /// unfinished by an earlier run and are to be removed; every other file
    /// is known and not confirmed. A path given twice counts once.
    pub fn open(base_path: String, run_id: String, existing: Vec<String>) -> (r: Opened)
        ensures
            is_opening_of(base_path, run_id, crate::index_pipe::views(existing@), r),
    {
        let ghost all = crate::index_pipe::views(existing@);
        let mut directory = OverlayDirectory { base_path, run_id, fused_files: Vec::new() };
        let mut stale: Vec<String> = Vec::new();
        let n: usize = existing.len();
        let mut i: usize = 0;
        proof {
            assert(all.take(0) =~= Seq::<Seq<char>>::empty());
            assert(crate::index_pipe::views(stale@) =~= Seq::<Seq<char>>::empty());
        }
        while i < n
            invariant
                i <= n,
                n == existing@.len(),
                all == crate::index_pipe::views(existing@),
                directory.base_path == base_path,
                directory.run_id == run_id,
                directory.wf(),
                forall|p: Seq<char>| #[trigger]
                    directory.knows(p) == if all.take(i as int).contains(p) && !is_tmp_name(p) {
                        Some(false)
                    } else {
                        None
                    },
                forall|p: Seq<char>| #[trigger]
                    crate::index_pipe::views(stale@).contains(p) <==> all.take(i as int).contains(
                        p,
                    ) && is_tmp_name(p),
            decreases n - i,
        {
            let path = existing[i].clone();
            let ghost done = all.take(i as int);
            let ghost more = all.take(i + 1);
            let ghost stale_before = crate::index_pipe::views(stale@);
            proof {
                assert(more =~= done.push(path@));
                assert forall|p: Seq<char>| more.contains(p) <==> done.contains(p) || p
                    == path@ by {
                    if more.contains(p) {
                        let k = choose|k: int| 0 <= k < more.len() && more[k] == p;
                        if k < done.len() {
                            assert(done[k] == p);
                        }
                    }
                    if done.contains(p) {
                        let k = choose|k: int| 0 <= k < done.len() && done[k] == p;
                        assert(more[k] == p);
                    }
                    if p == path@ {
                        assert(more[done.len() as int] == p);
                    }
                }
            }
            if is_tmp_file(path.as_str()) {
                stale.push(path);
                proof {
                    let after = crate::index_pipe::views(stale@);
                    assert(after =~= stale_before.push(path@));
                    assert forall|p: Seq<char>| after.contains(p) <==> stale_before.contains(p)
                        || p == path@ by {
                        if after.contains(p) {
                            let k = choose|k: int| 0 <= k < after.len() && after[k] == p;
                            if k < stale_before.len() {
                                assert(stale_before[k] == p);
                            }
                        }
                        if stale_before.contains(p) {
                            let k = choose|k: int|
                                0 <= k < stale_before.len() && stale_before[k] == p;
                            assert(after[k] == p);
                        }
                        if p == path@ {
                            assert(after[stale_before.len() as int] == p);
                        }
                    }
                }
            } else {
                directory.record(path, false);
            }
            i += 1;
        }
        proof {
            assert(all.take(n as int) =~= all);
        }
        Opened { directory, stale }
    }

    /// Takes note of a file, or of a new state of a file that is known.
    fn record(&mut self, path: String, fused: bool)
        requires
            old(self).wf(),
        ensures
            final(self).wf(),
            final(self).base_path == old(self).base_path,
            final(self).run_id == old(self).run_id,
            forall|p: Seq<char>| #[trigger]
                final(self).knows(p) == if p == path@ {
                    Some(fused)
                } else {
                    old(self).knows(p)
                },
    {
        let ghost before = self.fused_files@;
        match self.find(path.as_str()) {
            Some(i) => {
                self.fused_files[i].fused = fused;
                proof {
                    let after = self.fused_files@;
                    assert forall|a: int, b: int| 0 <= a < b < after.len() implies (
                    #[trigger] after[a]).path@ != (#[trigger] after[b]).path@ by {
                        assert(after[a].path == before[a].path);
                        assert(after[b].path == before[b].path);
                    }
                    assert forall|p: Seq<char>| #[trigger]
                        state_of(after, p) == if p == path@ {
                            Some(fused)
                        } else {
                            state_of(before, p)
                        } by {
                        lemma_state_after_set(before, after, i as int, p);
                    }
                }
            },
            None => {
                self.fused_files.push(KnownFile { path, fused });
                proof {
                    let after = self.fused_files@;
                    assert(after.drop_last() =~= before);
                    assert forall|a: int, b: int| 0 <= a < b < after.len() implies (
                    #[trigger] after[a]).path@ != (#[trigger] after[b]).path@ by {
                        if b < before.len() {
                            assert(after[a] == before[a] && after[b] == before[b]);
                        } else {
                            assert(after[a] == before[a]);
                        }
                    }
                }
            },
        }
    }

    /// Confirms a file that was there before this run and needs no new
    /// content. Returns whether the file is known; a file that is confirmed
    /// already is refused.
    pub fn try_fuse(&mut self, path: &str) -> (r: Result<bool, OverlayFSError>)
        requires
            old(self).wf(),
        ensures
            final(self).wf(),
            final(self).base_path == old(self).base_path,
            final(self).run_id == old(self).run_id,
            match old(self).knows(joined_path(old(self).base_path@, path@)) {
                Some(true) => r is Err && *final(self) == *old(self),
                Some(false) => r == Ok::<bool, OverlayFSError>(true) && forall|p: Seq<char>| #[trigger]
                    final(self).knows(p) == if p == joined_path(old(self).base_path@, path@) {
                        Some(true)
                    } else {
                        old(self).knows(p)
                    },
                None => r == Ok::<bool, OverlayFSError>(false) && *final(self) == *old(self),
            },
    {
        let full = join_path(self.base_path.as_str(), path);
        match self.find(full.as_str()) {
            Some(i) => {
                proof {
                    lemma_state_at(self.fused_files@, i as int);
                }
                if self.fused_files[i].fused {
                    let mut message = full;
                    message.append(" already fused");
                    Err(OverlayFSError(message))
                } else {
                    self.record(full, true);
                    Ok(true)
                }
            },
            None => {
                proof {
                    lemma_unknown(self.fused_files@, full@);
                }
                Ok(false)
            },
        }
    }

    /// The file to write for the path `path` below the base.
    pub fn create_file_for_write(&self, path: &str) -> (file: OverlayFile)
        ensures
            file.path@ == joined_path(self.base_path@, path@),
            file.run_id == self.run_id,
            file.wf(),
    {
        OverlayFile::create(join_path(self.base_path.as_str(), path), self.run_id.clone())
    }

    /// Takes note that a file got its final name: it is known and
    /// confirmed.
    pub fn fuse(&mut self, file: OverlayFile)
        requires
            old(self).wf(),
        ensures
            final(self).wf(),
            final(self).base_path == old(self).base_path,
            final(self).run_id == old(self).run_id,
            forall|p: Seq<char>| #[trigger]
                final(self).knows(p) == if p == file.path@ {
                    Some(true)
                } else {
                    old(self).knows(p)
                },
    {
        self.record(file.path, true);
    }

    /// The files that no run has confirmed, which are removed when the
    /// transfer is over.
    pub fn commit(&self) -> (unfused: Vec<String>)
        requires
            self.wf(),
        ensures
            forall|p: Seq<char>| #[trigger]
                crate::index_pipe::views(unfused@).contains(p) <==> self.knows(p) == Some(false),
    {
        let mut unfused: Vec<String> = Vec::new();
        let n: usize = self.fused_files.len();
        let mut i: usize = 0;
        proof {
            assert(crate::index_pipe::views(unfused@) =~= Seq::<Seq<char>>::empty());
        }
        while i < n
            invariant
                i <= n,
                n == self.fused_files@.len(),
                self.wf(),
                forall|p: Seq<char>| #[trigger]
                    crate::index_pipe::views(unfused@).contains(p) <==> exists|k: int|
                        0 <= k < i && (#[trigger] self.fused_files@[k]).path@ == p
                            && !self.fused_files@[k].fused,
            decreases n - i,
        {
            let ghost before = crate::index_pipe::views(unfused@);
            if !self.fused_files[i].fused {
                unfused.push(self.fused_files[i].path.clone());
                proof {
                    let after = crate::index_pipe::views(unfused@);
                    let path = self.fused_files@[i as int].path@;
                    assert(after =~= before.push(path));
                    assert forall|p: Seq<char>| #[trigger]
                        after.contains(p) <==> exists|k: int|
                            0 <= k < i + 1 && (#[trigger] self.fused_files@[k]).path@ == p
                                && !self.fused_files@[k].fused by {
                        if after.contains(p) {
                            let a = choose|a: int| 0 <= a < after.len() && after[a] == p;
                            if a < before.len() {
                                assert(before[a] == p);
                                assert(before.contains(p));
                                let k = choose|k: int|
                                    0 <= k < i && (#[trigger] self.fused_files@[k]).path@ == p
                                        && !self.fused_files@[k].fused;
                                assert(0 <= k < i + 1);
                            }
                        }
                        if exists|k: int|
                            0 <= k < i + 1 && (#[trigger] self.fused_files@[k]).path@ == p
                                && !self.fused_files@[k].fused {
                            let k = choose|k: int|
                                0 <= k < i + 1 && (#[trigger] self.fused_files@[k]).path@ == p
                                    && !self.fused_files@[k].fused;
                            if k < i {
                                assert(before.contains(p));
                                let a = choose|a: int| 0 <= a < before.len() && before[a] == p;
                                assert(after[a] == p);
                            } else {
                                assert(after[before.len() as int] == p);
                            }
                        }
                    }
                }
            } else {
                proof {
                    assert forall|p: Seq<char>| #[trigger]
                        before.contains(p) <==> exists|k: int|
                            0 <= k < i + 1 && (#[trigger] self.fused_files@[k]).path@ == p
                                && !self.fused_files@[k].fused by {
                        if before.contains(p) {
                            let k = choose|k: int|
                                0 <= k < i && (#[trigger] self.fused_files@[k]).path@ == p
                                    && !self.fused_files@[k].fused;
                            assert(0 <= k < i + 1);
                        }
                    }
                }
            }
            i += 1;
        }
        proof {
            assert forall|p: Seq<char>| #[trigger]
                crate::index_pipe::views(unfused@).contains(p) <==> self.knows(p) == Some(
                    false,
                ) by {
                if crate::index_pipe::views(unfused@).contains(p) {
                    let k = choose|k: int|
                        0 <= k < n && (#[trigger] self.fused_files@[k]).path@ == p
                            && !self.fused_files@[k].fused;
                    lemma_state_at(self.fused_files@, k);
                }
                if self.knows(p) == Some(false) {
                    let k = lemma_known_at(self.fused_files@, p);
                }
            }
        }
        unfused
    }
}

/// The state of the path of a known file is the state of that file.
proof fn lemma_state_at(files: Seq<KnownFile>, i: int)
    requires
        distinct_paths(files),
        0 <= i < files.len(),
    ensures
        state_of(files, files[i].path@) == Some(files[i].fused),
    decreases files.len(),
{
    if i < files.len() - 1 {
        assert(files.last().path@ != files[i].path@);
        lemma_state_at(files.drop_last(), i);
    }
}

/// A path that no known file has is not known.
proof fn lemma_unknown(files: Seq<KnownFile>, path: Seq<char>)
    requires
        forall|i: int| 0 <= i < files.len() ==> (#[trigger] files[i]).path@ != path,
    ensures
        state_of(files, path) is None,
    decreases files.len(),
{
    if files.len() > 0 {
        assert(files.last() == files[files.len() - 1]);
        lemma_unknown(files.drop_last(), path);
    }
}

/// A path that is known is the path of a known file in that state.
proof fn lemma_known_at(files: Seq<KnownFile>, path: Seq<char>) -> (i: int)
    requires
        state_of(files, path) is Some,
    ensures
        0 <= i < files.len(),
        files[i].path@ == path,
        state_of(files, path) == Some(files[i].fused),
    decreases files.len(),
{
    if files.last().path@ == path {
        files.len() - 1
    } else {
        lemma_known_at(files.drop_last(), path)
    }
}

/// The states after the file at `at` got another state.
proof fn lemma_state_after_set(before: Seq<KnownFile>, after: Seq<KnownFile>, at: int, p: Seq<char>)
    requires
        distinct_paths(before),
        0 <= at < before.len(),
        after.len() == before.len(),
        after[at].path == before[at].path,
        forall|i: int| 0 <= i < before.len() && i != at ==> after[i] == before[i],
    ensures
        state_of(after, p) == if p == before[at].path@ {
            Some(after[at].fused)
        } else {
            state_of(before, p)
        },
    decreases before.len(),
{
    let n = before.len() - 1;
    if at == n {
        if p != before[at].path@ {
            assert(after.drop_last() =~= before.drop_last());
        }
    } else {
        assert(after.last() == before.last());
        assert(before.last().path@ != before[at].path@);
        if before.last().path@ != p {
            lemma_state_after_set(before.drop_last(), after.drop_last(), at, p);
        }
    }
}

/// A mark of a run without a dot: letters and digits are such.
pub open spec fn dot_free(run_id: Seq<char>) -> bool {
    forall|i: int| 0 <= i < run_id.len() ==> run_id[i] != '.'
}

/// Overlay isolation: two runs with two marks never write under the same
/// temporary name, whatever the paths, where the marks are as long as each
/// other or hold no dot. The marks that `new_run_id` draws are both.
pub proof fn lemma_tmp_names_differ(
    path_a: Seq<char>,
    run_a: Seq<char>,
    path_b: Seq<char>,
    run_b: Seq<char>,
)
    requires
        run_a.len() > 0,
        run_b.len() > 0,
        run_a != run_b,
        run_a.len() == run_b.len() || (dot_free(run_a) && dot_free(run_b)),
    ensures
        tmp_name(path_a, run_a) != tmp_name(path_b, run_b),
{
    let a = tmp_name(path_a, run_a);
    let b = tmp_name(path_b, run_b);
    let s = TMP_FILE_SUFFIX@.len();
    let n = run_a.len();
    let m = run_b.len();
    if a == b {
        if n == m {
            assert forall|i: int| 0 <= i < n implies run_a[i] == run_b[i] by {
                assert(a[a.len() - s - n + i] == run_a[i]);
                assert(b[b.len() - s - n + i] == run_b[i]);
            }
            assert(run_a =~= run_b);
        } else if n < m {
            // the dot before the shorter mark falls into the longer mark
            let at = a.len() - s - n - 1;
            assert(a[at] == '.');
            assert(b[at] == run_b[m - n - 1]);
        } else {
            let at = b.len() - s - m - 1;
            assert(b[at] == '.');
            assert(a[at] == run_a[n - m - 1]);
        }
    }
}

/// A file system as far as the discipline goes: for each path that names a
/// file, its content.
pub type Files = Map<Seq<char>, Seq<u8>>;

/// What writing `content` for `path` does before the file is complete: the
/// content lies under the temporary name.
pub open spec fn after_write(
    files: Files,
    path: Seq<char>,
    run_id: Seq<char>,
    content: Seq<u8>,
) -> Files {
    files.insert(tmp_name(path, run_id), content)
}

/// What completing the file does: the content moves to the final name.
pub open spec fn after_commit(files: Files, path: Seq<char>, run_id: Seq<char>) -> Files {
    files.remove(tmp_name(path, run_id)).insert(path, files[tmp_name(path, run_id)])
}

/// What opening the directory again does: the temporary files are gone.
pub open spec fn after_reopen(files: Files) -> Files {
    files.remove_keys(Set::new(|p: Seq<char>| is_tmp_name(p)))
}

/// A temporary name ends like a temporary file.
pub proof fn lemma_tmp_name_is_tmp(path: Seq<char>, run_id: Seq<char>)
    ensures
        is_tmp_name(tmp_name(path, run_id)),
{
    let t = tmp_name(path, run_id);
    let s = TMP_FILE_SUFFIX@;
    assert(t.skip(t.len() - s.len()) =~= s);
}

/// Overlay atomicity: a file that was written but not completed leaves,
/// after the directory is opened again, no temporary file and nothing under
/// a path that named nothing before; a path that is no temporary name
/// itself still names what it named before. A file that was completed is
/// there with the content written last.
pub proof fn lemma_overlay_atomic(files: Files, file: OverlayFile, content: Seq<u8>)
    requires
        file.wf(),
    ensures
        ({
            let written = after_write(files, file.path@, file.run_id@, content);
            let completed = after_commit(written, file.path@, file.run_id@);
            &&& written == files.insert(file.tmp_path@, content)
            &&& !files.contains_key(file.path@) ==> !after_reopen(written).contains_key(file.path@)
            &&& !is_tmp_name(file.path@) ==> after_reopen(written).contains_key(file.path@)
                == files.contains_key(file.path@)
            &&& !is_tmp_name(file.path@) && files.contains_key(file.path@) ==> after_reopen(
                written,
            )[file.path@] == files[file.path@]
            &&& !after_reopen(written).contains_key(file.tmp_path@)
            &&& completed.contains_key(file.path@)
            &&& completed[file.path@] == content
            &&& !completed.contains_key(file.tmp_path@)
        }),
{
    lemma_tmp_name_is_tmp(file.path@, file.run_id@);
    reveal_strlit(".tmp");
    assert(tmp_name(file.path@, file.run_id@).len() > file.path@.len());
}

/// What is left of the files when those named in `gone` are removed.
pub open spec fn after_removal(files: Files, gone: Seq<Seq<char>>) -> Files {
    files.remove_keys(gone.to_set())
}

/// Opening sweeps as the discipline asks: where `existing` names the files
/// under the base, removing what `open` calls stale leaves what opening
/// again leaves, and those are the files that the directory then knows.
pub proof fn lemma_open_sweeps(
    files: Files,
    base_path: String,
    run_id: String,
    existing: Seq<Seq<char>>,
    r: Opened,
)
    requires
        is_opening_of(base_path, run_id, existing, r),
        forall|p: Seq<char>| #[trigger] existing.contains(p) <==> files.contains_key(p),
    ensures
        after_removal(files, crate::index_pipe::views(r.stale@)) == after_reopen(files),
        forall|p: Seq<char>| #[trigger]
            r.directory.knows(p) is Some <==> after_reopen(files).contains_key(p),
{
    let stale = crate::index_pipe::views(r.stale@);
    let a = after_removal(files, stale);
    let b = after_reopen(files);
    assert forall|p: Seq<char>| a.contains_key(p) == b.contains_key(p) by {
        assert(stale.to_set().contains(p) == stale.contains(p));
        assert(existing.contains(p) == files.contains_key(p));
    }
    assert(a =~= b);
    assert forall|p: Seq<char>| #[trigger]
        r.directory.knows(p) is Some <==> b.contains_key(p) by {
        assert(existing.contains(p) == files.contains_key(p));
    }
}

} // verus!
