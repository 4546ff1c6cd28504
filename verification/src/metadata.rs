//! The canonical snapshot item and the rule that decides a re-transfer.

use vstd::prelude::*;
use crate::common::SnapshotPath;
use crate::traits::{Diff, Key, Metadata};

verus! {

/// How an item is scheduled, whatever its metadata says.
#[derive(Debug, Copy, Clone, PartialEq, Eq, Structural)]
pub struct SnapshotMetaFlag {
    /// Transfer the object even if the metadata of both sides agree.
    pub force: bool,
    /// Transfer the object after every item that does not carry this flag.
    pub force_last: bool,
}

impl Default for SnapshotMetaFlag {
    fn default() -> (flags: Self)
        ensures
            !flags.force,
            !flags.force_last,
    {
        SnapshotMetaFlag { force: false, force_last: false }
    }
}

/// A key with what is known of the object behind it. An absent field means
/// that the value is unknown.
#[derive(Debug)]
pub struct SnapshotMeta {
    pub key: String,
    /// Length in bytes.
    pub size: Option<u64>,
    /// Seconds since the epoch.
    pub last_modified: Option<u64>,
    /// `sha256`, `md5`, `sha1` or `sha512`.
    pub checksum_method: Option<String>,
    /// The digest, in lower-case hex.
    pub checksum: Option<String>,
    pub flags: SnapshotMetaFlag,
}

/// What a `SnapshotMeta` is, as plain values.
pub struct MetaView {
    pub key: Seq<char>,
    pub size: Option<u64>,
    pub last_modified: Option<u64>,
    pub checksum_method: Option<Seq<char>>,
    pub checksum: Option<Seq<char>>,
    pub force: bool,
    pub force_last: bool,
}

pub open spec fn opt_str_view(s: Option<String>) -> Option<Seq<char>> {
    match s {
        Some(s) => Some(s@),
        None => None,
    }
}

impl View for SnapshotMeta {
    type V = MetaView;

    open spec fn view(&self) -> MetaView {
        MetaView {
            key: self.key@,
            size: self.size,
            last_modified: self.last_modified,
            checksum_method: opt_str_view(self.checksum_method),
            checksum: opt_str_view(self.checksum),
            force: self.flags.force,
            force_last: self.flags.force_last,
        }
    }
}

/// Two optional values disagree only if both are present and differ.
pub open spec fn options_agree<T>(a: Option<T>, b: Option<T>) -> bool {
    match (a, b) {
        (Some(x), Some(y)) => x == y,
        _ => true,
    }
}

/// The diff decision: a flag on either side forces the transfer; otherwise
/// only a field present on both sides with two different values does.
pub open spec fn meta_differs(s: MetaView, t: MetaView) -> bool {
    ||| s.force
    ||| t.force
    ||| !options_agree(s.size, t.size)
    ||| !options_agree(s.last_modified, t.last_modified)
    ||| !options_agree(s.checksum_method, t.checksum_method)
    ||| !options_agree(s.checksum, t.checksum)
}

pub fn compare_option(a: &Option<u64>, b: &Option<u64>) -> (same: bool)
    ensures
        same == options_agree(*a, *b),
{
    match (a, b) {
        (Some(x), Some(y)) => *x == *y,
        _ => true,
    }
}

pub fn compare_option_str(a: &Option<String>, b: &Option<String>) -> (same: bool)
    ensures
        same == options_agree(opt_str_view(*a), opt_str_view(*b)),
{
    match (a, b) {
        (Some(x), Some(y)) => *x == *y,
        _ => true,
    }
}

fn clone_opt_string(s: &Option<String>) -> (r: Option<String>)
    ensures
        r == *s,
{
    match s {
        Some(x) => Some(x.clone()),
        None => None,
    }
}

impl Clone for SnapshotMeta {
    fn clone(&self) -> (item: Self)
        ensures
            item == *self,
    {
        SnapshotMeta {
            key: self.key.clone(),
            size: self.size,
            last_modified: self.last_modified,
            checksum_method: clone_opt_string(&self.checksum_method),
            checksum: clone_opt_string(&self.checksum),
            flags: self.flags,
        }
    }
}

impl Default for SnapshotMeta {
    fn default() -> (item: Self)
        ensures
            item@ == (MetaView {
                key: Seq::<char>::empty(),
                size: None,
                last_modified: None,
                checksum_method: None,
                checksum: None,
                force: false,
                force_last: false,
            }),
    {
        SnapshotMeta {
            key: String::new(),
            size: None,
            last_modified: None,
            checksum_method: None,
            checksum: None,
            flags: SnapshotMetaFlag { force: false, force_last: false },
        }
    }
}

impl SnapshotMeta {
    /// The item that knows nothing but its key.
    pub fn new(key: String) -> (item: Self)
        ensures
            item.key == key,
            item@ == (MetaView {
                key: key@,
                size: None,
                last_modified: None,
                checksum_method: None,
                checksum: None,
                force: false,
                force_last: false,
            }),
    {
        SnapshotMeta {
            key,
            size: None,
            last_modified: None,
            checksum_method: None,
            checksum: None,
            flags: SnapshotMetaFlag { force: false, force_last: false },
        }
    }

    /// The item for an object that is always transferred, and after all
    /// others: an index or another file that points at the rest.
    pub fn force(key: String) -> (item: Self)
        ensures
            item.key == key,
            item@ == (MetaView {
                key: key@,
                size: None,
                last_modified: None,
                checksum_method: None,
                checksum: None,
                force: true,
                force_last: true,
            }),
    {
        SnapshotMeta {
            key,
            size: None,
            last_modified: None,
            checksum_method: None,
            checksum: None,
            flags: SnapshotMetaFlag { force: true, force_last: true },
        }
    }
}

impl Key for SnapshotMeta {
    open spec fn key_view(&self) -> Seq<char> {
        self.key@
    }

    open spec fn with_key(&self, key: String) -> Self {
        SnapshotMeta {
            key,
            size: self.size,
            last_modified: self.last_modified,
            checksum_method: self.checksum_method,
            checksum: self.checksum,
            flags: self.flags,
        }
    }

    proof fn lemma_with_key(&self, key: String) {
    }

    fn key(&self) -> (k: &str) {
        self.key.as_str()
    }

    fn key_mut(&mut self) -> (k: &mut String) {
        &mut self.key
    }
}

impl Diff for SnapshotMeta {
    open spec fn differs(&self, other: &Self) -> bool {
        meta_differs(self@, other@)
    }

    fn diff(&self, other: &Self) -> (d: bool) {
        if !compare_option(&self.size, &other.size) {
            return true;
        }
        if !compare_option(&self.last_modified, &other.last_modified) {
            return true;
        }
        if !compare_option_str(&self.checksum_method, &other.checksum_method) {
            return true;
        }
        if !compare_option_str(&self.checksum, &other.checksum) {
            return true;
        }
        if self.flags.force || other.flags.force {
            return true;
        }
        false
    }
}

impl Metadata for SnapshotMeta {
    open spec fn priority_of(&self) -> int {
        if self.flags.force_last {
            -1
        } else {
            0
        }
    }

    open spec fn last_modified_of(&self) -> Option<u64> {
        self.last_modified
    }

    open spec fn checksum_of(&self) -> Option<Seq<char>> {
        opt_str_view(self.checksum)
    }

    open spec fn checksum_method_of(&self) -> Option<Seq<char>> {
        opt_str_view(self.checksum_method)
    }

    fn priority(&self) -> (p: isize) {
        if self.flags.force_last {
            -1
        } else {
            0
        }
    }

    fn last_modified(&self) -> (t: Option<u64>) {
        self.last_modified
    }

    fn checksum(&self) -> (c: Option<&str>) {
        match &self.checksum {
            Some(s) => Some(s.as_str()),
            None => None,
        }
    }

    fn checksum_method(&self) -> (m: Option<&str>) {
        match &self.checksum_method {
            Some(s) => Some(s.as_str()),
            None => None,
        }
    }
}

/// Every item reduced to its key, none of them forced.
pub fn meta_as_path(snapshot: Vec<SnapshotMeta>) -> (paths: Vec<SnapshotPath>)
    ensures
        paths@.len() == snapshot@.len(),
        forall|i: int|
            0 <= i < paths@.len() ==> (#[trigger] paths@[i]).0@ == snapshot@[i].key@ && !paths@[i].1,
{
    let mut paths: Vec<SnapshotPath> = Vec::new();
    let n: usize = snapshot.len();
    let mut i: usize = 0;
    while i < n
        invariant
            n == snapshot@.len(),
            i <= n,
            paths@.len() == i,
            forall|j: int|
                0 <= j < i ==> (#[trigger] paths@[j]).0@ == snapshot@[j].key@ && !paths@[j].1,
        decreases n - i,
    {
        paths.push(SnapshotPath::new(snapshot[i].key.clone()));
        i += 1;
    }
    paths
}

/// A source of full items, seen as a source of keys.
pub struct MetaAsPath<Source> {
    pub source: Source,
}

impl<Source> MetaAsPath<Source> {
    pub fn new(source: Source) -> (pipe: Self)
        ensures
            pipe.source == source,
    {
        MetaAsPath { source }
    }

    /// What the wrapped source's snapshot becomes.
    pub fn snapshot(&self, inner: Vec<SnapshotMeta>) -> (paths: Vec<SnapshotPath>)
        ensures
            paths@.len() == inner@.len(),
            forall|i: int|
                0 <= i < paths@.len() ==> (#[trigger] paths@[i]).0@ == inner@[i].key@
                    && !paths@[i].1,
    {
        meta_as_path(inner)
    }
}

/// No field present on both sides with two values, and no flag: no transfer.
pub proof fn lemma_diff_conservative(s: SnapshotMeta, t: SnapshotMeta)
    requires
        !s.flags.force,
        !t.flags.force,
        s.size is None || t.size is None || s.size == t.size,
        s.last_modified is None || t.last_modified is None || s.last_modified == t.last_modified,
        s.checksum_method is None || t.checksum_method is None || s.checksum_method->0@
            == t.checksum_method->0@,
        s.checksum is None || t.checksum is None || s.checksum->0@ == t.checksum->0@,
    ensures
        !s.differs(&t),
{
}

/// A `force` flag on either side decides for the transfer.
pub proof fn lemma_diff_forced(s: SnapshotMeta, t: SnapshotMeta)
    requires
        s.flags.force || t.flags.force,
    ensures
        s.differs(&t),
{
}

} // verus!
