//! The directory index: a tree over the keys of a snapshot, the keys of the
//! listing files that it adds, and the pages that it renders.

use vstd::prelude::*;
use vstd::string::StringSliceAdditionalSpecFns;
use vstd::utf8::encode_utf8;
use crate::common::SnapshotPath;
use crate::metadata::{MetaView, SnapshotMeta};
use crate::sorting::{is_stable_sort, stable_sort, stable_sort_by, ByText};
use crate::stream_pipe::{buffer_file, buffer_file_path, ByteStream};
use crate::text::{
    compare_str, from_chars, lemma_str_lt_transitive, matches_at, str_lt, to_chars, KeyOrder,
};
use crate::traits::Key;
use crate::utils::checksum::same_text;
use crate::utils::{hash_of, hash_string, hex_number};

verus! {

/// The name of the listing file of every directory.
pub const LIST_URL: &'static str = "mirror_clone_list.html";

/// What the content of a listing file is.
pub const LIST_CONTENT_TYPE: &'static str = "text/html";

/// A sub-directory of an index, by name.
pub struct IndexDir {
    pub name: String,
    pub index: Index,
}

/// One directory of the tree: its sub-directories and the objects that lie
/// in it, both in ascending order of their names.
pub struct Index {
    pub prefixes: Vec<IndexDir>,
    pub objects: Vec<String>,
}

/// `path` leads into the sub-directory `name`: it starts with the name and
/// a slash.
pub open spec fn enters(name: Seq<char>, path: Seq<char>) -> bool {
    &&& path.len() > name.len()
    &&& path.take(name.len() as int) == name
    &&& path[name.len() as int] == '/'
}

/// A name of one component: it holds no slash.
pub open spec fn plain_name(name: Seq<char>) -> bool {
    forall|i: int| 0 <= i < name.len() ==> name[i] != '/'
}

/// What is left of `path` inside the sub-directory `name`.
pub open spec fn inside(name: Seq<char>, path: Seq<char>) -> Seq<char> {
    path.skip(name.len() as int + 1)
}

/// How many slashes `s` holds.
pub open spec fn count_slashes(s: Seq<char>) -> nat
    decreases s.len(),
{
    if s.len() == 0 {
        0
    } else {
        count_slashes(s.drop_last()) + if s.last() == '/' {
            1nat
        } else {
            0nat
        }
    }
}

/// `p` names a directory above the key `path`, at most `depth` levels
/// down: a prefix of the key that ends with one of its first `depth`
/// slashes.
pub open spec fn dir_prefix_of(p: Seq<char>, path: Seq<char>, depth: nat) -> bool {
    &&& p.len() > 0
    &&& p.is_prefix_of(path)
    &&& p.last() == '/'
    &&& count_slashes(p) <= depth
}

/// Where the first slash of `s` stands, or the length of `s` if it has none.
pub open spec fn first_slash(s: Seq<char>) -> int
    decreases s.len(),
{
    if s.len() == 0 {
        0
    } else if s[0] == '/' {
        0
    } else {
        1 + first_slash(s.drop_first())
    }
}

/// The length of the directory part of `path` in a tree of `depth` levels:
/// up to and with its `depth`-th slash, or its last one if it has fewer.
pub open spec fn dir_len(path: Seq<char>, depth: nat) -> int
    decreases depth,
{
    let pos = first_slash(path);
    if depth == 0 || pos >= path.len() {
        0
    } else {
        pos + 1 + dir_len(path.skip(pos + 1), (depth - 1) as nat)
    }
}

/// The directory in which a tree of `depth` levels keeps the key `path`.
pub open spec fn object_dir(path: Seq<char>, depth: nat) -> Seq<char> {
    path.take(dir_len(path, depth))
}

/// The name under which that directory keeps it.
pub open spec fn object_name(path: Seq<char>, depth: nat) -> Seq<char> {
    path.skip(dir_len(path, depth))
}

/// `new` holds what `old` holds, and the key `path` with the directories
/// above it.
pub open spec fn inserted(old: Index, new: Index, path: Seq<char>, depth: nat) -> bool {
    &&& forall|p: Seq<char>| #[trigger]
        new.has_dir(p) <==> old.has_dir(p) || dir_prefix_of(p, path, depth)
    &&& forall|d: Seq<char>, n: Seq<char>| #[trigger]
        new.has_object(d, n) <==> old.has_object(d, n) || (d == object_dir(path, depth) && n
            == object_name(path, depth))
}

pub proof fn lemma_first_slash(s: Seq<char>)
    ensures
        0 <= first_slash(s) <= s.len(),
        first_slash(s) < s.len() ==> s[first_slash(s)] == '/',
        forall|i: int| 0 <= i < first_slash(s) ==> s[i] != '/',
    decreases s.len(),
{
    if s.len() > 0 && s[0] != '/' {
        let t = s.drop_first();
        lemma_first_slash(t);
        assert forall|i: int| 0 <= i < first_slash(s) implies s[i] != '/' by {
            if i > 0 {
                assert(s[i] == t[i - 1]);
            }
        }
    }
}

/// The first slash is where no slash stands before and one stands at.
pub proof fn lemma_first_slash_is(s: Seq<char>, pos: int)
    requires
        0 <= pos <= s.len(),
        forall|i: int| 0 <= i < pos ==> s[i] != '/',
        pos < s.len() ==> s[pos] == '/',
    ensures
        first_slash(s) == pos,
{
    lemma_first_slash(s);
    let f = first_slash(s);
    if f < pos {
        assert(s[f] != '/');
    }
    if pos < f {
        assert(s[pos] != '/');
    }
}

pub proof fn lemma_count_slashes_concat(a: Seq<char>, b: Seq<char>)
    ensures
        count_slashes(a + b) == count_slashes(a) + count_slashes(b),
    decreases b.len(),
{
    if b.len() == 0 {
        assert(a + b =~= a);
    } else {
        lemma_count_slashes_concat(a, b.drop_last());
        assert((a + b).drop_last() =~= a + b.drop_last());
    }
}

pub proof fn lemma_count_slashes_none(a: Seq<char>)
    requires
        forall|i: int| 0 <= i < a.len() ==> a[i] != '/',
    ensures
        count_slashes(a) == 0,
    decreases a.len(),
{
    if a.len() > 0 {
        lemma_count_slashes_none(a.drop_last());
    }
}

/// A slash counts.
pub proof fn lemma_count_slashes_last(a: Seq<char>)
    requires
        a.len() > 0,
        a.last() == '/',
    ensures
        count_slashes(a) >= 1,
{
}

/// Of a key whose first slash ends the name `name`, the directories above
/// it are `name/` and, inside it, the directories above the rest.
pub proof fn lemma_dir_prefix_split(p: Seq<char>, path: Seq<char>, depth: nat)
    requires
        depth > 0,
        first_slash(path) < path.len(),
    ensures
        dir_prefix_of(p, path, depth) <==> p == path.take(first_slash(path) + 1) || (enters(
            path.take(first_slash(path)),
            p,
        ) && dir_prefix_of(
            inside(path.take(first_slash(path)), p),
            path.skip(first_slash(path) + 1),
            (depth - 1) as nat,
        )),
{
    lemma_first_slash(path);
    let pos = first_slash(path);
    let name = path.take(pos);
    let rest = path.skip(pos + 1);
    let head = path.take(pos + 1);
    assert(head =~= name + seq!['/']);
    lemma_count_slashes_none(name);
    lemma_count_slashes_concat(name, seq!['/']);
    assert(count_slashes(seq!['/']) == 1) by {
        assert(seq!['/'].drop_last() =~= Seq::<char>::empty());
        assert(count_slashes(Seq::<char>::empty()) == 0);
    }
    if dir_prefix_of(p, path, depth) {
        assert(p.len() >= pos + 1) by {
            if p.len() < pos + 1 {
                assert(p[p.len() - 1] == path[p.len() - 1]);
            }
        }
        if p.len() == pos + 1 {
            assert(p =~= head);
        } else {
            let q = inside(name, p);
            assert(p.take(pos) =~= name);
            assert(p[pos] == path[pos]);
            assert(p =~= head + q);
            lemma_count_slashes_concat(head, q);
            assert(q.is_prefix_of(rest)) by {
                assert forall|i: int| 0 <= i < q.len() implies q[i] == rest[i] by {
                    assert(q[i] == p[i + pos + 1]);
                }
            }
            assert(q.last() == p.last());
        }
    }
    if p == head {
        assert(head.is_prefix_of(path));
    }
    if enters(name, p) && dir_prefix_of(inside(name, p), rest, (depth - 1) as nat) {
        let q = inside(name, p);
        assert(p =~= head + q) by {
            assert(p.take(pos) == name);
            assert forall|i: int| 0 <= i < p.len() implies p[i] == (head + q)[i] by {
                if i < pos {
                    assert(p.take(pos)[i] == name[i]);
                }
            }
        }
        lemma_count_slashes_concat(head, q);
        assert(p.is_prefix_of(path)) by {
            assert forall|i: int| 0 <= i < p.len() implies p[i] == path[i] by {
                if i > pos {
                    assert(q[i - pos - 1] == rest[i - pos - 1]);
                }
            }
        }
        assert(p.last() == q.last());
    }
}

/// The views of a list of strings.
pub open spec fn views(v: Seq<String>) -> Seq<Seq<char>> {
    v.map_values(|s: String| s@)
}

pub proof fn lemma_dir_len_bounds(path: Seq<char>, depth: nat)
    ensures
        0 <= dir_len(path, depth) <= path.len(),
    decreases depth,
{
    lemma_first_slash(path);
    let pos = first_slash(path);
    if depth > 0 && pos < path.len() {
        lemma_dir_len_bounds(path.skip(pos + 1), (depth - 1) as nat);
    }
}

/// A directory without sub-directories holds no directory but itself, and
/// objects only in itself.
proof fn lemma_leaf(s: Index, p: Seq<char>, n: Seq<char>)
    requires
        s.prefixes@.len() == 0,
    ensures
        s.has_dir(p) <==> p.len() == 0,
        p.len() > 0 ==> !s.has_object(p, n),
        s.objects@.len() == 0 ==> !s.has_object(p, n),
{
}

/// Every directory holds itself.
proof fn lemma_holds_itself(s: Index)
    ensures
        s.has_dir(Seq::<char>::empty()),
{
}

/// What a directory holds after an empty sub-directory was put in at `at`.
proof fn lemma_entered(s0: Index, s1: Index, at: int)
    requires
        0 <= at <= s0.prefixes.len(),
        s1.prefixes@.len() == s0.prefixes@.len() + 1,
        forall|i: int| 0 <= i < at ==> s1.prefixes@[i] == s0.prefixes@[i],
        forall|i: int| at < i < s1.prefixes@.len() ==> s1.prefixes@[i] == s0.prefixes@[i - 1],
        s1.prefixes@[at].index.prefixes@.len() == 0,
        s1.prefixes@[at].index.objects@.len() == 0,
        s1.objects == s0.objects,
    ensures
        forall|p: Seq<char>| #[trigger]
            s1.has_dir(p) <==> s0.has_dir(p) || p == s1.prefixes@[at].name@ + seq!['/'],
        forall|d: Seq<char>, n: Seq<char>| #[trigger] s1.has_object(d, n) <==> s0.has_object(d, n),
{
    let name = s1.prefixes@[at].name@;
    let fresh = s1.prefixes@[at].index;
    assert forall|p: Seq<char>| #[trigger]
        s1.has_dir(p) <==> s0.has_dir(p) || p == name + seq!['/'] by {
        if s1.has_dir(p) && p.len() > 0 {
            let i = choose|i: int|
                0 <= i < s1.prefixes.len() && enters((#[trigger] s1.prefixes[i]).name@, p)
                    && s1.prefixes[i].index.has_dir(inside(s1.prefixes[i].name@, p));
            if i < at {
                assert(s0.prefixes[i] == s1.prefixes[i]);
            } else if i > at {
                assert(s0.prefixes[i - 1] == s1.prefixes[i]);
            } else {
                lemma_leaf(fresh, inside(name, p), p);
                assert(inside(name, p).len() == 0);
                assert(p =~= name + seq!['/']) by {
                    assert(p.take(name.len() as int) == name);
                    assert forall|k: int| 0 <= k < p.len() implies p[k] == (name + seq!['/'])[k] by {
                        if k < name.len() {
                            assert(p.take(name.len() as int)[k] == name[k]);
                        }
                    }
                }
            }
        }
        if s0.has_dir(p) && p.len() > 0 {
            let i = choose|i: int|
                0 <= i < s0.prefixes.len() && enters((#[trigger] s0.prefixes[i]).name@, p)
                    && s0.prefixes[i].index.has_dir(inside(s0.prefixes[i].name@, p));
            if i < at {
                assert(s1.prefixes[i] == s0.prefixes[i]);
            } else {
                assert(s1.prefixes[i + 1] == s0.prefixes[i]);
            }
        }
        if p == name + seq!['/'] {
            assert(p.take(name.len() as int) =~= name);
            assert(enters(s1.prefixes[at].name@, p));
            assert(inside(name, p).len() == 0);
            lemma_leaf(fresh, inside(name, p), p);
        }
    }
    assert forall|d: Seq<char>, n: Seq<char>| #[trigger]
        s1.has_object(d, n) <==> s0.has_object(d, n) by {
        if d.len() > 0 {
            if s1.has_object(d, n) {
                let i = choose|i: int|
                    0 <= i < s1.prefixes.len() && enters((#[trigger] s1.prefixes[i]).name@, d)
                        && s1.prefixes[i].index.has_object(inside(s1.prefixes[i].name@, d), n);
                if i < at {
                    assert(s0.prefixes[i] == s1.prefixes[i]);
                } else if i > at {
                    assert(s0.prefixes[i - 1] == s1.prefixes[i]);
                } else {
                    lemma_leaf(fresh, inside(name, d), n);
                }
            }
            if s0.has_object(d, n) {
                let i = choose|i: int|
                    0 <= i < s0.prefixes.len() && enters((#[trigger] s0.prefixes[i]).name@, d)
                        && s0.prefixes[i].index.has_object(inside(s0.prefixes[i].name@, d), n);
                if i < at {
                    assert(s1.prefixes[i] == s0.prefixes[i]);
                } else {
                    assert(s1.prefixes[i + 1] == s0.prefixes[i]);
                }
            }
        }
    }
}

/// What a directory holds after its sub-directory at `at` has changed.
proof fn lemma_child_replaced(s1: Index, s2: Index, at: int)
    requires
        0 <= at < s1.prefixes.len(),
        s2.prefixes@.len() == s1.prefixes@.len(),
        forall|i: int| 0 <= i < s1.prefixes@.len() && i != at ==> s2.prefixes@[i] == s1.prefixes@[i],
        s2.prefixes@[at].name == s1.prefixes@[at].name,
        s2.objects == s1.objects,
    ensures
        forall|p: Seq<char>| #[trigger]
            s2.has_dir(p) <==> (s1.has_dir(p) && !(enters(s1.prefixes@[at].name@, p)
                && s1.prefixes@[at].index.has_dir(inside(s1.prefixes@[at].name@, p)))) || (
            s1.has_dir(p) && other_way(s1, at, p)) || (enters(s1.prefixes@[at].name@, p)
                && s2.prefixes@[at].index.has_dir(inside(s1.prefixes@[at].name@, p))),
        forall|d: Seq<char>, n: Seq<char>| #[trigger]
            s2.has_object(d, n) <==> (s1.has_object(d, n) && !(enters(s1.prefixes@[at].name@, d)
                && s1.prefixes@[at].index.has_object(inside(s1.prefixes@[at].name@, d), n))) || (
            s1.has_object(d, n) && other_way_object(s1, at, d, n)) || (enters(
                s1.prefixes@[at].name@,
                d,
            ) && s2.prefixes@[at].index.has_object(inside(s1.prefixes@[at].name@, d), n)),
{
    let name = s1.prefixes@[at].name@;
    assert forall|p: Seq<char>| #[trigger]
        s2.has_dir(p) <==> (s1.has_dir(p) && !(enters(name, p) && s1.prefixes@[at].index.has_dir(
            inside(name, p),
        ))) || (s1.has_dir(p) && other_way(s1, at, p)) || (enters(name, p)
            && s2.prefixes@[at].index.has_dir(inside(name, p))) by {
        if s2.has_dir(p) && p.len() > 0 {
            let i = choose|i: int|
                0 <= i < s2.prefixes.len() && enters((#[trigger] s2.prefixes[i]).name@, p)
                    && s2.prefixes[i].index.has_dir(inside(s2.prefixes[i].name@, p));
            if i != at {
                assert(s1.prefixes[i] == s2.prefixes[i]);
                assert(other_way(s1, at, p));
            }
        }
        if s1.has_dir(p) && p.len() > 0 {
            let i = choose|i: int|
                0 <= i < s1.prefixes.len() && enters((#[trigger] s1.prefixes[i]).name@, p)
                    && s1.prefixes[i].index.has_dir(inside(s1.prefixes[i].name@, p));
            if i != at {
                assert(s2.prefixes[i] == s1.prefixes[i]);
            }
            if other_way(s1, at, p) {
                let j = choose|j: int|
                    0 <= j < s1.prefixes.len() && j != at && enters(
                        (#[trigger] s1.prefixes[j]).name@,
                        p,
                    ) && s1.prefixes[j].index.has_dir(inside(s1.prefixes[j].name@, p));
                assert(s2.prefixes[j] == s1.prefixes[j]);
            }
        }
        if enters(name, p) && s2.prefixes@[at].index.has_dir(inside(name, p)) {
            assert(enters(s2.prefixes[at].name@, p));
        }
    }
    assert forall|d: Seq<char>, n: Seq<char>| #[trigger]
        s2.has_object(d, n) <==> (s1.has_object(d, n) && !(enters(name, d)
            && s1.prefixes@[at].index.has_object(inside(name, d), n))) || (s1.has_object(d, n)
            && other_way_object(s1, at, d, n)) || (enters(name, d)
            && s2.prefixes@[at].index.has_object(inside(name, d), n)) by {
        if d.len() > 0 {
            if s2.has_object(d, n) {
                let i = choose|i: int|
                    0 <= i < s2.prefixes.len() && enters((#[trigger] s2.prefixes[i]).name@, d)
                        && s2.prefixes[i].index.has_object(inside(s2.prefixes[i].name@, d), n);
                if i != at {
                    assert(s1.prefixes[i] == s2.prefixes[i]);
                    assert(other_way_object(s1, at, d, n));
                }
            }
            if s1.has_object(d, n) {
                let i = choose|i: int|
                    0 <= i < s1.prefixes.len() && enters((#[trigger] s1.prefixes[i]).name@, d)
                        && s1.prefixes[i].index.has_object(inside(s1.prefixes[i].name@, d), n);
                if i != at {
                    assert(s2.prefixes[i] == s1.prefixes[i]);
                }
                if other_way_object(s1, at, d, n) {
                    let j = choose|j: int|
                        0 <= j < s1.prefixes.len() && j != at && enters(
                            (#[trigger] s1.prefixes[j]).name@,
                            d,
                        ) && s1.prefixes[j].index.has_object(inside(s1.prefixes[j].name@, d), n);
                    assert(s2.prefixes[j] == s1.prefixes[j]);
                }
            }
            if enters(name, d) && s2.prefixes@[at].index.has_object(inside(name, d), n) {
                assert(enters(s2.prefixes[at].name@, d));
            }
        }
    }
}

/// What a directory holds after an object was put in at `at`.
proof fn lemma_object_added(s0: Index, s1: Index, at: int)
    requires
        s0.wf(),
        0 <= at <= s0.objects@.len(),
        s1.objects@ == s0.objects@.insert(at, s1.objects@[at]),
        s1.objects@.len() == s0.objects@.len() + 1,
        s1.prefixes == s0.prefixes,
        forall|i: int| 0 <= i < at ==> str_lt((#[trigger] s0.objects[i])@, s1.objects@[at]@),
        forall|i: int|
            at <= i < s0.objects@.len() ==> str_lt(s1.objects@[at]@, (#[trigger] s0.objects[i])@),
    ensures
        s1.wf(),
        forall|p: Seq<char>| #[trigger] s1.has_dir(p) <==> s0.has_dir(p),
        forall|d: Seq<char>, n: Seq<char>| #[trigger]
            s1.has_object(d, n) <==> s0.has_object(d, n) || (d.len() == 0 && n
                == s1.objects@[at]@),
{
    let name = s1.objects@[at]@;
    assert forall|a: int, b: int| 0 <= a < b < s1.objects.len() implies str_lt(
        (#[trigger] s1.objects[a])@,
        (#[trigger] s1.objects[b])@,
    ) by {
        let x = if a < at { a } else { a - 1 };
        let y = if b < at { b } else { b - 1 };
        if a != at {
            assert(s1.objects[a] == s0.objects[x]);
        }
        if b != at {
            assert(s1.objects[b] == s0.objects[y]);
        }
        if a != at && b != at {
            assert(str_lt(s0.objects[x]@, s0.objects[y]@));
        }
    }
    assert forall|d: Seq<char>, n: Seq<char>| #[trigger]
        s1.has_object(d, n) <==> s0.has_object(d, n) || (d.len() == 0 && n == name) by {
        if d.len() == 0 {
            if s1.has_object(d, n) {
                let k = choose|k: int| 0 <= k < s1.objects.len() && (#[trigger] s1.objects[k])@ == n;
                if k < at {
                    assert(s0.objects[k]@ == n);
                } else if k > at {
                    assert(s0.objects[k - 1]@ == n);
                }
            }
            if s0.has_object(d, n) {
                let k = choose|k: int| 0 <= k < s0.objects.len() && (#[trigger] s0.objects[k])@ == n;
                if k < at {
                    assert(s1.objects[k]@ == n);
                } else {
                    assert(s1.objects[k + 1]@ == n);
                }
            }
            if n == name {
                assert(s1.objects[at]@ == n);
            }
        }
    }
}

/// A sub-directory other than the one at `at` leads to the directory `p`.
spec fn other_way(s: Index, at: int, p: Seq<char>) -> bool {
    exists|j: int|
        0 <= j < s.prefixes.len() && j != at && enters((#[trigger] s.prefixes[j]).name@, p)
            && s.prefixes[j].index.has_dir(inside(s.prefixes[j].name@, p))
}

/// A sub-directory other than the one at `at` leads to the object.
spec fn other_way_object(s: Index, at: int, d: Seq<char>, n: Seq<char>) -> bool {
    exists|j: int|
        0 <= j < s.prefixes.len() && j != at && enters((#[trigger] s.prefixes[j]).name@, d)
            && s.prefixes[j].index.has_object(inside(s.prefixes[j].name@, d), n)
}

impl Index {
    /// Names ascend strictly on every level.
    pub open spec fn wf(&self) -> bool
        decreases self,
    {
        &&& forall|i: int, j: int|
            0 <= i < j < self.prefixes.len() ==> str_lt(
                (#[trigger] self.prefixes[i]).name@,
                (#[trigger] self.prefixes[j]).name@,
            )
        &&& forall|i: int, j: int|
            0 <= i < j < self.objects.len() ==> str_lt(
                (#[trigger] self.objects[i])@,
                (#[trigger] self.objects[j])@,
            )
        &&& forall|i: int|
            0 <= i < self.prefixes.len() ==> plain_name((#[trigger] self.prefixes[i]).name@)
                && self.prefixes[i].index.wf()
    }

    /// The tree holds the directory `path`, which is empty for this
    /// directory itself and else ends with a slash.
    pub open spec fn has_dir(&self, path: Seq<char>) -> bool
        decreases self,
    {
        path.len() == 0 || exists|i: int|
            0 <= i < self.prefixes.len() && enters((#[trigger] self.prefixes[i]).name@, path)
                && self.prefixes[i].index.has_dir(inside(self.prefixes[i].name@, path))
    }

    /// The directory `dir` of the tree holds the object `name`.
    pub open spec fn has_object(&self, dir: Seq<char>, name: Seq<char>) -> bool
        decreases self,
    {
        if dir.len() == 0 {
            exists|i: int| 0 <= i < self.objects.len() && (#[trigger] self.objects[i])@ == name
        } else {
            exists|i: int|
                0 <= i < self.prefixes.len() && enters((#[trigger] self.prefixes[i]).name@, dir)
                    && self.prefixes[i].index.has_object(inside(self.prefixes[i].name@, dir), name)
        }
    }

    /// The keys of the listing files: that of this directory, then those of
    /// each sub-directory in turn.
    pub open spec fn spec_snapshot(&self, prefix: Seq<char>, list_key: Seq<char>) -> Seq<Seq<char>>
        decreases self, 1nat, 0nat,
    {
        seq![prefix + list_key] + self.snapshot_below(prefix, list_key, self.prefixes.len() as nat)
    }

    /// The keys of the listing files below the first `n` sub-directories.
    pub open spec fn snapshot_below(
        &self,
        prefix: Seq<char>,
        list_key: Seq<char>,
        n: nat,
    ) -> Seq<Seq<char>>
        decreases self, 0nat, n,
    {
        if n == 0 || n > self.prefixes.len() {
            Seq::empty()
        } else {
            self.snapshot_below(prefix, list_key, (n - 1) as nat) + self.prefixes[n
                - 1].index.spec_snapshot(prefix + self.prefixes[n - 1].name@ + seq!['/'], list_key)
        }
    }

    /// The empty directory.
    pub fn new() -> (index: Self)
        ensures
            index.wf(),
            index.prefixes@.len() == 0,
            index.objects@.len() == 0,
    {
        Index { prefixes: Vec::new(), objects: Vec::new() }
    }

    /// Where the sub-directory `name` stands, or would stand, and whether it
    /// is there.
    pub(crate) fn locate(&self, name: &str) -> (r: (usize, bool))
        requires
            self.wf(),
        ensures
            r.0 <= self.prefixes.len(),
            r.1 ==> r.0 < self.prefixes.len() && self.prefixes[r.0 as int].name@ == name@,
            forall|i: int| 0 <= i < r.0 ==> str_lt((#[trigger] self.prefixes[i]).name@, name@),
            !r.1 ==> forall|i: int|
                r.0 <= i < self.prefixes.len() ==> str_lt(
                    name@,
                    (#[trigger] self.prefixes[i]).name@,
                ),
    {
        let mut i: usize = self.prefixes.len();
        while i > 0
            invariant
                self.wf(),
                i <= self.prefixes.len(),
                forall|j: int|
                    i <= j < self.prefixes.len() ==> str_lt(
                        name@,
                        (#[trigger] self.prefixes[j]).name@,
                    ),
            decreases i,
        {
            match compare_str(self.prefixes[i - 1].name.as_str(), name) {
                KeyOrder::Same => {
                    proof {
                        assert forall|j: int| 0 <= j < i - 1 implies str_lt(
                            (#[trigger] self.prefixes[j]).name@,
                            name@,
                        ) by {
                            assert(str_lt(self.prefixes[j].name@, self.prefixes[i - 1].name@));
                        }
                    }
                    return (i - 1, true);
                },
                KeyOrder::Before => {
                    proof {
                        assert forall|j: int| 0 <= j < i implies str_lt(
                            (#[trigger] self.prefixes[j]).name@,
                            name@,
                        ) by {
                            if j < i - 1 {
                                assert(str_lt(self.prefixes[j].name@, self.prefixes[i - 1].name@));
                                lemma_str_lt_transitive(
                                    self.prefixes[j].name@,
                                    self.prefixes[i - 1].name@,
                                    name@,
                                );
                            }
                        }
                    }
                    return (i, false);
                },
                KeyOrder::After => {
                    i -= 1;
                },
            }
        }
        (0, false)
    }

    /// Makes sure that the sub-directory `name` is there, and says where.
    fn enter(&mut self, name: String) -> (at: usize)
        requires
            old(self).wf(),
            plain_name(name@),
        ensures
            final(self).wf(),
            at < final(self).prefixes.len(),
            final(self).prefixes[at as int].name@ == name@,
            forall|p: Seq<char>| #[trigger]
                final(self).has_dir(p) <==> old(self).has_dir(p) || p == name@ + seq!['/'],
            forall|d: Seq<char>, n: Seq<char>| #[trigger]
                final(self).has_object(d, n) <==> old(self).has_object(d, n),
    {
        let (at, found) = self.locate(name.as_str());
        if !found {
            let ghost before = *self;
            let dir = IndexDir { name, index: Index::new() };
            self.prefixes.insert(at, dir);
            proof {
                lemma_entered(before, *self, at as int);
                assert(self.wf()) by {
                    assert forall|i: int, j: int| 0 <= i < j < self.prefixes.len() implies str_lt(
                        (#[trigger] self.prefixes[i]).name@,
                        (#[trigger] self.prefixes[j]).name@,
                    ) by {
                        if i < at && j > at {
                            assert(self.prefixes[i] == before.prefixes[i]);
                            assert(self.prefixes[j] == before.prefixes[j - 1]);
                        } else if i == at {
                            assert(self.prefixes[j] == before.prefixes[j - 1]);
                        } else if j == at {
                            assert(self.prefixes[i] == before.prefixes[i]);
                        } else if j < at {
                            assert(self.prefixes[i] == before.prefixes[i]);
                            assert(self.prefixes[j] == before.prefixes[j]);
                        } else {
                            assert(self.prefixes[i] == before.prefixes[i - 1]);
                            assert(self.prefixes[j] == before.prefixes[j - 1]);
                        }
                    }
                    assert forall|i: int| 0 <= i < self.prefixes.len() implies plain_name(
                        (#[trigger] self.prefixes[i]).name@,
                    ) && self.prefixes[i].index.wf() by {
                        if i < at {
                            assert(self.prefixes[i] == before.prefixes[i]);
                        } else if i > at {
                            assert(self.prefixes[i] == before.prefixes[i - 1]);
                        }
                    }
                }
            }
        } else {
            proof {
                let nm = self.prefixes[at as int].name@;
                assert(self.has_dir(nm + seq!['/'])) by {
                    let p = nm + seq!['/'];
                    assert(p.take(nm.len() as int) =~= nm);
                    assert(enters(self.prefixes[at as int].name@, p));
                    assert(inside(nm, p) =~= Seq::<char>::empty());
                    lemma_holds_itself(self.prefixes[at as int].index);
                }
            }
        }
        at
    }

    /// Where the object `name` stands, or would stand, and whether it is
    /// there.
    fn locate_object(&self, name: &str) -> (r: (usize, bool))
        requires
            self.wf(),
        ensures
            r.0 <= self.objects.len(),
            r.1 ==> r.0 < self.objects.len() && self.objects[r.0 as int]@ == name@,
            forall|i: int| 0 <= i < r.0 ==> str_lt((#[trigger] self.objects[i])@, name@),
            !r.1 ==> forall|i: int|
                r.0 <= i < self.objects.len() ==> str_lt(name@, (#[trigger] self.objects[i])@),
    {
        let mut i: usize = self.objects.len();
        while i > 0
            invariant
                self.wf(),
                i <= self.objects.len(),
                forall|j: int|
                    i <= j < self.objects.len() ==> str_lt(name@, (#[trigger] self.objects[j])@),
            decreases i,
        {
            match compare_str(self.objects[i - 1].as_str(), name) {
                KeyOrder::Same => {
                    proof {
                        assert forall|j: int| 0 <= j < i - 1 implies str_lt(
                            (#[trigger] self.objects[j])@,
                            name@,
                        ) by {
                            assert(str_lt(self.objects[j]@, self.objects[i - 1]@));
                        }
                    }
                    return (i - 1, true);
                },
                KeyOrder::Before => {
                    proof {
                        assert forall|j: int| 0 <= j < i implies str_lt(
                            (#[trigger] self.objects[j])@,
                            name@,
                        ) by {
                            if j < i - 1 {
                                assert(str_lt(self.objects[j]@, self.objects[i - 1]@));
                                lemma_str_lt_transitive(
                                    self.objects[j]@,
                                    self.objects[i - 1]@,
                                    name@,
                                );
                            }
                        }
                    }
                    return (i, false);
                },
                KeyOrder::After => {
                    i -= 1;
                },
            }
        }
        (0, false)
    }

    /// Puts the object `name` into this directory, unless it is there.
    fn add_object(&mut self, name: String)
        requires
            old(self).wf(),
        ensures
            final(self).wf(),
            forall|p: Seq<char>| #[trigger] final(self).has_dir(p) <==> old(self).has_dir(p),
            forall|d: Seq<char>, n: Seq<char>| #[trigger]
                final(self).has_object(d, n) <==> old(self).has_object(d, n) || (d.len() == 0 && n
                    == name@),
    {
        let ghost before = *self;
        let (at, found) = self.locate_object(name.as_str());
        if !found {
            self.objects.insert(at, name);
            proof {
                lemma_object_added(before, *self, at as int);
            }
        }
    }

    /// Inserts the key `chars[from..]`, relative to this directory.
    fn insert_chars(&mut self, chars: &Vec<char>, from: usize, remaining_depth: usize)
        requires
            old(self).wf(),
            from <= chars@.len(),
        ensures
            final(self).wf(),
            inserted(*old(self), *final(self), chars@.skip(from as int), remaining_depth as nat),
        decreases chars@.len() - from,
    {
        let ghost path = chars@.skip(from as int);
        let ghost depth = remaining_depth as nat;
        let n: usize = chars.len();
        let mut pos: usize = from;
        while pos < n && chars[pos] != '/'
            invariant
                from <= pos <= n,
                n == chars@.len(),
                forall|i: int| from <= i < pos ==> chars@[i] != '/',
            decreases n - pos,
        {
            pos += 1;
        }
        proof {
            lemma_first_slash_is(path, pos - from);
        }
        if remaining_depth == 0 || pos == n {
            let name = from_chars(chars.as_slice(), from, n);
            let ghost before = *self;
            self.add_object(name);
            proof {
                assert(name@ =~= path);
                assert(dir_len(path, depth) == 0);
                assert(object_dir(path, depth) =~= Seq::<char>::empty());
                assert(object_name(path, depth) =~= path);
                assert forall|p: Seq<char>| !dir_prefix_of(p, path, depth) by {
                    if dir_prefix_of(p, path, depth) {
                        lemma_count_slashes_last(p);
                        lemma_first_slash(path);
                        assert(p[p.len() - 1] == path[p.len() - 1]);
                    }
                }
                assert forall|d: Seq<char>, n: Seq<char>| #[trigger]
                    self.has_object(d, n) <==> before.has_object(d, n) || (d == object_dir(
                        path,
                        depth,
                    ) && n == object_name(path, depth)) by {
                    if d.len() == 0 {
                        assert(d =~= Seq::<char>::empty());
                    }
                }
            }
        } else {
            let parent = from_chars(chars.as_slice(), from, pos);
            let ghost before = *self;
            let ghost name = parent@;
            let at = self.enter(parent);
            let ghost entered = *self;
            self.prefixes[at].index.insert_chars(chars, pos + 1, remaining_depth - 1);
            proof {
                let rest = chars@.skip(pos + 1);
                let d1 = (depth - 1) as nat;
                assert(name =~= path.take(pos - from));
                assert(rest =~= path.skip(pos - from + 1));
                assert(path.take(pos - from + 1) =~= name + seq!['/']);
                lemma_child_replaced(entered, *self, at as int);
                let child0 = entered.prefixes[at as int].index;
                let child1 = self.prefixes[at as int].index;
                assert(inserted(child0, child1, rest, d1));
                assert forall|p: Seq<char>| #[trigger]
                    self.has_dir(p) <==> before.has_dir(p) || dir_prefix_of(p, path, depth) by {
                    lemma_dir_prefix_split(p, path, depth);
                    let q = inside(name, p);
                    assert(child1.has_dir(q) <==> child0.has_dir(q) || dir_prefix_of(q, rest, d1));
                    if enters(name, p) && child0.has_dir(q) {
                        assert(enters(entered.prefixes[at as int].name@, p));
                        assert(entered.has_dir(p));
                    }
                }
                assert forall|d: Seq<char>, n: Seq<char>| #[trigger]
                    self.has_object(d, n) <==> before.has_object(d, n) || (d == object_dir(
                        path,
                        depth,
                    ) && n == object_name(path, depth)) by {
                    let q = inside(name, d);
                    let dl = dir_len(rest, d1);
                    lemma_dir_len_bounds(rest, d1);
                    assert(dir_len(path, depth) == pos - from + 1 + dl);
                    assert(object_name(path, depth) =~= object_name(rest, d1));
                    assert(object_dir(path, depth) =~= name + seq!['/'] + object_dir(rest, d1));
                    assert(child1.has_object(q, n) <==> child0.has_object(q, n) || (q
                        == object_dir(rest, d1) && n == object_name(rest, d1)));
                    if enters(name, d) && child0.has_object(q, n) {
                        assert(enters(entered.prefixes[at as int].name@, d));
                        assert(entered.has_object(d, n));
                    }
                    if d == object_dir(path, depth) {
                        assert(d.take(name.len() as int) =~= name);
                        assert(enters(name, d));
                        assert(q =~= object_dir(rest, d1));
                    }
                    if enters(name, d) && q == object_dir(rest, d1) {
                        assert(d =~= name + seq!['/'] + q) by {
                            assert(d.take(name.len() as int) == name);
                            assert forall|i: int| 0 <= i < d.len() implies d[i] == (name + seq![
                                '/',
                            ] + q)[i] by {
                                if i < name.len() {
                                    assert(d.take(name.len() as int)[i] == name[i]);
                                }
                            }
                        }
                    }
                }
            }
        }
    }

    /// Inserts the key `path` into a tree of `remaining_depth` more levels:
    /// each of its first `remaining_depth` components that a slash ends
    /// becomes a directory, and what is left becomes the object's name.
    pub fn insert(&mut self, path: &str, remaining_depth: usize)
        requires
            old(self).wf(),
        ensures
            final(self).wf(),
            inserted(*old(self), *final(self), path@, remaining_depth as nat),
    {
        let chars = to_chars(path);
        proof {
            assert(chars@.skip(0) =~= path@);
        }
        self.insert_chars(&chars, 0, remaining_depth);
    }

    /// The keys of the listing files of this directory and of all below it,
    /// each made of `prefix`, the directory's path and `list_key`.
    pub fn snapshot(&self, prefix: &str, list_key: &str) -> (result: Vec<String>)
        ensures
            views(result@) == self.spec_snapshot(prefix@, list_key@),
        decreases self,
    {
        let mut result: Vec<String> = Vec::new();
        let mut own = String::from_str(prefix);
        own.append(list_key);
        result.push(own);
        let n: usize = self.prefixes.len();
        let mut i: usize = 0;
        proof {
            assert(views(result@) =~= seq![prefix@ + list_key@]);
        }
        while i < n
            invariant
                i <= n,
                n == self.prefixes.len(),
                views(result@) == seq![prefix@ + list_key@] + self.snapshot_below(
                    prefix@,
                    list_key@,
                    i as nat,
                ),
            decreases n - i,
        {
            let child = &self.prefixes[i];
            let mut new_prefix = String::from_str(prefix);
            new_prefix.append(child.name.as_str());
            new_prefix.append("/");
            proof {
                reveal_strlit("/");
                assert("/"@ =~= seq!['/']);
            }
            let ghost before = result@;
            let mut below = child.index.snapshot(new_prefix.as_str(), list_key);
            let ghost added = below@;
            result.append(&mut below);
            proof {
                assert(views(result@) =~= views(before) + views(added));
                assert(views(result@) =~= seq![prefix@ + list_key@] + self.snapshot_below(
                    prefix@,
                    list_key@,
                    (i + 1) as nat,
                ));
            }
            i += 1;
        }
        result
    }
}

/// Some key of `keys` lies under the directory `p`, at most `depth` levels
/// down.
pub open spec fn above_some(keys: Seq<Seq<char>>, p: Seq<char>, depth: nat) -> bool {
    exists|i: int| 0 <= i < keys.len() && dir_prefix_of(p, #[trigger] keys[i], depth)
}

/// Some key of `keys` is the object `n` of the directory `d`.
pub open spec fn stored_some(keys: Seq<Seq<char>>, d: Seq<char>, n: Seq<char>, depth: nat) -> bool {
    exists|i: int|
        0 <= i < keys.len() && d == object_dir(#[trigger] keys[i], depth) && n == object_name(
            keys[i],
            depth,
        )
}

/// `index` is the tree over `keys`, `depth` levels deep.
pub open spec fn is_index_of(index: Index, keys: Seq<Seq<char>>, depth: nat) -> bool {
    &&& index.wf()
    &&& forall|p: Seq<char>| #[trigger]
        index.has_dir(p) <==> p.len() == 0 || above_some(keys, p, depth)
    &&& forall|d: Seq<char>, n: Seq<char>| #[trigger]
        index.has_object(d, n) <==> stored_some(keys, d, n, depth)
}

/// The tree over `objects`: every key lies in the directory that its first
/// `max_depth` components name, under what is left of it as its name.
pub fn generate_index(objects: &[String], max_depth: usize) -> (index: Index)
    ensures
        is_index_of(index, views(objects@), max_depth as nat),
{
    let mut index = Index::new();
    let n: usize = objects.len();
    let mut i: usize = 0;
    let ghost keys = views(objects@);
    let ghost depth = max_depth as nat;
    proof {
        assert forall|p: Seq<char>, m: Seq<char>| true implies (#[trigger] index.has_dir(p) <==> p.len()
            == 0) && !#[trigger] index.has_object(p, m) by {
            lemma_leaf(index, p, m);
        }
        assert(is_index_of(index, keys.take(0), depth));
    }
    while i < n
        invariant
            i <= n,
            n == objects@.len(),
            keys == views(objects@),
            depth == max_depth as nat,
            is_index_of(index, keys.take(i as int), depth),
        decreases n - i,
    {
        let ghost before = index;
        index.insert(objects[i].as_str(), max_depth);
        proof {
            let done = keys.take(i as int);
            let more = keys.take(i + 1);
            let key = objects@[i as int]@;
            assert(more =~= done.push(key));
            assert forall|p: Seq<char>| #[trigger]
                index.has_dir(p) <==> p.len() == 0 || above_some(more, p, depth) by {
                assert(before.has_dir(p) <==> p.len() == 0 || above_some(done, p, depth));
                if above_some(done, p, depth) {
                    let k = choose|k: int|
                        0 <= k < done.len() && dir_prefix_of(p, #[trigger] done[k], depth);
                    assert(more[k] == done[k]);
                }
                if above_some(more, p, depth) {
                    let k = choose|k: int|
                        0 <= k < more.len() && dir_prefix_of(p, #[trigger] more[k], depth);
                    if k < done.len() {
                        assert(more[k] == done[k]);
                    }
                }
                if dir_prefix_of(p, key, depth) {
                    assert(more[i as int] == key);
                }
            }
            assert forall|d: Seq<char>, m: Seq<char>| #[trigger]
                index.has_object(d, m) <==> stored_some(more, d, m, depth) by {
                assert(before.has_object(d, m) <==> stored_some(done, d, m, depth));
                if stored_some(done, d, m, depth) {
                    let k = choose|k: int|
                        0 <= k < done.len() && d == object_dir(#[trigger] done[k], depth) && m
                            == object_name(done[k], depth);
                    assert(more[k] == done[k]);
                }
                if stored_some(more, d, m, depth) {
                    let k = choose|k: int|
                        0 <= k < more.len() && d == object_dir(#[trigger] more[k], depth) && m
                            == object_name(more[k], depth);
                    if k < done.len() {
                        assert(more[k] == done[k]);
                    }
                }
                if d == object_dir(key, depth) && m == object_name(key, depth) {
                    assert(more[i as int] == key);
                }
            }
        }
        i += 1;
    }
    proof {
        assert(keys.take(n as int) =~= keys);
    }
    index
}

/// `key` is the listing file of a directory of `index`.
pub open spec fn lists(
    index: Index,
    prefix: Seq<char>,
    list_key: Seq<char>,
    key: Seq<char>,
) -> bool {
    exists|p: Seq<char>| #[trigger] index.has_dir(p) && key == prefix + p + list_key
}

/// `key` is the listing file of a directory in or below one of the first
/// `n` sub-directories of `index`.
spec fn lists_below(
    index: Index,
    prefix: Seq<char>,
    list_key: Seq<char>,
    n: nat,
    key: Seq<char>,
) -> bool {
    exists|j: int|
        0 <= j < n && j < index.prefixes.len() && lists(
            (#[trigger] index.prefixes[j]).index,
            prefix + index.prefixes[j].name@ + seq!['/'],
            list_key,
            key,
        )
}

/// The snapshot of a tree holds one listing file for each of its
/// directories, and nothing else.
pub proof fn lemma_snapshot_lists_dirs(index: Index, prefix: Seq<char>, list_key: Seq<char>)
    ensures
        forall|key: Seq<char>| #[trigger]
            index.spec_snapshot(prefix, list_key).contains(key) <==> lists(
                index,
                prefix,
                list_key,
                key,
            ),
    decreases index, 1nat, 0nat,
{
    let n = index.prefixes.len() as nat;
    lemma_snapshot_below(index, prefix, list_key, n);
    let own = prefix + list_key;
    let below = index.snapshot_below(prefix, list_key, n);
    assert forall|key: Seq<char>| #[trigger]
        index.spec_snapshot(prefix, list_key).contains(key) <==> lists(
            index,
            prefix,
            list_key,
            key,
        ) by {
        let all = seq![own] + below;
        if all.contains(key) {
            let k = choose|k: int| 0 <= k < all.len() && all[k] == key;
            if k == 0 {
                let p = Seq::<char>::empty();
                assert(prefix + p + list_key =~= own);
                assert(index.has_dir(p));
            } else {
                assert(below[k - 1] == key);
                assert(below.contains(key));
                let j = choose|j: int|
                    0 <= j < n && j < index.prefixes.len() && lists(
                        (#[trigger] index.prefixes[j]).index,
                        prefix + index.prefixes[j].name@ + seq!['/'],
                        list_key,
                        key,
                    );
                let name = index.prefixes[j].name@;
                let q = choose|q: Seq<char>| #[trigger]
                    index.prefixes[j].index.has_dir(q) && key == prefix + name + seq!['/'] + q
                        + list_key;
                let p = name + seq!['/'] + q;
                assert(p.take(name.len() as int) =~= name);
                assert(inside(name, p) =~= q);
                assert(enters(index.prefixes[j].name@, p));
                assert(index.has_dir(p));
                assert(prefix + p + list_key =~= key);
            }
        }
        if lists(index, prefix, list_key, key) {
            let p = choose|p: Seq<char>| #[trigger] index.has_dir(p) && key == prefix + p + list_key;
            if p.len() == 0 {
                assert(prefix + p + list_key =~= own);
                assert(all[0] == key);
            } else {
                let j = choose|j: int|
                    0 <= j < index.prefixes.len() && enters((#[trigger] index.prefixes[j]).name@, p)
                        && index.prefixes[j].index.has_dir(inside(index.prefixes[j].name@, p));
                let name = index.prefixes[j].name@;
                let q = inside(name, p);
                assert(p =~= name + seq!['/'] + q) by {
                    assert(p.take(name.len() as int) == name);
                    assert forall|k: int| 0 <= k < p.len() implies p[k] == (name + seq!['/'] + q)[k] by {
                        if k < name.len() {
                            assert(p.take(name.len() as int)[k] == name[k]);
                        }
                    }
                }
                assert(key =~= prefix + name + seq!['/'] + q + list_key);
                assert(lists(index.prefixes[j].index, prefix + name + seq!['/'], list_key, key));
                assert(lists_below(index, prefix, list_key, n, key));
                assert(below.contains(key));
                let k = choose|k: int| 0 <= k < below.len() && below[k] == key;
                assert(all[k + 1] == key);
            }
        }
    }
}

proof fn lemma_snapshot_below(index: Index, prefix: Seq<char>, list_key: Seq<char>, n: nat)
    requires
        n <= index.prefixes.len(),
    ensures
        forall|key: Seq<char>| #[trigger]
            index.snapshot_below(prefix, list_key, n).contains(key) <==> lists_below(
                index,
                prefix,
                list_key,
                n,
                key,
            ),
    decreases index, 0nat, n,
{
    if n > 0 {
        let m = (n - 1) as nat;
        let child = index.prefixes[n - 1];
        let sub = prefix + child.name@ + seq!['/'];
        lemma_snapshot_below(index, prefix, list_key, m);
        lemma_snapshot_lists_dirs(child.index, sub, list_key);
        let a = index.snapshot_below(prefix, list_key, m);
        let b = child.index.spec_snapshot(sub, list_key);
        assert forall|key: Seq<char>| #[trigger]
            index.snapshot_below(prefix, list_key, n).contains(key) <==> lists_below(
                index,
                prefix,
                list_key,
                n,
                key,
            ) by {
            let all = a + b;
            if all.contains(key) {
                let k = choose|k: int| 0 <= k < all.len() && all[k] == key;
                if k < a.len() {
                    assert(a[k] == key);
                    assert(a.contains(key));
                    let j = choose|j: int|
                        0 <= j < m && j < index.prefixes.len() && lists(
                            (#[trigger] index.prefixes[j]).index,
                            prefix + index.prefixes[j].name@ + seq!['/'],
                            list_key,
                            key,
                        );
                    assert(0 <= j < n);
                } else {
                    assert(b[k - a.len()] == key);
                    assert(b.contains(key));
                    assert(lists(index.prefixes[n - 1].index, sub, list_key, key));
                }
            }
            if lists_below(index, prefix, list_key, n, key) {
                let j = choose|j: int|
                    0 <= j < n && j < index.prefixes.len() && lists(
                        (#[trigger] index.prefixes[j]).index,
                        prefix + index.prefixes[j].name@ + seq!['/'],
                        list_key,
                        key,
                    );
                if j < m {
                    assert(lists_below(index, prefix, list_key, m, key));
                    assert(a.contains(key));
                    let k = choose|k: int| 0 <= k < a.len() && a[k] == key;
                    assert(all[k] == key);
                } else {
                    assert(b.contains(key));
                    let k = choose|k: int| 0 <= k < b.len() && b[k] == key;
                    assert(all[k + a.len()] == key);
                }
            }
        }
    } else {
        assert forall|key: Seq<char>| #[trigger]
            index.snapshot_below(prefix, list_key, n).contains(key) <==> lists_below(
                index,
                prefix,
                list_key,
                n,
                key,
            ) by {}
    }
}

/// Two listing files with one key lie in sub-directories of one name.
proof fn lemma_same_name(
    prefix: Seq<char>,
    n1: Seq<char>,
    q1: Seq<char>,
    n2: Seq<char>,
    q2: Seq<char>,
    list_key: Seq<char>,
)
    requires
        plain_name(n1),
        plain_name(n2),
        prefix + n1 + seq!['/'] + q1 + list_key == prefix + n2 + seq!['/'] + q2 + list_key,
    ensures
        n1 == n2,
{
    let x = prefix + n1 + seq!['/'] + q1 + list_key;
    let y = prefix + n2 + seq!['/'] + q2 + list_key;
    let p = prefix.len() as int;
    if n1.len() < n2.len() {
        assert(x[p + n1.len()] == '/');
        assert(y[p + n1.len()] == n2[n1.len() as int]);
    } else if n2.len() < n1.len() {
        assert(y[p + n2.len()] == '/');
        assert(x[p + n2.len()] == n1[n2.len() as int]);
    } else {
        assert forall|i: int| 0 <= i < n1.len() implies n1[i] == n2[i] by {
            assert(x[p + i] == n1[i]);
            assert(y[p + i] == n2[i]);
        }
        assert(n1 =~= n2);
    }
}

/// No listing file stands twice in the snapshot of a tree.
pub proof fn lemma_snapshot_distinct(index: Index, prefix: Seq<char>, list_key: Seq<char>)
    requires
        index.wf(),
    ensures
        index.spec_snapshot(prefix, list_key).no_duplicates(),
    decreases index, 1nat, 0nat,
{
    let n = index.prefixes.len() as nat;
    lemma_below_distinct(index, prefix, list_key, n);
    lemma_snapshot_below(index, prefix, list_key, n);
    let own = seq![prefix + list_key];
    let below = index.snapshot_below(prefix, list_key, n);
    assert forall|i: int, j: int| 0 <= i < own.len() && 0 <= j < below.len() implies own[i]
        != below[j] by {
        let key = below[j];
        assert(below.contains(key));
        assert(lists_below(index, prefix, list_key, n, key));
        let k = choose|k: int|
            0 <= k < n && k < index.prefixes.len() && lists(
                (#[trigger] index.prefixes[k]).index,
                prefix + index.prefixes[k].name@ + seq!['/'],
                list_key,
                key,
            );
        let name = index.prefixes[k].name@;
        let q = choose|q: Seq<char>| #[trigger]
            index.prefixes[k].index.has_dir(q) && key == prefix + name + seq!['/'] + q + list_key;
        assert(key.len() > own[i].len());
    }
    vstd::seq_lib::lemma_no_dup_in_concat(own, below);
}

proof fn lemma_below_distinct(index: Index, prefix: Seq<char>, list_key: Seq<char>, n: nat)
    requires
        index.wf(),
        n <= index.prefixes.len(),
    ensures
        index.snapshot_below(prefix, list_key, n).no_duplicates(),
    decreases index, 0nat, n,
{
    if n > 0 {
        let m = (n - 1) as nat;
        let child = index.prefixes[n - 1];
        let sub = prefix + child.name@ + seq!['/'];
        lemma_below_distinct(index, prefix, list_key, m);
        lemma_snapshot_distinct(child.index, sub, list_key);
        lemma_snapshot_below(index, prefix, list_key, m);
        lemma_snapshot_lists_dirs(child.index, sub, list_key);
        let a = index.snapshot_below(prefix, list_key, m);
        let b = child.index.spec_snapshot(sub, list_key);
        assert forall|i: int, j: int| 0 <= i < a.len() && 0 <= j < b.len() implies a[i]
            != b[j] by {
            if a[i] == b[j] {
                let key = a[i];
                assert(a.contains(key));
                assert(lists_below(index, prefix, list_key, m, key));
                let k = choose|k: int|
                    0 <= k < m && k < index.prefixes.len() && lists(
                        (#[trigger] index.prefixes[k]).index,
                        prefix + index.prefixes[k].name@ + seq!['/'],
                        list_key,
                        key,
                    );
                let n1 = index.prefixes[k].name@;
                let q1 = choose|q: Seq<char>| #[trigger]
                    index.prefixes[k].index.has_dir(q) && key == prefix + n1 + seq!['/'] + q
                        + list_key;
                assert(b.contains(key));
                assert(lists(child.index, sub, list_key, key));
                let q2 = choose|q: Seq<char>| #[trigger]
                    child.index.has_dir(q) && key == sub + q + list_key;
                lemma_same_name(prefix, n1, q1, child.name@, q2, list_key);
                assert(str_lt(index.prefixes[k].name@, index.prefixes[n - 1].name@));
                crate::text::lemma_str_lt_irreflexive(n1);
            }
        }
        vstd::seq_lib::lemma_no_dup_in_concat(a, b);
    }
}

/// `p` is a directory that the listing of `keys` shows: the root, or a
/// directory above one of the keys.
pub open spec fn listed_dir(keys: Seq<Seq<char>>, depth: nat, p: Seq<char>) -> bool {
    p.len() == 0 || above_some(keys, p, depth)
}

/// `key` is the key of a listing file that a snapshot of `keys` gets.
pub open spec fn is_listing_key(keys: Seq<Seq<char>>, depth: nat, key: Seq<char>) -> bool {
    exists|p: Seq<char>| #[trigger] listed_dir(keys, depth, p) && key == p + LIST_URL@
}

/// A source whose snapshot gets listing files, and which renders them.
pub struct IndexPipe<Source> {
    pub source: Source,
    pub index: Index,
    pub buffer_path: String,
    pub base_path: String,
    pub max_depth: usize,
}

/// What the pipe does with a request for the object of a key.
pub enum IndexRoute {
    /// The key is that of a listing file: this is its content, and the
    /// object that the content is handed on as once it is written to the
    /// scratch file that the object names.
    Listing { content: String, object: ByteStream },
    /// The key is that of a listing file of a directory that the snapshot
    /// did not show.
    NoSuchDirectory,
    /// The key is the wrapped source's.
    Delegate,
}

/// The keys of a list of items.
pub open spec fn keys_of<S: Key>(items: Seq<S>) -> Seq<Seq<char>> {
    items.map_values(|item: S| item.key_view())
}

/// The items of `inner` that are the wrapped source's own, in their order:
/// those whose key is not the key of a listing file that a snapshot of
/// `keys` gets.
pub open spec fn own_items<S: Key>(inner: Seq<S>, keys: Seq<Seq<char>>, depth: nat) -> Seq<S>
    decreases inner.len(),
{
    if inner.len() == 0 {
        Seq::empty()
    } else {
        let rest = own_items(inner.drop_last(), keys, depth);
        if is_listing_key(keys, depth, inner.last().key_view()) {
            rest
        } else {
            rest.push(inner.last())
        }
    }
}

/// `items` is the snapshot of the pipe over the items `inner` of the wrapped
/// source: the source's own items as they are and in their order, and after
/// them one item for each listing file.
pub open spec fn is_index_snapshot<S: Key>(inner: Seq<S>, depth: nat, items: Seq<S>) -> bool {
    let own = own_items(inner, keys_of(inner), depth);
    &&& items.len() >= own.len()
    &&& items.take(own.len() as int) == own
    &&& keys_of(items.skip(own.len() as int)).no_duplicates()
    &&& forall|key: Seq<char>| #[trigger]
        keys_of(items.skip(own.len() as int)).contains(key) <==> is_listing_key(
            keys_of(inner),
            depth,
            key,
        )
}

/// `key` ends with the name of the listing file.
pub open spec fn is_listing(key: Seq<char>) -> bool {
    key.len() >= LIST_URL@.len() && key.skip(key.len() - LIST_URL@.len()) == LIST_URL@
}

/// The directory whose listing file `key` is.
pub open spec fn listing_dir(key: Seq<char>) -> Seq<char> {
    key.take(key.len() - LIST_URL@.len())
}

proof fn lemma_sorted_members(input: Seq<String>, output: Seq<String>)
    requires
        is_stable_sort(input, output, ByText),
    ensures
        forall|p: Seq<char>, depth: nat| #[trigger]
            above_some(views(output), p, depth) <==> above_some(views(input), p, depth),
        forall|d: Seq<char>, n: Seq<char>, depth: nat| #[trigger]
            stored_some(views(output), d, n, depth) <==> stored_some(views(input), d, n, depth),
{
    let (from, back) = choose|from: Seq<int>, back: Seq<int>| #[trigger]
        stable_sort_by(input, output, ByText, from, back);
    let a = views(input);
    let b = views(output);
    assert forall|p: Seq<char>, depth: nat| #[trigger]
        above_some(b, p, depth) <==> above_some(a, p, depth) by {
        if above_some(b, p, depth) {
            let i = choose|i: int| 0 <= i < b.len() && dir_prefix_of(p, #[trigger] b[i], depth);
            assert(output[i] == input[from[i]]);
            assert(a[from[i]] == b[i]);
        }
        if above_some(a, p, depth) {
            let i = choose|i: int| 0 <= i < a.len() && dir_prefix_of(p, #[trigger] a[i], depth);
            assert(output[back[i]] == input[from[back[i]]]);
            assert(b[back[i]] == a[i]);
        }
    }
    assert forall|d: Seq<char>, n: Seq<char>, depth: nat| #[trigger]
        stored_some(b, d, n, depth) <==> stored_some(a, d, n, depth) by {
        if stored_some(b, d, n, depth) {
            let i = choose|i: int|
                0 <= i < b.len() && d == object_dir(#[trigger] b[i], depth) && n == object_name(
                    b[i],
                    depth,
                );
            assert(output[i] == input[from[i]]);
            assert(a[from[i]] == b[i]);
        }
        if stored_some(a, d, n, depth) {
            let i = choose|i: int|
                0 <= i < a.len() && d == object_dir(#[trigger] a[i], depth) && n == object_name(
                    a[i],
                    depth,
                );
            assert(output[back[i]] == input[from[back[i]]]);
            assert(b[back[i]] == a[i]);
        }
    }
}

/// Index round trip: every listing file that the snapshot of a tree names
/// is told by its key, and the tree has the page for it.
pub proof fn lemma_listing_keys_have_pages(
    index: Index,
    keys: Seq<Seq<char>>,
    depth: nat,
    key: Seq<char>,
    crumbs: Seq<Seq<char>>,
    generated_at: Seq<char>,
)
    requires
        is_index_of(index, keys, depth),
        is_listing_key(keys, depth, key),
    ensures
        is_listing(key),
        index.page_for(listing_dir(key), crumbs, LIST_URL@, generated_at) is Some,
{
    let p = choose|p: Seq<char>| #[trigger] listed_dir(keys, depth, p) && key == p + LIST_URL@;
    assert(index.has_dir(p));
    assert(key.skip(key.len() - LIST_URL@.len()) =~= LIST_URL@);
    assert(listing_dir(key) =~= p);
    crate::index_page::lemma_page_iff_dir(index, p, crumbs, LIST_URL@, generated_at);
}

/// The key of a listing file ends with the name of the listing file.
pub proof fn lemma_listing_key_is_listing(keys: Seq<Seq<char>>, depth: nat, key: Seq<char>)
    requires
        is_listing_key(keys, depth, key),
    ensures
        is_listing(key),
{
    let p = choose|p: Seq<char>| #[trigger] listed_dir(keys, depth, p) && key == p + LIST_URL@;
    assert(key.skip(key.len() - LIST_URL@.len()) =~= LIST_URL@);
}

/// What `own_items` keeps: exactly the items whose key is not that of a
/// listing file, and no key twice where the items had none twice.
pub proof fn lemma_own_items<S: Key>(inner: Seq<S>, keys: Seq<Seq<char>>, depth: nat)
    ensures
        own_items(inner, keys, depth).len() <= inner.len(),
        forall|x: int|
            0 <= x < own_items(inner, keys, depth).len() ==> inner.contains(
                #[trigger] own_items(inner, keys, depth)[x],
            ) && !is_listing_key(keys, depth, own_items(inner, keys, depth)[x].key_view()),
        forall|i: int|
            0 <= i < inner.len() && !is_listing_key(keys, depth, (#[trigger] inner[i]).key_view())
                ==> own_items(inner, keys, depth).contains(inner[i]),
        keys_of(inner).no_duplicates() ==> keys_of(own_items(inner, keys, depth)).no_duplicates(),
    decreases inner.len(),
{
    let own = own_items(inner, keys, depth);
    if inner.len() > 0 {
        let init = inner.drop_last();
        let rest = own_items(init, keys, depth);
        let last = inner.last();
        lemma_own_items(init, keys, depth);
        assert forall|x: int| 0 <= x < own.len() implies inner.contains(#[trigger] own[x])
            && !is_listing_key(keys, depth, own[x].key_view()) by {
            if x < rest.len() {
                assert(own[x] == rest[x]);
                assert(init.contains(rest[x]));
                let k = choose|k: int| 0 <= k < init.len() && init[k] == rest[x];
                assert(inner[k] == own[x]);
            } else {
                assert(own[x] == last);
                assert(inner[inner.len() - 1] == last);
            }
        }
        assert forall|i: int|
            0 <= i < inner.len() && !is_listing_key(
                keys,
                depth,
                (#[trigger] inner[i]).key_view(),
            ) implies own.contains(inner[i]) by {
            if i < init.len() {
                assert(init[i] == inner[i]);
                assert(rest.contains(init[i]));
                let x = choose|x: int| 0 <= x < rest.len() && rest[x] == init[i];
                assert(own[x] == inner[i]);
            } else {
                assert(own[own.len() - 1] == inner[i]);
            }
        }
        if keys_of(inner).no_duplicates() {
            let all = keys_of(inner);
            assert forall|a: int, b: int| 0 <= a < b < init.len() implies keys_of(init)[a]
                != keys_of(init)[b] by {
                assert(all[a] != all[b]);
            }
            let ks = keys_of(own);
            assert forall|a: int, b: int| 0 <= a < b < ks.len() implies ks[a] != ks[b] by {
                if b < rest.len() {
                    assert(keys_of(rest)[a] != keys_of(rest)[b]);
                } else {
                    assert(own[b] == last);
                    assert(init.contains(rest[a]));
                    let k = choose|k: int| 0 <= k < init.len() && init[k] == rest[a];
                    assert(all[k] == own[a].key_view());
                    assert(all[inner.len() - 1] == last.key_view());
                }
            }
        }
    }
}

/// Index round trip: the keys of the pipe's snapshot are the keys of the
/// wrapped source and the keys of the listing files, and no others; no key
/// stands twice in the snapshot where the source gave none twice; and an
/// item under the key of a listing file is never the source's.
pub proof fn lemma_snapshot_keys<S: Key>(inner: Seq<S>, depth: nat, items: Seq<S>)
    requires
        is_index_snapshot(inner, depth, items),
    ensures
        forall|key: Seq<char>| #[trigger]
            keys_of(items).contains(key) <==> keys_of(inner).contains(key) || is_listing_key(
                keys_of(inner),
                depth,
                key,
            ),
        keys_of(inner).no_duplicates() ==> keys_of(items).no_duplicates(),
        forall|i: int|
            0 <= i < items.len() && is_listing_key(
                keys_of(inner),
                depth,
                (#[trigger] items[i]).key_view(),
            ) ==> i >= own_items(inner, keys_of(inner), depth).len(),
{
    let keys = keys_of(inner);
    let own = own_items(inner, keys, depth);
    let n = own.len() as int;
    let tail = keys_of(items.skip(n));
    let all = keys_of(items);
    lemma_own_items(inner, keys, depth);
    assert forall|i: int| 0 <= i < n implies items[i] == own[i] by {
        assert(items.take(n)[i] == items[i]);
    }
    assert forall|j: int| 0 <= j < tail.len() implies all[n + j] == tail[j] by {
        assert(items.skip(n)[j] == items[n + j]);
    }
    assert forall|key: Seq<char>| #[trigger]
        all.contains(key) <==> keys.contains(key) || is_listing_key(keys, depth, key) by {
        if all.contains(key) {
            let i = choose|i: int| 0 <= i < all.len() && all[i] == key;
            if i < n {
                assert(inner.contains(own[i]));
                let k = choose|k: int| 0 <= k < inner.len() && inner[k] == own[i];
                assert(keys[k] == key);
            } else {
                assert(tail[i - n] == key);
                assert(tail.contains(key));
            }
        }
        if is_listing_key(keys, depth, key) {
            assert(tail.contains(key));
            let j = choose|j: int| 0 <= j < tail.len() && tail[j] == key;
            assert(all[n + j] == key);
        } else if keys.contains(key) {
            let k = choose|k: int| 0 <= k < keys.len() && keys[k] == key;
            assert(inner[k].key_view() == key);
            assert(own.contains(inner[k]));
            let x = choose|x: int| 0 <= x < own.len() && own[x] == inner[k];
            assert(all[x] == key);
        }
    }
    assert forall|i: int|
        0 <= i < items.len() && is_listing_key(
            keys,
            depth,
            (#[trigger] items[i]).key_view(),
        ) implies i >= n by {
        if i < n {
            assert(!is_listing_key(keys, depth, own[i].key_view()));
        }
    }
    if keys.no_duplicates() {
        assert forall|i: int, j: int| 0 <= i < j < all.len() implies all[i] != all[j] by {
            if j < n {
                assert(keys_of(own)[i] != keys_of(own)[j]);
            } else if i >= n {
                assert(tail[i - n] != tail[j - n]);
            } else {
                assert(tail.contains(tail[j - n]));
                assert(!is_listing_key(keys, depth, own[i].key_view()));
            }
        }
    }
}

/// Whether a key ends with the name of the listing file.
pub fn is_listing_file(key: &str) -> (r: bool)
    ensures
        r == is_listing(key@),
{
    let chars = to_chars(key);
    let list = to_chars(LIST_URL);
    let n: usize = chars.len();
    let m: usize = list.len();
    if n < m {
        return false;
    }
    proof {
        assert(key@.skip(n - m).len() == m);
    }
    let r = matches_at(&chars, n - m, &list);
    proof {
        if r {
            assert(key@.skip(n - m) =~= LIST_URL@);
        }
    }
    r
}

/// Whether `key` is among `keys`.
fn holds(keys: &Vec<String>, key: &str) -> (r: bool)
    ensures
        r == views(keys@).contains(key@),
{
    let n: usize = keys.len();
    let mut i: usize = 0;
    while i < n
        invariant
            i <= n,
            n == keys@.len(),
            forall|k: int| 0 <= k < i ==> views(keys@)[k] != key@,
        decreases n - i,
    {
        if same_text(keys[i].as_str(), key) {
            proof {
                assert(views(keys@)[i as int] == key@);
            }
            return true;
        }
        i += 1;
    }
    false
}

/// Leaves out the items whose key is that of a listing file: the pipe
/// makes those itself.
fn without_listings<S: Key>(
    inner: Vec<S>,
    listings: &Vec<String>,
    Ghost(keys): Ghost<Seq<Seq<char>>>,
    Ghost(depth): Ghost<nat>,
) -> (own: Vec<S>)
    requires
        forall|key: Seq<char>| #[trigger]
            views(listings@).contains(key) <==> is_listing_key(keys, depth, key),
    ensures
        own@ == own_items(inner@, keys, depth),
{
    let ghost all = inner@;
    let mut own: Vec<S> = Vec::new();
    proof {
        assert(all.take(0) =~= Seq::<S>::empty());
    }
    for item in it: inner
        invariant
            it.seq() == all,
            own@ == own_items(all.take(it.index() as int), keys, depth),
            forall|key: Seq<char>| #[trigger]
                views(listings@).contains(key) <==> is_listing_key(keys, depth, key),
    {
        let ghost i = it.index() as int;
        proof {
            assert(all.take(i + 1).drop_last() =~= all.take(i));
            assert(all.take(i + 1).last() == item);
            if is_listing_key(keys, depth, item.key_view()) {
                lemma_listing_key_is_listing(keys, depth, item.key_view());
            }
        }
        let listed = is_listing_file(item.key()) && holds(listings, item.key());
        if !listed {
            own.push(item);
        }
    }
    proof {
        assert(all.take(all.len() as int) =~= all);
    }
    own
}

impl<Source> IndexPipe<Source> {
    pub fn new(source: Source, buffer_path: String, base_path: String, max_depth: usize) -> (pipe:
        Self)
        ensures
            pipe.source == source,
            pipe.buffer_path == buffer_path,
            pipe.base_path == base_path,
            pipe.max_depth == max_depth,
            pipe.index.wf(),
            pipe.index.prefixes@.len() == 0,
            pipe.index.objects@.len() == 0,
    {
        IndexPipe { source, index: Index::new(), buffer_path, base_path, max_depth }
    }

    /// Builds the index over the keys of a snapshot and returns the keys of
    /// the listing files: one for the root and one for every directory above
    /// a key, down to `max_depth` levels. Keys given more than once count
    /// once.
    pub fn snapshot_index_keys(&mut self, snapshot: Vec<String>) -> (keys: Vec<String>)
        ensures
            final(self).source == old(self).source,
            final(self).buffer_path == old(self).buffer_path,
            final(self).base_path == old(self).base_path,
            final(self).max_depth == old(self).max_depth,
            is_index_of(final(self).index, views(snapshot@), old(self).max_depth as nat),
            views(keys@) == final(self).index.spec_snapshot(Seq::<char>::empty(), LIST_URL@),
            views(keys@).no_duplicates(),
            forall|key: Seq<char>| #[trigger]
                views(keys@).contains(key) <==> is_listing_key(
                    views(snapshot@),
                    old(self).max_depth as nat,
                    key,
                ),
    {
        let ghost input = snapshot@;
        let ghost depth = self.max_depth as nat;
        let sorted = stable_sort(snapshot, &ByText);
        self.index = generate_index(sorted.as_slice(), self.max_depth);
        let keys = self.index.snapshot("", LIST_URL);
        proof {
            reveal_strlit("");
            assert(""@ =~= Seq::<char>::empty());
            lemma_sorted_members(input, sorted@);
            lemma_snapshot_lists_dirs(self.index, Seq::<char>::empty(), LIST_URL@);
            lemma_snapshot_distinct(self.index, Seq::<char>::empty(), LIST_URL@);
            assert forall|key: Seq<char>| #[trigger]
                views(keys@).contains(key) <==> is_listing_key(views(input), depth, key) by {
                if views(keys@).contains(key) {
                    let p = choose|p: Seq<char>| #[trigger]
                        self.index.has_dir(p) && key == Seq::<char>::empty() + p + LIST_URL@;
                    assert(key =~= p + LIST_URL@);
                    assert(listed_dir(views(input), depth, p));
                }
                if is_listing_key(views(input), depth, key) {
                    let p = choose|p: Seq<char>| #[trigger]
                        listed_dir(views(input), depth, p) && key == p + LIST_URL@;
                    assert(self.index.has_dir(p));
                    assert(key =~= Seq::<char>::empty() + p + LIST_URL@);
                    assert(lists(self.index, Seq::<char>::empty(), LIST_URL@, key));
                }
            }
        }
        keys
    }

    /// The snapshot of the pipe: the items of the wrapped source as they
    /// are, and after them one item for each listing file, always
    /// transferred and last. An item of the source under the key of a
    /// listing file gives way to the pipe's own, so that no key stands twice
    /// where the source gave none twice. The index over the keys is kept for
    /// the pages.
    pub fn snapshot(&mut self, inner: Vec<SnapshotMeta>) -> (items: Vec<SnapshotMeta>)
        ensures
            final(self).source == old(self).source,
            final(self).buffer_path == old(self).buffer_path,
            final(self).base_path == old(self).base_path,
            final(self).max_depth == old(self).max_depth,
            is_index_of(final(self).index, keys_of(inner@), old(self).max_depth as nat),
            is_index_snapshot(inner@, old(self).max_depth as nat, items@),
            forall|i: int|
                0 <= i < items@.len() && is_listing_key(
                    keys_of(inner@),
                    old(self).max_depth as nat,
                    (#[trigger] items@[i]).key_view(),
                ) ==> (items@[i]@ == (MetaView {
                    key: items@[i].key@,
                    size: None,
                    last_modified: None,
                    checksum_method: None,
                    checksum: None,
                    force: true,
                    force_last: true,
                })),
            forall|key: Seq<char>| #[trigger]
                keys_of(items@).contains(key) <==> keys_of(inner@).contains(key)
                    || is_listing_key(keys_of(inner@), old(self).max_depth as nat, key),
            keys_of(inner@).no_duplicates() ==> keys_of(items@).no_duplicates(),
    {
        let ghost source = inner@;
        let ghost depth = self.max_depth as nat;
        let mut keys: Vec<String> = Vec::new();
        let total: usize = inner.len();
        let mut i: usize = 0;
        while i < total
            invariant
                i <= total,
                total == inner@.len(),
                keys@.len() == i,
                forall|k: int| 0 <= k < i ==> (#[trigger] keys@[k])@ == inner@[k].key_view(),
            decreases total - i,
        {
            keys.push(String::from_str(inner[i].key()));
            i += 1;
        }
        proof {
            assert(views(keys@) =~= keys_of(inner@));
        }
        let index_keys = self.snapshot_index_keys(keys);
        let ghost listed = views(index_keys@);
        let mut items = without_listings(inner, &index_keys, Ghost(keys_of(source)), Ghost(depth));
        let ghost own = items@;
        let n: usize = items.len();
        proof {
            assert(items@.take(n as int) =~= own);
            assert(keys_of(items@.skip(n as int)) =~= listed.take(0));
        }
        for key in it: index_keys
            invariant
                it.seq() == index_keys@,
                listed == views(index_keys@),
                n == own.len(),
                items@.len() == n + it.index(),
                items@.take(n as int) == own,
                keys_of(items@.skip(n as int)) == listed.take(it.index() as int),
                forall|k: int| n <= k < items@.len() ==> ((#[trigger] items@[k])@ == (MetaView {
                        key: items@[k].key@,
                        size: None,
                        last_modified: None,
                        checksum_method: None,
                        checksum: None,
                        force: true,
                        force_last: true,
                    })),
        {
            let ghost before = items@;
            let ghost at = it.index() as int;
            items.push(SnapshotMeta::force(key));
            proof {
                assert(items@.take(n as int) =~= before.take(n as int));
                assert(listed[at] == key@);
                assert(keys_of(items@.skip(n as int)) =~= keys_of(before.skip(n as int)).push(
                    key@,
                ));
                assert(listed.take(at + 1) =~= listed.take(at).push(key@));
            }
        }
        proof {
            assert(listed.take(listed.len() as int) =~= listed);
            assert(is_index_snapshot(source, depth, items@));
            lemma_snapshot_keys(source, depth, items@);
        }
        items
    }

    /// The snapshot of the pipe where items are keys only: the items of the
    /// wrapped source as they are, and after them one forced item for each
    /// listing file. An item of the source under the key of a listing file
    /// gives way to the pipe's own. The index over the keys is kept for the
    /// pages.
    pub fn snapshot_paths(&mut self, inner: Vec<SnapshotPath>) -> (items: Vec<SnapshotPath>)
        ensures
            final(self).source == old(self).source,
            final(self).buffer_path == old(self).buffer_path,
            final(self).base_path == old(self).base_path,
            final(self).max_depth == old(self).max_depth,
            is_index_of(final(self).index, keys_of(inner@), old(self).max_depth as nat),
            is_index_snapshot(inner@, old(self).max_depth as nat, items@),
            forall|i: int|
                0 <= i < items@.len() && is_listing_key(
                    keys_of(inner@),
                    old(self).max_depth as nat,
                    (#[trigger] items@[i]).key_view(),
                ) ==> items@[i].1,
            forall|key: Seq<char>| #[trigger]
                keys_of(items@).contains(key) <==> keys_of(inner@).contains(key)
                    || is_listing_key(keys_of(inner@), old(self).max_depth as nat, key),
            keys_of(inner@).no_duplicates() ==> keys_of(items@).no_duplicates(),
    {
        let ghost source = inner@;
        let ghost depth = self.max_depth as nat;
        let mut keys: Vec<String> = Vec::new();
        let total: usize = inner.len();
        let mut i: usize = 0;
        while i < total
            invariant
                i <= total,
                total == inner@.len(),
                keys@.len() == i,
                forall|k: int| 0 <= k < i ==> (#[trigger] keys@[k])@ == inner@[k].key_view(),
            decreases total - i,
        {
            keys.push(String::from_str(inner[i].key()));
            i += 1;
        }
        proof {
            assert(views(keys@) =~= keys_of(inner@));
        }
        let index_keys = self.snapshot_index_keys(keys);
        let ghost listed = views(index_keys@);
        let mut items = without_listings(inner, &index_keys, Ghost(keys_of(source)), Ghost(depth));
        let ghost own = items@;
        let n: usize = items.len();
        proof {
            assert(items@.take(n as int) =~= own);
            assert(keys_of(items@.skip(n as int)) =~= listed.take(0));
        }
        for key in it: index_keys
            invariant
                it.seq() == index_keys@,
                listed == views(index_keys@),
                n == own.len(),
                items@.len() == n + it.index(),
                items@.take(n as int) == own,
                keys_of(items@.skip(n as int)) == listed.take(it.index() as int),
                forall|k: int| n <= k < items@.len() ==> (#[trigger] items@[k]).1,
        {
            let ghost before = items@;
            let ghost at = it.index() as int;
            items.push(SnapshotPath::force(key));
            proof {
                assert(items@.take(n as int) =~= before.take(n as int));
                assert(listed[at] == key@);
                assert(keys_of(items@.skip(n as int)) =~= keys_of(before.skip(n as int)).push(
                    key@,
                ));
                assert(listed.take(at + 1) =~= listed.take(at).push(key@));
            }
        }
        proof {
            assert(listed.take(listed.len() as int) =~= listed);
            assert(is_index_snapshot(source, depth, items@));
            lemma_snapshot_keys(source, depth, items@);
        }
        items
    }

    /// Says whether the object of `key` is a listing page, and renders it if
    /// so. The page shows `generated_at` as the time at which it was made.
    /// Its object is an HTML text of the page's length in bytes, last
    /// changed at `now`, in seconds since the epoch; its scratch file is
    /// named, like that of any object, by the hash of the key and the
    /// moment `asked_at`, in nanoseconds since the epoch.
    pub fn route(&self, key: &str, generated_at: &str, now: u64, asked_at: u64) -> (r: IndexRoute)
        requires
            self.index.wf(),
        ensures
            !is_listing(key@) ==> r is Delegate,
            is_listing(key@) ==> match self.index.page_for(
                listing_dir(key@),
                seq![self.base_path@],
                LIST_URL@,
                generated_at@,
            ) {
                Some(page) => r matches IndexRoute::Listing { content, object } && content@ == page
                    && object.path@ == buffer_file(
                    self.buffer_path@,
                    hex_number(hash_of(key@) as nat),
                    asked_at as nat,
                ) && object.length == encode_utf8(page).len() && object.modified_at == now
                    && object.content_type.deep_view() == Some(LIST_CONTENT_TYPE@),
                None => r is NoSuchDirectory,
            },
    {
        let chars = to_chars(key);
        let list = to_chars(LIST_URL);
        let n: usize = chars.len();
        let m: usize = list.len();
        if n < m {
            return IndexRoute::Delegate;
        }
        let mut i: usize = 0;
        while i < m
            invariant
                i <= m <= n,
                n == chars@.len(),
                m == list@.len(),
                chars@ == key@,
                list@ == LIST_URL@,
                forall|j: int| 0 <= j < i ==> chars@[n - m + j] == list@[j],
            decreases m - i,
        {
            if chars[n - m + i] != list[i] {
                proof {
                    assert(key@.skip(n - m)[i as int] == chars@[n - m + i]);
                }
                return IndexRoute::Delegate;
            }
            i += 1;
        }
        proof {
            assert(key@.skip(n - m) =~= LIST_URL@);
        }
        let prefix = from_chars(chars.as_slice(), 0, n - m);
        let mut crumbs: Vec<String> = Vec::new();
        crumbs.push(self.base_path.clone());
        proof {
            assert(views(crumbs@) =~= seq![self.base_path@]);
            assert(prefix@ =~= listing_dir(key@));
        }
        let page = self.index.index_for(prefix.as_str(), &crumbs, LIST_URL, generated_at);
        match page {
            Some(content) => {
                let length = content.as_str().as_bytes().len();
                let hash = hash_string(key);
                let object = ByteStream {
                    path: buffer_file_path(self.buffer_path.as_str(), hash.as_str(), asked_at),
                    length: length as u64,
                    modified_at: now,
                    content_type: Some(String::from_str(LIST_CONTENT_TYPE)),
                };
                IndexRoute::Listing { content, object }
            },
            None => IndexRoute::NoSuchDirectory,
        }
    }
}

} // verus!
