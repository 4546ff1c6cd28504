//! The file-system target: a tree of files under a base directory, the
//! keys being the paths below it.

use vstd::prelude::*;
use crate::metadata::{MetaView, SnapshotMeta, SnapshotMetaFlag};
use crate::text::{join_slash, slash_joined, to_chars};
use crate::traits::Key;

verus! {

/// Where the tree lies.
#[derive(Debug)]
pub struct FileBackend {
    pub base_path: String,
}

/// `path` with every backslash turned into a slash.
pub open spec fn normalized(path: Seq<char>) -> Seq<char> {
    path.map_values(
        |c: char|
            if c == '\\' {
                '/'
            } else {
                c
            },
    )
}

impl FileBackend {
    pub fn new(base_path: String) -> (backend: Self)
        ensures
            backend.base_path == base_path,
    {
        FileBackend { base_path }
    }

    /// The item for a file found below the base: its path with slashes
    /// between the components, its size and its time.
    pub fn snapshot_item(&self, relative_path: &str, size: u64, modified: u64) -> (item:
        SnapshotMeta)
        ensures
            item@ == (MetaView {
                key: normalized(relative_path@),
                size: Some(size),
                last_modified: Some(modified),
                checksum_method: None,
                checksum: None,
                force: false,
                force_last: false,
            }),
    {
        let chars = to_chars(relative_path);
        let mut key = String::new();
        let n: usize = chars.len();
        let mut i: usize = 0;
        while i < n
            invariant
                i <= n,
                n == chars@.len(),
                chars@ == relative_path@,
                key@ == normalized(relative_path@.take(i as int)),
            decreases n - i,
        {
            let c = chars[i];
            key.push(if c == '\\' {
                '/'
            } else {
                c
            });
            proof {
                assert(normalized(relative_path@.take(i + 1)) =~= normalized(
                    relative_path@.take(i as int),
                ).push(
                    if c == '\\' {
                        '/'
                    } else {
                        c
                    },
                ));
            }
            i += 1;
        }
        proof {
            assert(relative_path@.take(n as int) =~= relative_path@);
        }
        SnapshotMeta {
            key,
            size: Some(size),
            last_modified: Some(modified),
            checksum_method: None,
            checksum: None,
            flags: SnapshotMetaFlag { force: false, force_last: false },
        }
    }

    /// The file in which the object of an item lies, or is to lie.
    pub fn target_path<S: Key>(&self, snapshot: &S) -> (path: String)
        ensures
            path@ == slash_joined(self.base_path@, snapshot.key_view()),
    {
        join_slash(self.base_path.as_str(), snapshot.key())
    }
}

} // verus!
