//! Several sources under one roof, each under a key prefix of its own.

use vstd::prelude::*;
use crate::error::Error;
use crate::text::{from_chars, to_chars};
use crate::traits::Key;

verus! {

/// Two sources as one: the keys of the first stand under `prefix`, those of
/// the second stand as they are. Longer chains nest in the second place and
/// end in `NilPipe`.
pub struct MergePipe<Source1, Source2> {
    pub prefix: String,
    pub s1: Source1,
    pub s2: Source2,
}

/// The end of a chain of merged sources: it has no items and no objects.
pub struct NilPipe;

/// The prefix that stands for the name `name`: the name, closed by a slash
/// unless it ends with one.
pub open spec fn prefix_of_name(name: Seq<char>) -> Seq<char> {
    if name.len() > 0 && name.last() == '/' {
        name
    } else {
        name + seq!['/']
    }
}

/// `b` is `a` under the key `key`: its key is `key`, and it is the same
/// item otherwise.
pub open spec fn rekeyed<S: Key>(a: S, b: S, key: Seq<char>) -> bool {
    b.key_view() == key && exists|k: String| k@ == key && b == #[trigger] a.with_key(k)
}

/// Which of the two sources an item belongs to.
pub enum MergeRoute<S> {
    /// The first source, which knows the item under this key.
    First(S),
    /// The second source, which knows the item as it is.
    Second(S),
}

/// Whether `chars[..]` starts with `prefix[..]`.
pub fn starts_with_chars(chars: &Vec<char>, prefix: &Vec<char>) -> (r: bool)
    ensures
        r == prefix@.is_prefix_of(chars@),
{
    let n: usize = prefix.len();
    if chars.len() < n {
        return false;
    }
    let mut i: usize = 0;
    while i < n
        invariant
            i <= n,
            n == prefix@.len(),
            n <= chars@.len(),
            forall|j: int| 0 <= j < i ==> chars@[j] == prefix@[j],
        decreases n - i,
    {
        if chars[i] != prefix[i] {
            return false;
        }
        i += 1;
    }
    proof {
        assert(chars@.subrange(0, n as int) =~= prefix@);
    }
    true
}

impl<Source1, Source2> MergePipe<Source1, Source2> {
    pub fn new(prefix: &str, s1: Source1, s2: Source2) -> (pipe: Self)
        ensures
            pipe.prefix@ == prefix_of_name(prefix@),
            pipe.s1 == s1,
            pipe.s2 == s2,
    {
        let chars = to_chars(prefix);
        let n: usize = chars.len();
        let mut owned = String::from_str(prefix);
        if n == 0 || chars[n - 1] != '/' {
            owned.push('/');
        }
        MergePipe { prefix: owned, s1, s2 }
    }

    /// The snapshot of the two sources together: the items of the first,
    /// each key with the prefix before it, then the items of the second.
    pub fn snapshot<S: Key>(&self, first: Vec<S>, second: Vec<S>) -> (merged: Vec<S>)
        ensures
            merged@.len() == first@.len() + second@.len(),
            forall|i: int|
                0 <= i < first@.len() ==> rekeyed(
                    first@[i],
                    #[trigger] merged@[i],
                    self.prefix@ + first@[i].key_view(),
                ),
            forall|i: int|
                0 <= i < second@.len() ==> #[trigger] merged@[first@.len() + i] == second@[i],
    {
        let ghost f = first@;
        let ghost s = second@;
        let mut merged: Vec<S> = Vec::new();
        for item in it: first
            invariant
                it.seq() == f,
                merged@.len() == it.index(),
                forall|i: int|
                    0 <= i < merged@.len() ==> rekeyed(
                        f[i],
                        #[trigger] merged@[i],
                        self.prefix@ + f[i].key_view(),
                    ),
        {
            let mut item = item;
            let ghost before = item;
            let mut key = self.prefix.clone();
            key.append(item.key());
            let ghost wanted = key;
            let slot = item.key_mut();
            *slot = key;
            proof {
                assert(item == before.with_key(wanted));
            }
            merged.push(item);
        }
        let mut tail = second;
        merged.append(&mut tail);
        merged
    }

    /// Sends an item to the source that it belongs to: to the first, without
    /// the prefix, if its key starts with the prefix, and else to the second.
    pub fn route<S: Key>(&self, snapshot: S) -> (r: MergeRoute<S>)
        ensures
            self.prefix@.is_prefix_of(snapshot.key_view()) ==> (r matches MergeRoute::First(item)
                && rekeyed(snapshot, item, snapshot.key_view().skip(self.prefix@.len() as int))),
            !self.prefix@.is_prefix_of(snapshot.key_view()) ==> (r matches MergeRoute::Second(item)
                && item == snapshot),
    {
        let chars = to_chars(snapshot.key());
        let prefix = to_chars(self.prefix.as_str());
        if starts_with_chars(&chars, &prefix) {
            let key = from_chars(chars.as_slice(), prefix.len(), chars.len());
            let mut item = snapshot;
            let ghost wanted = key;
            let slot = item.key_mut();
            *slot = key;
            proof {
                assert(item == snapshot.with_key(wanted));
            }
            MergeRoute::First(item)
        } else {
            MergeRoute::Second(snapshot)
        }
    }
}

impl NilPipe {
    /// The chain ends here: there is nothing to list.
    pub fn snapshot<S>(&self) -> (items: Vec<S>)
        ensures
            items@.len() == 0,
    {
        Vec::new()
    }

    /// The chain ends here: no source stands for the key.
    pub fn get_object<S>(&self, snapshot: &S) -> (r: Result<(), Error>)
        ensures
            r matches Err(e) && e is UnexpectedPrefix,
    {
        Err(Error::UnexpectedPrefix)
    }
}

/// What a chain of merged sources answers for a key: the number of the
/// first source whose prefix the key starts with, and the key without that
/// prefix; or the error of the chain's end, if there is none.
pub open spec fn is_dispatch_of(
    prefixes: Seq<String>,
    key: Seq<char>,
    r: Result<(usize, String), Error>,
) -> bool {
    match r {
        Ok((i, rest)) => {
            &&& i < prefixes.len()
            &&& prefixes[i as int]@.is_prefix_of(key)
            &&& forall|j: int| 0 <= j < i ==> !(#[trigger] prefixes[j])@.is_prefix_of(key)
            &&& rest@ == key.skip(prefixes[i as int]@.len() as int)
        },
        Err(e) => {
            &&& e is UnexpectedPrefix
            &&& forall|j: int| 0 <= j < prefixes.len() ==> !(#[trigger] prefixes[j])@.is_prefix_of(key)
        },
    }
}

/// Where a chain of merged sources sends a key.
pub fn dispatch(prefixes: &Vec<String>, key: &str) -> (r: Result<(usize, String), Error>)
    ensures
        is_dispatch_of(prefixes@, key@, r),
{
    let chars = to_chars(key);
    let n: usize = prefixes.len();
    let mut i: usize = 0;
    while i < n
        invariant
            i <= n,
            n == prefixes@.len(),
            chars@ == key@,
            forall|j: int| 0 <= j < i ==> !(#[trigger] prefixes@[j])@.is_prefix_of(key@),
        decreases n - i,
    {
        let prefix = to_chars(prefixes[i].as_str());
        if starts_with_chars(&chars, &prefix) {
            let rest = from_chars(chars.as_slice(), prefix.len(), chars.len());
            return Ok((i, rest));
        }
        i += 1;
    }
    Err(Error::UnexpectedPrefix)
}

/// Merge routing: a key that starts with the prefix of exactly one source
/// of the chain goes to that source, without the prefix.
pub proof fn lemma_dispatch_unique(
    prefixes: Seq<String>,
    key: Seq<char>,
    r: Result<(usize, String), Error>,
    p: int,
)
    requires
        is_dispatch_of(prefixes, key, r),
        0 <= p < prefixes.len(),
        prefixes[p]@.is_prefix_of(key),
        forall|j: int|
            0 <= j < prefixes.len() && j != p ==> !(#[trigger] prefixes[j])@.is_prefix_of(key),
    ensures
        r matches Ok((i, rest)) && i == p && prefixes[p]@ + rest@ == key,
{
    match r {
        Ok((i, rest)) => {
            assert(i == p);
            assert(prefixes[p]@ + rest@ =~= key);
        },
        Err(_) => {},
    }
}

/// A key that starts with no prefix of the chain is refused.
pub proof fn lemma_dispatch_refuses(
    prefixes: Seq<String>,
    key: Seq<char>,
    r: Result<(usize, String), Error>,
)
    requires
        is_dispatch_of(prefixes, key, r),
        forall|j: int| 0 <= j < prefixes.len() ==> !(#[trigger] prefixes[j])@.is_prefix_of(key),
    ensures
        r matches Err(e) && e is UnexpectedPrefix,
{
}

} // verus!
