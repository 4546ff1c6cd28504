//! The pipe that leaves out the items whose key matches a pattern.

use vstd::prelude::*;
use crate::error::Error;
use crate::pattern::{regex_set_match_of, set_matches};
use crate::traits::Key;

verus! {

/// A source without the items that one of the patterns excludes.
pub struct FilterPipe<Source> {
    pub source: Source,
    /// Regular expressions; a key that one of them matches is left out.
    pub exclude_patterns: Vec<String>,
}

/// The items of `items` that `excluded` does not mark, in their order.
pub open spec fn kept<S>(items: Seq<S>, excluded: Seq<bool>) -> Seq<S>
    decreases items.len(),
{
    if items.len() == 0 || excluded.len() != items.len() {
        Seq::empty()
    } else {
        let rest = kept(items.drop_last(), excluded.drop_last());
        if excluded.last() {
            rest
        } else {
            rest.push(items.last())
        }
    }
}

/// Leaves out the items that are marked.
pub fn keep_unmarked<S>(items: Vec<S>, excluded: &Vec<bool>) -> (r: Vec<S>)
    requires
        excluded@.len() == items@.len(),
    ensures
        r@ == kept(items@, excluded@),
{
    let ghost all = items@;
    let mut r: Vec<S> = Vec::new();
    let mut at: usize = 0;
    let n: usize = excluded.len();
    proof {
        assert(all.take(0) =~= Seq::<S>::empty());
    }
    for item in it: items
        invariant
            it.seq() == all,
            at == it.index(),
            n == all.len(),
            excluded@.len() == all.len(),
            r@ == kept(all.take(it.index() as int), excluded@.take(it.index() as int)),
    {
        let ghost i = it.index() as int;
        proof {
            assert(all.take(i + 1).drop_last() =~= all.take(i));
            assert(excluded@.take(i + 1).drop_last() =~= excluded@.take(i));
            assert(all.take(i + 1).last() == item);
            assert(excluded@.take(i + 1).last() == excluded@[i]);
        }
        if !excluded[at] {
            r.push(item);
        }
        at += 1;
    }
    proof {
        assert(all.take(all.len() as int) =~= all);
        assert(excluded@.take(all.len() as int) =~= excluded@);
    }
    r
}

impl<Source> FilterPipe<Source> {
    pub fn new(source: Source, exclude_patterns: Vec<String>) -> (pipe: Self)
        ensures
            pipe.source == source,
            pipe.exclude_patterns == exclude_patterns,
    {
        FilterPipe { source, exclude_patterns }
    }

    /// Whether the patterns exclude `key`; an error where a pattern is not
    /// a regular expression.
    pub fn excludes(&self, key: &str) -> (r: Result<bool, Error>)
        ensures
            match regex_set_match_of(self.exclude_patterns.deep_view(), key@) {
                Some(matched) => r == Ok::<bool, Error>(matched),
                None => r matches Err(e) && e is ConfigureError,
            },
    {
        match set_matches(&self.exclude_patterns, key) {
            Some(matched) => Ok(matched),
            None => Err(Error::ConfigureError(String::from_str("invalid exclude pattern"))),
        }
    }

    /// The snapshot of the wrapped source without the excluded items. The
    /// same key is excluded or kept whenever it is asked for.
    pub fn snapshot<S: Key>(&self, inner: Vec<S>) -> (r: Result<Vec<S>, Error>)
        ensures
            match r {
                Ok(items) => exists|excluded: Seq<bool>|
                    {
                        &&& excluded.len() == inner@.len()
                        &&& forall|i: int|
                            0 <= i < inner@.len() ==> Some(#[trigger] excluded[i])
                                == regex_set_match_of(
                                self.exclude_patterns.deep_view(),
                                inner@[i].key_view(),
                            )
                        &&& items@ == #[trigger] kept(inner@, excluded)
                    },
                Err(e) => e is ConfigureError && exists|i: int|
                    0 <= i < inner@.len() && regex_set_match_of(
                        self.exclude_patterns.deep_view(),
                        (#[trigger] inner@[i]).key_view(),
                    ) is None,
            },
    {
        let mut excluded: Vec<bool> = Vec::new();
        let n: usize = inner.len();
        let mut i: usize = 0;
        while i < n
            invariant
                i <= n,
                n == inner@.len(),
                excluded@.len() == i,
                forall|j: int|
                    0 <= j < i ==> Some(#[trigger] excluded@[j]) == regex_set_match_of(
                        self.exclude_patterns.deep_view(),
                        inner@[j].key_view(),
                    ),
            decreases n - i,
        {
            match self.excludes(inner[i].key()) {
                Ok(matched) => {
                    excluded.push(matched);
                },
                Err(e) => {
                    return Err(e);
                },
            }
            i += 1;
        }
        let items = keep_unmarked(inner, &excluded);
        Ok(items)
    }
}

} // verus!
