//! The files of the Haskell language server that the metadata names.

use vstd::prelude::*;
use super::parser::{distinct, GhcupYamlParser};
use crate::common::TransferURL;
use crate::index_pipe::views;
use crate::metadata::{MetaView, SnapshotMeta};
use crate::text::{join_slash, slash_joined, strip_prefix};

verus! {

/// Where the metadata comes from.
#[derive(Debug)]
pub struct GhcupHLS {
    pub ghcup_base: String,
}

pub const HLS_RELEASES: &'static str = "https://github.com/haskell/haskell-language-server/releases/download";

pub const HLS_RELEASES_SLASH: &'static str = "https://github.com/haskell/haskell-language-server/releases/download/";

/// The keys of the addresses that start with `prefix`: what follows it.
pub open spec fn keys_under(uris: Seq<Seq<char>>, prefix: Seq<char>) -> Seq<Seq<char>>
    decreases uris.len(),
{
    if uris.len() == 0 {
        Seq::empty()
    } else {
        let rest = keys_under(uris.drop_last(), prefix);
        if prefix.is_prefix_of(uris.last()) {
            rest.push(uris.last().skip(prefix.len() as int))
        } else {
            rest
        }
    }
}

/// One item for each address that starts with `prefix`, under what follows
/// the prefix.
pub fn items_under(uris: &Vec<String>, prefix: &str) -> (items: Vec<SnapshotMeta>)
    ensures
        items@.map_values(|item: SnapshotMeta| item@.key) == keys_under(views(uris@), prefix@),
        forall|i: int|
            0 <= i < items@.len() ==> (#[trigger] items@[i])@ == (MetaView {
                key: items@[i].key@,
                size: None,
                last_modified: None,
                checksum_method: None,
                checksum: None,
                force: false,
                force_last: false,
            }),
{
    let mut items: Vec<SnapshotMeta> = Vec::new();
    let n: usize = uris.len();
    let mut i: usize = 0;
    proof {
        assert(views(uris@).take(0) =~= Seq::<Seq<char>>::empty());
        assert(items@.map_values(|item: SnapshotMeta| item@.key) =~= Seq::<Seq<char>>::empty());
    }
    while i < n
        invariant
            i <= n,
            n == uris@.len(),
            items@.map_values(|item: SnapshotMeta| item@.key) == keys_under(
                views(uris@).take(i as int),
                prefix@,
            ),
            forall|k: int|
                0 <= k < items@.len() ==> (#[trigger] items@[k])@ == (MetaView {
                    key: items@[k].key@,
                    size: None,
                    last_modified: None,
                    checksum_method: None,
                    checksum: None,
                    force: false,
                    force_last: false,
                }),
        decreases n - i,
    {
        let ghost before = items@;
        proof {
            assert(views(uris@).take(i + 1).drop_last() =~= views(uris@).take(i as int));
            assert(views(uris@).take(i + 1).last() == uris@[i as int]@);
        }
        match strip_prefix(uris[i].as_str(), prefix) {
            Some(key) => {
                let item = SnapshotMeta::new(key);
                items.push(item);
                proof {
                    assert(items@.map_values(|item: SnapshotMeta| item@.key)
                        =~= before.map_values(|item: SnapshotMeta| item@.key).push(key@));
                }
            },
            None => {},
        }
        i += 1;
    }
    proof {
        assert(views(uris@).take(n as int) =~= views(uris@));
    }
    items
}

impl GhcupHLS {
    /// The snapshot that the metadata stands for: one item for each file of
    /// the language server that it names.
    pub fn snapshot(&self, config: &GhcupYamlParser) -> (items: Vec<SnapshotMeta>)
        ensures
            exists|uris: Seq<Seq<char>>|
                {
                    &&& distinct(uris)
                    &&& forall|u: Seq<char>| #[trigger]
                        uris.contains(u) <==> config.ghcup_downloads.offers(true, u)
                    &&& items@.map_values(|item: SnapshotMeta| item@.key) == keys_under(
                        uris,
                        HLS_RELEASES_SLASH@,
                    )
                },
    {
        let uris = config.ghcup_downloads.uris(true);
        items_under(&uris, HLS_RELEASES_SLASH)
    }

    /// The address from which the object of an item is fetched.
    pub fn get_object(&self, snapshot: &SnapshotMeta) -> (url: TransferURL)
        ensures
            url.0@ == slash_joined(HLS_RELEASES@, snapshot.key@),
    {
        TransferURL(join_slash(HLS_RELEASES, snapshot.key.as_str()))
    }
}

} // verus!
