//! The object-store target: what is listed, under which keys objects lie
//! and what is written beside them.

use vstd::prelude::*;
use crate::common::SnapshotPath;
use crate::error::Error;
use crate::metadata::{opt_str_view, MetaView, SnapshotMeta, SnapshotMetaFlag};
use crate::text::{
    decimal, hex_char, hex_digit, join_slash, slash_joined, strip_prefix, to_decimal,
};
use crate::traits::Key;
use crate::utils::checksum::same_text;

verus! {

/// Where the bucket is and how it is listed.
#[derive(Debug)]
pub struct S3Config {
    pub endpoint: String,
    pub bucket: String,
    /// The keys of the mirror lie under this prefix and a slash.
    pub prefix: String,
    /// How the listing is split into shards; `pypi` is the only way known.
    pub prefix_hint_mode: Option<String>,
    /// How many keys one page of the listing may hold.
    pub max_keys: u64,
}

pub const JCLOUD_ENDPOINT: &'static str = "https://s3.jcloud.sjtu.edu.cn";

pub const JCLOUD_BUCKET: &'static str = "899a892efef34b1b944a19981040f55b-oss01";

pub const DEFAULT_MAX_KEYS: u64 = 1000;

pub const HINT_PYPI: &'static str = "pypi";

pub const BACKEND_KEY: &'static str = "clone-backend";

pub const BACKEND_VALUE: &'static str = "s3-v1";

pub const LAST_MODIFIED_KEY: &'static str = "clone-last-modified";

pub const CHECKSUM_METHOD_KEY: &'static str = "clone-checksum-method";

pub const CHECKSUM_KEY: &'static str = "clone-checksum";

/// How many shards the mode `pypi` makes: one for every value of a byte.
pub const PYPI_SHARDS: usize = 256;

impl S3Config {
    /// The configuration for the bucket of the SJTU object store.
    pub fn new_jcloud(prefix: String) -> (config: Self)
        ensures
            config.endpoint@ == JCLOUD_ENDPOINT@,
            config.bucket@ == JCLOUD_BUCKET@,
            config.prefix == prefix,
            config.max_keys == DEFAULT_MAX_KEYS,
            config.prefix_hint_mode is None,
    {
        S3Config {
            endpoint: String::from_str(JCLOUD_ENDPOINT),
            bucket: String::from_str(JCLOUD_BUCKET),
            prefix,
            max_keys: DEFAULT_MAX_KEYS,
            prefix_hint_mode: None,
        }
    }
}

/// The shard of the byte `i`: a slash and the byte in two hex digits.
pub open spec fn shard(i: nat) -> Seq<char> {
    seq!['/', hex_digit(i / 16), hex_digit(i % 16)]
}

/// What is put after the prefix for each shard of the listing: nothing
/// where the listing is not split, and the 256 shards for `pypi`.
pub open spec fn shards_of(mode: Option<Seq<char>>) -> Option<Seq<Seq<char>>> {
    match mode {
        None => Some(seq![Seq::<char>::empty()]),
        Some(m) => if m == HINT_PYPI@ {
            Some(Seq::new(PYPI_SHARDS as nat, |i: int| shard(i as nat)))
        } else {
            None
        },
    }
}

/// A list of metadata pairs as plain values.
pub open spec fn pairs_view(pairs: Seq<(String, String)>) -> Seq<(Seq<char>, Seq<char>)> {
    pairs.map_values(|p: (String, String)| (p.0@, p.1@))
}

/// What an item writes beside its object.
pub trait S3Metadata {
    spec fn s3_meta_of(&self) -> Seq<(Seq<char>, Seq<char>)>;

    fn s3_meta(&self) -> (pairs: Vec<(String, String)>)
        ensures
            pairs_view(pairs@) == self.s3_meta_of(),
    ;
}

impl S3Metadata for SnapshotPath {
    open spec fn s3_meta_of(&self) -> Seq<(Seq<char>, Seq<char>)> {
        Seq::empty()
    }

    fn s3_meta(&self) -> (pairs: Vec<(String, String)>) {
        let pairs: Vec<(String, String)> = Vec::new();
        proof {
            assert(pairs_view(pairs@) =~= Seq::empty());
        }
        pairs
    }
}

/// The pair for a value that may be absent.
pub open spec fn optional_pair(key: Seq<char>, value: Option<Seq<char>>) -> Seq<
    (Seq<char>, Seq<char>),
> {
    match value {
        Some(v) => seq![(key, v)],
        None => Seq::empty(),
    }
}

impl S3Metadata for SnapshotMeta {
    open spec fn s3_meta_of(&self) -> Seq<(Seq<char>, Seq<char>)> {
        optional_pair(CHECKSUM_METHOD_KEY@, opt_str_view(self.checksum_method)) + optional_pair(
            CHECKSUM_KEY@,
            opt_str_view(self.checksum),
        )
    }

    fn s3_meta(&self) -> (pairs: Vec<(String, String)>) {
        let mut pairs: Vec<(String, String)> = Vec::new();
        match &self.checksum_method {
            Some(method) => {
                pairs.push((String::from_str(CHECKSUM_METHOD_KEY), method.clone()));
            },
            None => {},
        }
        match &self.checksum {
            Some(checksum) => {
                pairs.push((String::from_str(CHECKSUM_KEY), checksum.clone()));
            },
            None => {},
        }
        proof {
            assert(pairs_view(pairs@) =~= self.s3_meta_of());
        }
        pairs
    }
}

/// What one object of a page of the listing stands for.
pub enum Listed {
    /// An object of the mirror: its item.
    Item(SnapshotMeta),
    /// An object that does not lie under the prefix.
    Foreign,
}

/// The object store as a target.
pub struct S3Backend {
    pub config: S3Config,
}

impl S3Backend {
    pub fn new(config: S3Config) -> (backend: Self)
        ensures
            backend.config == config,
    {
        S3Backend { config }
    }

    /// What is written beside every object.
    pub fn gen_metadata(&self) -> (pairs: Vec<(String, String)>)
        ensures
            pairs_view(pairs@) == seq![(BACKEND_KEY@, BACKEND_VALUE@)],
    {
        let mut pairs: Vec<(String, String)> = Vec::new();
        pairs.push((String::from_str(BACKEND_KEY), String::from_str(BACKEND_VALUE)));
        proof {
            assert(pairs_view(pairs@) =~= seq![(BACKEND_KEY@, BACKEND_VALUE@)]);
        }
        pairs
    }

    /// The prefixes under which the bucket is listed, one for each shard.
    /// A mode that is not known is refused.
    pub fn scan_prefixes(&self) -> (r: Result<Vec<String>, Error>)
        ensures
            match shards_of(opt_str_view(self.config.prefix_hint_mode)) {
                Some(shards) => r matches Ok(prefixes) && prefixes@.len() == shards.len()
                    && forall|i: int|
                    0 <= i < shards.len() ==> (#[trigger] prefixes@[i])@ == self.config.prefix@
                        + shards[i],
                None => r matches Err(e) && e is ConfigureError,
            },
    {
        match &self.config.prefix_hint_mode {
            None => {
                let mut prefixes: Vec<String> = Vec::new();
                prefixes.push(self.config.prefix.clone());
                proof {
                    assert(self.config.prefix@ + Seq::<char>::empty() =~= self.config.prefix@);
                }
                Ok(prefixes)
            },
            Some(mode) => {
                if !same_text(mode.as_str(), HINT_PYPI) {
                    return Err(
                        Error::ConfigureError(String::from_str("unsupported prefix hint mode")),
                    );
                }
                let mut prefixes: Vec<String> = Vec::new();
                let mut i: usize = 0;
                while i < PYPI_SHARDS
                    invariant
                        i <= PYPI_SHARDS,
                        prefixes@.len() == i,
                        forall|j: int|
                            0 <= j < i ==> (#[trigger] prefixes@[j])@ == self.config.prefix@
                                + shard(j as nat),
                    decreases PYPI_SHARDS - i,
                {
                    let mut prefix = self.config.prefix.clone();
                    prefix.push('/');
                    prefix.push(hex_char((i / 16) as u8));
                    prefix.push(hex_char((i % 16) as u8));
                    proof {
                        assert(prefix@ =~= self.config.prefix@ + shard(i as nat));
                    }
                    prefixes.push(prefix);
                    i += 1;
                }
                Ok(prefixes)
            },
        }
    }

    /// What an object of the listing stands for: an item under the key that
    /// follows the prefix and a slash, with its size where the store gave a
    /// size that is not negative.
    pub fn listed_item(&self, key: &str, size: Option<i64>) -> (r: Listed)
        ensures
            match r {
                Listed::Item(item) => {
                    &&& (self.config.prefix@ + seq!['/']).is_prefix_of(key@)
                    &&& item@ == (MetaView {
                        key: key@.skip(self.config.prefix@.len() as int + 1),
                        size: match size {
                            Some(n) => if n >= 0 {
                                Some(n as u64)
                            } else {
                                None
                            },
                            None => None,
                        },
                        last_modified: None,
                        checksum_method: None,
                        checksum: None,
                        force: false,
                        force_last: false,
                    })
                },
                Listed::Foreign => !(self.config.prefix@ + seq!['/']).is_prefix_of(key@),
            },
    {
        let mut base = self.config.prefix.clone();
        base.push('/');
        match strip_prefix(key, base.as_str()) {
            Some(rest) => {
                let size = match size {
                    Some(n) => if n >= 0 {
                        Some(n as u64)
                    } else {
                        None
                    },
                    None => None,
                };
                Listed::Item(
                    SnapshotMeta {
                        key: rest,
                        size,
                        last_modified: None,
                        checksum_method: None,
                        checksum: None,
                        flags: SnapshotMetaFlag { force: false, force_last: false },
                    },
                )
            },
            None => Listed::Foreign,
        }
    }

    /// The total size after one more object, which stays where it is when
    /// the object has no size or the sum does not fit.
    pub fn add_size(&self, total: u64, size: Option<i64>) -> (sum: u64)
        ensures
            sum == match size {
                Some(n) => if n >= 0 && total + n <= u64::MAX {
                    (total + n) as u64
                } else {
                    total
                },
                None => total,
            },
    {
        match size {
            Some(n) => {
                if n >= 0 && (n as u64) <= u64::MAX - total {
                    total + n as u64
                } else {
                    total
                }
            },
            None => total,
        }
    }

    /// The key under which the object of an item lies in the bucket.
    pub fn object_key<S: Key>(&self, snapshot: &S) -> (key: String)
        ensures
            key@ == slash_joined(self.config.prefix@, snapshot.key_view()),
    {
        join_slash(self.config.prefix.as_str(), snapshot.key())
    }

    /// What is written beside the object of an item: the mark of this
    /// back-end, the time of the object, and what the item itself adds.
    pub fn put_metadata<S: S3Metadata>(&self, snapshot: &S, modified_at: u64) -> (pairs: Vec<
        (String, String),
    >)
        ensures
            pairs_view(pairs@) == seq![
                (BACKEND_KEY@, BACKEND_VALUE@),
                (LAST_MODIFIED_KEY@, decimal(modified_at as nat)),
            ] + snapshot.s3_meta_of(),
    {
        let mut pairs = self.gen_metadata();
        let ghost first = pairs@;
        pairs.push((String::from_str(LAST_MODIFIED_KEY), to_decimal(modified_at)));
        proof {
            assert(pairs_view(first).len() == first.len());
            assert(first.len() == 1);
            assert(pairs_view(first)[0] == (BACKEND_KEY@, BACKEND_VALUE@));
            assert(pairs@[0] == first[0]);
            assert(pairs_view(pairs@)[0] == (BACKEND_KEY@, BACKEND_VALUE@));
            assert(pairs_view(pairs@)[1] == (LAST_MODIFIED_KEY@, decimal(modified_at as nat)));
        }
        let mut own = snapshot.s3_meta();
        let ghost head = pairs@;
        let ghost tail = own@;
        pairs.append(&mut own);
        proof {
            assert(pairs_view(head) =~= seq![
                (BACKEND_KEY@, BACKEND_VALUE@),
                (LAST_MODIFIED_KEY@, decimal(modified_at as nat)),
            ]);
            assert(pairs_view(pairs@) =~= pairs_view(head) + pairs_view(tail));
        }
        pairs
    }

    /// Whether the listing goes on after a page, and with which token.
    pub fn next_page(&self, next_continuation_token: Option<String>) -> (token: Option<String>)
        ensures
            token == next_continuation_token,
    {
        next_continuation_token
    }
}

} // verus!
