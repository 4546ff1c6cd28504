//! The Homebrew source: the bottles of every formula, for one platform or
//! for all.

use vstd::prelude::*;
use crate::metadata::{MetaView, SnapshotMeta, SnapshotMetaFlag};
use crate::text::{decimal, push_decimal};
use crate::utils::checksum::same_text;
use crate::utils::{
    generate_s3_url_reverse_encode_map, pair_views, rewrite_url_string, rewritten, swapped,
    url_encode_pairs,
};

verus! {

/// Where the formulae are listed, and for which platform bottles are taken.
#[derive(Debug)]
pub struct HomebrewConfig {
    pub api_base: String,
    /// A platform, or `all` or nothing for every platform.
    pub arch: String,
}

/// The Homebrew source. It remembers where each bottle is fetched.
pub struct Homebrew {
    pub config: HomebrewConfig,
    /// For each key, the address that the API gave for it; of two entries
    /// for one key the later one counts.
    pub url_mapping: Vec<(String, String)>,
}

/// One bottle of a formula, as the API describes it.
#[derive(Debug)]
pub struct BottleFile {
    pub platform: String,
    pub url: String,
    pub sha256: String,
}

/// The stable bottle of a formula: how often it was rebuilt, and its files.
#[derive(Debug)]
pub struct StableBottle {
    pub rebuild: u64,
    pub files: Vec<BottleFile>,
}

/// What the API says of one formula, as far as its bottles go.
#[derive(Debug)]
pub struct Formula {
    pub name: String,
    /// The stable version, if the formula has one.
    pub stable: Option<String>,
    /// Whether the formula is marked as having bottles.
    pub bottle: bool,
    pub revision: u64,
    pub stable_bottle: Option<StableBottle>,
}

pub const ALL: &'static str = "all";

pub const SHA256: &'static str = "sha256";

pub const BOTTLE: &'static str = ".bottle";

pub const TAR_GZ: &'static str = ".tar.gz";

/// Whether bottles for `platform` are taken where `arch` is configured.
pub open spec fn takes(arch: Seq<char>, platform: Seq<char>) -> bool {
    arch.len() == 0 || arch == ALL@ || platform == arch
}

/// A number that is written only if it is not zero, after a mark.
pub open spec fn optional_number(mark: char, n: u64) -> Seq<char> {
    if n == 0 {
        Seq::empty()
    } else {
        seq![mark] + decimal(n as nat)
    }
}

/// The name of the file of a bottle.
pub open spec fn bottle_name(
    name: Seq<char>,
    version: Seq<char>,
    revision: u64,
    platform: Seq<char>,
    rebuild: u64,
) -> Seq<char> {
    name + seq!['-'] + version + optional_number('_', revision) + seq!['.'] + platform + BOTTLE@
        + optional_number('.', rebuild) + TAR_GZ@
}

/// The key of a bottle: the name of its file, with what stands for a
/// special character turned back into the character.
pub open spec fn bottle_key(
    name: Seq<char>,
    version: Seq<char>,
    revision: u64,
    platform: Seq<char>,
    rebuild: u64,
) -> Seq<char> {
    rewritten(
        swapped(url_encode_pairs()),
        bottle_name(name, version, revision, platform, rebuild),
        url_encode_pairs().len(),
    )
}

/// The address kept for `key`: that of the last entry with the key.
pub open spec fn mapped(mapping: Seq<(String, String)>, key: Seq<char>) -> Option<Seq<char>>
    decreases mapping.len(),
{
    if mapping.len() == 0 {
        None
    } else if mapping.last().0@ == key {
        Some(mapping.last().1@)
    } else {
        mapped(mapping.drop_last(), key)
    }
}

/// The item for one bottle: its key, and its digest by SHA-256.
pub open spec fn bottle_view(
    name: Seq<char>,
    version: Seq<char>,
    revision: u64,
    rebuild: u64,
    file: BottleFile,
) -> MetaView {
    MetaView {
        key: bottle_key(name, version, revision, file.platform@, rebuild),
        size: None,
        last_modified: None,
        checksum_method: Some(SHA256@),
        checksum: Some(file.sha256@),
        force: false,
        force_last: false,
    }
}

/// The items for the bottles `files` whose platform is taken, in their
/// order.
pub open spec fn bottle_items(
    arch: Seq<char>,
    name: Seq<char>,
    version: Seq<char>,
    revision: u64,
    rebuild: u64,
    files: Seq<BottleFile>,
) -> Seq<MetaView>
    decreases files.len(),
{
    if files.len() == 0 {
        Seq::empty()
    } else {
        let rest = bottle_items(arch, name, version, revision, rebuild, files.drop_last());
        if takes(arch, files.last().platform@) {
            rest.push(bottle_view(name, version, revision, rebuild, files.last()))
        } else {
            rest
        }
    }
}

/// For the bottles `files` whose platform is taken, the key and the address
/// of each, in their order.
pub open spec fn bottle_addresses(
    arch: Seq<char>,
    name: Seq<char>,
    version: Seq<char>,
    revision: u64,
    rebuild: u64,
    files: Seq<BottleFile>,
) -> Seq<(Seq<char>, Seq<char>)>
    decreases files.len(),
{
    if files.len() == 0 {
        Seq::empty()
    } else {
        let rest = bottle_addresses(arch, name, version, revision, rebuild, files.drop_last());
        if takes(arch, files.last().platform@) {
            rest.push(
                (
                    bottle_key(name, version, revision, files.last().platform@, rebuild),
                    files.last().url@,
                ),
            )
        } else {
            rest
        }
    }
}

/// Whether a formula counts: it is marked as having bottles, and has a
/// stable version and a stable bottle.
pub open spec fn has_bottles(formula: Formula) -> bool {
    formula.bottle && formula.stable is Some && formula.stable_bottle is Some
}

/// The items of a formula: those of its stable bottle, if the formula
/// counts.
pub open spec fn formula_items(arch: Seq<char>, formula: Formula) -> Seq<MetaView> {
    if has_bottles(formula) {
        bottle_items(
            arch,
            formula.name@,
            formula.stable->0@,
            formula.revision,
            formula.stable_bottle->0.rebuild,
            formula.stable_bottle->0.files@,
        )
    } else {
        Seq::empty()
    }
}

/// The keys and addresses of a formula's items.
pub open spec fn formula_addresses(arch: Seq<char>, formula: Formula) -> Seq<
    (Seq<char>, Seq<char>),
> {
    if has_bottles(formula) {
        bottle_addresses(
            arch,
            formula.name@,
            formula.stable->0@,
            formula.revision,
            formula.stable_bottle->0.rebuild,
            formula.stable_bottle->0.files@,
        )
    } else {
        Seq::empty()
    }
}

/// Items as plain values.
pub open spec fn item_views(items: Seq<SnapshotMeta>) -> Seq<MetaView> {
    items.map_values(|m: SnapshotMeta| m@)
}

/// A mapping from keys to addresses as plain values.
pub open spec fn mapping_view(mapping: Seq<(String, String)>) -> Seq<(Seq<char>, Seq<char>)> {
    mapping.map_values(|p: (String, String)| (p.0@, p.1@))
}

fn push_optional(s: &mut String, mark: char, n: u64)
    ensures
        final(s)@ == old(s)@ + optional_number(mark, n),
{
    if n != 0 {
        s.push(mark);
        push_decimal(s, n);
        proof {
            assert(s@ =~= old(s)@ + optional_number(mark, n));
        }
    } else {
        proof {
            assert(s@ =~= old(s)@ + optional_number(mark, n));
        }
    }
}

impl Homebrew {
    pub fn new(config: HomebrewConfig) -> (source: Self)
        ensures
            source.config == config,
            source.url_mapping@.len() == 0,
    {
        Homebrew { config, url_mapping: Vec::new() }
    }

    /// Whether bottles for `platform` are taken.
    pub fn wants_platform(&self, platform: &str) -> (r: bool)
        ensures
            r == takes(self.config.arch@, platform@),
    {
        let arch = self.config.arch.as_str();
        arch.unicode_len() == 0 || same_text(arch, ALL) || same_text(platform, arch)
    }

    /// Takes one bottle of a formula into the snapshot, if its platform is
    /// wanted: the address is kept for the key, and the item is returned.
    pub fn add_bottle(
        &mut self,
        name: &str,
        version: &str,
        revision: u64,
        rebuild: u64,
        file: BottleFile,
    ) -> (r: Option<SnapshotMeta>)
        ensures
            final(self).config == old(self).config,
            takes(old(self).config.arch@, file.platform@) ==> (r matches Some(item) && item@ == (
            MetaView {
                key: bottle_key(name@, version@, revision, file.platform@, rebuild),
                size: None,
                last_modified: None,
                checksum_method: Some(SHA256@),
                checksum: Some(file.sha256@),
                force: false,
                force_last: false,
            }) && final(self).url_mapping@.len() == old(self).url_mapping@.len() + 1
                && final(self).url_mapping@.drop_last() == old(self).url_mapping@
                && final(self).url_mapping@.last().0@ == item@.key
                && final(self).url_mapping@.last().1@ == file.url@),
            !takes(old(self).config.arch@, file.platform@) ==> r is None
                && final(self).url_mapping == old(self).url_mapping,
    {
        if !self.wants_platform(file.platform.as_str()) {
            return None;
        }
        let mut plain = String::from_str(name);
        plain.push('-');
        plain.append(version);
        push_optional(&mut plain, '_', revision);
        plain.push('.');
        plain.append(file.platform.as_str());
        plain.append(BOTTLE);
        push_optional(&mut plain, '.', rebuild);
        plain.append(TAR_GZ);
        proof {
            assert(plain@ =~= bottle_name(name@, version@, revision, file.platform@, rebuild));
        }
        let map = generate_s3_url_reverse_encode_map();
        proof {
            assert(pair_views(map@).len() == map@.len());
            assert(swapped(url_encode_pairs()).len() == url_encode_pairs().len());
        }
        let key = rewrite_url_string(map.as_slice(), plain.as_str());
        let ghost before = self.url_mapping@;
        self.url_mapping.push((key.clone(), file.url));
        proof {
            assert(self.url_mapping@.drop_last() =~= before);
        }
        Some(
            SnapshotMeta {
                key,
                size: None,
                last_modified: None,
                checksum_method: Some(String::from_str(SHA256)),
                checksum: Some(file.sha256),
                flags: SnapshotMetaFlag { force: false, force_last: false },
            },
        )
    }

    /// Takes a formula into the snapshot: the items of its stable bottle
    /// for the platforms that are wanted, if the formula is marked as having
    /// bottles and has a stable version and a stable bottle, and nothing
    /// else. The address of each item is kept for its key.
    pub fn add_formula(&mut self, formula: Formula) -> (items: Vec<SnapshotMeta>)
        ensures
            final(self).config == old(self).config,
            item_views(items@) == formula_items(old(self).config.arch@, formula),
            mapping_view(final(self).url_mapping@) == mapping_view(old(self).url_mapping@)
                + formula_addresses(old(self).config.arch@, formula),
    {
        let ghost arch = self.config.arch@;
        let ghost start = mapping_view(self.url_mapping@);
        let mut items: Vec<SnapshotMeta> = Vec::new();
        proof {
            assert(item_views(items@) =~= Seq::<MetaView>::empty());
            assert(start + Seq::<(Seq<char>, Seq<char>)>::empty() =~= start);
        }
        let Formula { name, stable, bottle, revision, stable_bottle } = formula;
        if !bottle {
            return items;
        }
        let version = match stable {
            Some(version) => version,
            None => {
                return items;
            },
        };
        let StableBottle { rebuild, files } = match stable_bottle {
            Some(found) => found,
            None => {
                return items;
            },
        };
        let ghost all = files@;
        proof {
            assert(all.take(0) =~= Seq::<BottleFile>::empty());
        }
        for file in it: files
            invariant
                it.seq() == all,
                self.config.arch@ == arch,
                self.config == old(self).config,
                item_views(items@) == bottle_items(
                    arch,
                    name@,
                    version@,
                    revision,
                    rebuild,
                    all.take(it.index() as int),
                ),
                mapping_view(self.url_mapping@) == start + bottle_addresses(
                    arch,
                    name@,
                    version@,
                    revision,
                    rebuild,
                    all.take(it.index() as int),
                ),
        {
            let ghost i = it.index() as int;
            let ghost items_before = item_views(items@);
            let ghost mapping_before = mapping_view(self.url_mapping@);
            let ghost addresses_before = bottle_addresses(
                arch,
                name@,
                version@,
                revision,
                rebuild,
                all.take(i),
            );
            proof {
                assert(all.take(i + 1).drop_last() =~= all.take(i));
                assert(all.take(i + 1).last() == file);
            }
            match self.add_bottle(name.as_str(), version.as_str(), revision, rebuild, file) {
                Some(item) => {
                    items.push(item);
                    proof {
                        assert(item_views(items@) =~= items_before.push(item@));
                        assert(mapping_view(self.url_mapping@) =~= mapping_before.push(
                            (item@.key, file.url@),
                        ));
                        assert(mapping_before.push((item@.key, file.url@)) =~= start
                            + addresses_before.push((item@.key, file.url@)));
                    }
                },
                None => {},
            }
        }
        proof {
            assert(all.take(all.len() as int) =~= all);
        }
        items
    }

    /// The address that the API gave for the bottle of an item.
    pub fn url_for(&self, snapshot: &SnapshotMeta) -> (r: Option<String>)
        ensures
            r.deep_view() == mapped(self.url_mapping@, snapshot.key@),
    {
        let mut i: usize = self.url_mapping.len();
        proof {
            assert(self.url_mapping@.take(i as int) =~= self.url_mapping@);
        }
        while i > 0
            invariant
                i <= self.url_mapping@.len(),
                mapped(self.url_mapping@, snapshot.key@) == mapped(
                    self.url_mapping@.take(i as int),
                    snapshot.key@,
                ),
            decreases i,
        {
            proof {
                assert(self.url_mapping@.take(i as int).drop_last() =~= self.url_mapping@.take(
                    i - 1,
                ));
            }
            if self.url_mapping[i - 1].0 == snapshot.key {
                return Some(self.url_mapping[i - 1].1.clone());
            }
            i -= 1;
        }
        None
    }
}

} // verus!
