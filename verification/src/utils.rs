//! Small helpers that several parts share.

use vstd::prelude::*;
use vstd::std_specs::hash::DefaultHasherAdditionalSpecFns;
use vstd::string::StringSliceAdditionalSpecFns;
use vstd::utf8::encode_utf8;
use std::collections::hash_map::DefaultHasher;
use std::hash::Hasher;
use crate::common::SnapshotPath;
use crate::metadata::{MetaView, SnapshotMeta};
use crate::text::{
    find_char, first_of, hex_char, hex_digit, replace_all, replaced, to_chars, trim_range, trimmed,
};

pub mod checksum;
pub mod retry;

verus! {

/// One item for each key, none of them forced.
pub fn snapshot_string_to_path(snapshot: Vec<String>) -> (items: Vec<SnapshotPath>)
    ensures
        items@.len() == snapshot@.len(),
        forall|i: int|
            0 <= i < items@.len() ==> (#[trigger] items@[i]).0 == snapshot@[i] && !items@[i].1,
{
    let ghost keys = snapshot@;
    let mut items: Vec<SnapshotPath> = Vec::new();
    for key in it: snapshot
        invariant
            it.seq() == keys,
            items@.len() == it.index(),
            forall|i: int|
                0 <= i < items@.len() ==> (#[trigger] items@[i]).0 == keys[i] && !items@[i].1,
    {
        items.push(SnapshotPath::new(key));
    }
    items
}

/// One item for each key, with nothing known but the key.
pub fn snapshot_string_to_meta(snapshot: Vec<String>) -> (items: Vec<SnapshotMeta>)
    ensures
        items@.len() == snapshot@.len(),
        forall|i: int|
            0 <= i < items@.len() ==> (#[trigger] items@[i])@ == (MetaView {
                key: snapshot@[i]@,
                size: None,
                last_modified: None,
                checksum_method: None,
                checksum: None,
                force: false,
                force_last: false,
            }),
{
    let ghost keys = snapshot@;
    let mut items: Vec<SnapshotMeta> = Vec::new();
    for key in it: snapshot
        invariant
            it.seq() == keys,
            items@.len() == it.index(),
            forall|i: int|
                0 <= i < items@.len() ==> (#[trigger] items@[i])@ == (MetaView {
                    key: keys[i]@,
                    size: None,
                    last_modified: None,
                    checksum_method: None,
                    checksum: None,
                    force: false,
                    force_last: false,
                }),
    {
        items.push(SnapshotMeta::new(key));
    }
    items
}

pub const AGENT_NAME: &'static str = "mirror-clone / ";

/// What the client calls itself: the program, its version and, in brackets,
/// the site that runs it.
pub fn user_agent_for(version: &str, site: &str) -> (agent: String)
    ensures
        agent@ == AGENT_NAME@ + version@ + seq![' ', '('] + site@ + seq![')'],
{
    let mut agent = String::from_str(AGENT_NAME);
    agent.append(version);
    agent.push(' ');
    agent.push('(');
    agent.append(site);
    agent.push(')');
    agent
}

/// The characters that a key may not hold in a URL as they are, each with
/// what stands for it.
pub open spec fn url_encode_pairs() -> Seq<(Seq<char>, Seq<char>)> {
    seq![
        ("+"@, "%2B"@),
        ("!"@, "%21"@),
        ("\""@, "%22"@),
        ("#"@, "%23"@),
        ("$"@, "%24"@),
        ("&"@, "%26"@),
        ("'"@, "%27"@),
        ("("@, "%28"@),
        (")"@, "%29"@),
        ("*"@, "%2A"@),
        (","@, "%2C"@),
        (":"@, "%3A"@),
        (";"@, "%3B"@),
        ("="@, "%3D"@),
        ("?"@, "%3F"@),
        ("@"@, "%40"@),
    ]
}

/// A list of pairs of strings as plain values.
pub open spec fn pair_views(map: Seq<(&'static str, &'static str)>) -> Seq<(Seq<char>, Seq<char>)> {
    map.map_values(|p: (&'static str, &'static str)| (p.0@, p.1@))
}

/// The list that leads from each special character to its encoding.
pub fn generate_s3_url_encode_map() -> (map: Vec<(&'static str, &'static str)>)
    ensures
        pair_views(map@) == url_encode_pairs(),
{
    let mut map: Vec<(&'static str, &'static str)> = Vec::new();
    map.push(("+", "%2B"));
    map.push(("!", "%21"));
    map.push(("\"", "%22"));
    map.push(("#", "%23"));
    map.push(("$", "%24"));
    map.push(("&", "%26"));
    map.push(("'", "%27"));
    map.push(("(", "%28"));
    map.push((")", "%29"));
    map.push(("*", "%2A"));
    map.push((",", "%2C"));
    map.push((":", "%3A"));
    map.push((";", "%3B"));
    map.push(("=", "%3D"));
    map.push(("?", "%3F"));
    map.push(("@", "%40"));
    proof {
        assert(pair_views(map@) =~= url_encode_pairs());
    }
    map
}

/// Each pair the other way round.
pub open spec fn swapped(pairs: Seq<(Seq<char>, Seq<char>)>) -> Seq<(Seq<char>, Seq<char>)> {
    pairs.map_values(|p: (Seq<char>, Seq<char>)| (p.1, p.0))
}

/// The list that leads from each encoding back to its character.
pub fn generate_s3_url_reverse_encode_map() -> (map: Vec<(&'static str, &'static str)>)
    ensures
        pair_views(map@) == swapped(url_encode_pairs()),
{
    let forward = generate_s3_url_encode_map();
    let mut map: Vec<(&'static str, &'static str)> = Vec::new();
    let n: usize = forward.len();
    let mut i: usize = 0;
    while i < n
        invariant
            i <= n,
            n == forward@.len(),
            map@.len() == i,
            forall|j: int|
                0 <= j < i ==> (#[trigger] map@[j]).0@ == forward@[j].1@ && map@[j].1@
                    == forward@[j].0@,
        decreases n - i,
    {
        let (x, y) = forward[i];
        map.push((y, x));
        i += 1;
    }
    proof {
        assert forall|j: int| 0 <= j < n implies pair_views(map@)[j] == swapped(
            url_encode_pairs(),
        )[j] by {
            assert(pair_views(forward@)[j] == url_encode_pairs()[j]);
        }
        assert(pair_views(map@) =~= swapped(url_encode_pairs()));
    }
    map
}

/// `key` after the first `n` replacements of `pairs`, made one after the
/// other.
pub open spec fn rewritten(pairs: Seq<(Seq<char>, Seq<char>)>, key: Seq<char>, n: nat) -> Seq<char>
    decreases n,
{
    if n == 0 || n > pairs.len() {
        key
    } else {
        replaced(rewritten(pairs, key, (n - 1) as nat), pairs[n - 1].0, pairs[n - 1].1)
    }
}

/// Rewrites a key by a list of replacements: every occurrence of the first
/// string of a pair becomes the second, pair after pair.
pub fn rewrite_url_string(url_encode_map: &[(&'static str, &'static str)], key: &str) -> (r: String)
    ensures
        r@ == rewritten(pair_views(url_encode_map@), key@, url_encode_map@.len()),
{
    let ghost pairs = pair_views(url_encode_map@);
    let mut key = String::from_str(key);
    let ghost start = key@;
    let n: usize = url_encode_map.len();
    let mut i: usize = 0;
    while i < n
        invariant
            i <= n,
            n == url_encode_map@.len(),
            pairs == pair_views(url_encode_map@),
            key@ == rewritten(pairs, start, i as nat),
        decreases n - i,
    {
        let (ch, seq) = url_encode_map[i];
        proof {
            assert(pairs[i as int] == (ch@, seq@));
        }
        key = replace_all(key.as_str(), ch, seq);
        i += 1;
    }
    key
}

/// A number in lower-case hex, without leading zeros.
pub open spec fn hex_number(n: nat) -> Seq<char>
    decreases n,
{
    if n < 16 {
        seq![hex_digit(n)]
    } else {
        hex_number(n / 16) + seq![hex_digit(n % 16)]
    }
}

/// Appends `n` in hex to `s`.
pub fn push_hex(s: &mut String, n: u64)
    ensures
        final(s)@ == old(s)@ + hex_number(n as nat),
    decreases n,
{
    if n >= 16 {
        push_hex(s, n / 16);
    }
    s.push(hex_char((n % 16) as u8));
}

/// The hash of a string: the bytes of the string and the byte that ends
/// every string, fed to the default hasher of the standard library.
pub open spec fn hash_of(key: Seq<char>) -> u64 {
    DefaultHasher::spec_finish(seq![encode_utf8(key), seq![0xffu8]])
}

/// The name part that stands for a string in the name of a scratch file:
/// its hash, in hex.
pub fn hash_string(key: &str) -> (r: String)
    ensures
        r@ == hex_number(hash_of(key@) as nat),
{
    let mut hasher = DefaultHasher::new();
    hasher.write(key.as_bytes());
    let mut end: Vec<u8> = Vec::new();
    end.push(0xff);
    hasher.write(end.as_slice());
    proof {
        assert(end@ =~= seq![0xffu8]);
        assert(hasher@ =~= seq![encode_utf8(key@), seq![0xffu8]]);
    }
    let n = hasher.finish();
    let mut r = String::new();
    push_hex(&mut r, n);
    proof {
        assert(r@ =~= hex_number(n as nat));
    }
    r
}

/// The clock of the machine, `SystemTime::now` of std, in whole seconds
/// since the epoch; zero where the clock stands before the epoch.
#[verifier::external_body]
pub fn unix_time() -> u64 {
    std::time::SystemTime::now().duration_since(std::time::UNIX_EPOCH).map_or(0, |d| d.as_secs())
}

/// A list of strings, given as one text with commas between them.
#[derive(Debug)]
pub struct CommaSplitVecString(pub Vec<String>);

/// The parts of a text between its commas, each without the white space
/// around it. A text without a comma is one part.
pub open spec fn comma_parts(s: Seq<char>) -> Seq<Seq<char>>
    decreases s.len(),
{
    let at = first_of(s, ',');
    if at < 0 || at >= s.len() {
        seq![trimmed(s)]
    } else {
        seq![trimmed(s.take(at))] + comma_parts(s.skip(at + 1))
    }
}

impl CommaSplitVecString {
    /// Reads a list.
    pub fn from_str(s: &str) -> (list: Self)
        ensures
            list.0.deep_view() == comma_parts(s@),
    {
        let chars = to_chars(s);
        let n: usize = chars.len();
        let mut parts: Vec<String> = Vec::new();
        let mut from: usize = 0;
        proof {
            assert(s@.skip(0) =~= s@);
            assert(parts.deep_view() =~= Seq::<Seq<char>>::empty());
        }
        loop
            invariant_except_break
                from <= n,
                parts.deep_view() + comma_parts(s@.skip(from as int)) == comma_parts(s@),
            invariant
                n == chars@.len(),
                chars@ == s@,
            ensures
                parts.deep_view() == comma_parts(s@),
            decreases n - from,
        {
            let ghost rest = s@.skip(from as int);
            let ghost before = parts.deep_view();
            let at = find_char(&chars, from, ',');
            let part = trim_range(&chars, from, at);
            proof {
                assert(rest.take(at - from) =~= chars@.subrange(from as int, at as int));
                if at == n {
                    assert(rest.take(at - from) =~= rest);
                }
            }
            parts.push(part);
            proof {
                assert(parts.deep_view() =~= before.push(part@));
            }
            if at == n {
                proof {
                    assert(parts.deep_view() =~= before + seq![trimmed(rest)]);
                }
                break ;
            }
            proof {
                assert(rest.skip(at - from + 1) =~= s@.skip(at + 1));
                assert(parts.deep_view() + comma_parts(s@.skip(at + 1)) =~= before + (seq![
                    trimmed(rest.take(at - from)),
                ] + comma_parts(rest.skip(at - from + 1))));
            }
            from = at + 1;
        }
        CommaSplitVecString(parts)
    }

    /// The strings of the list.
    pub fn into_vec(self) -> (v: Vec<String>)
        ensures
            v == self.0,
    {
        self.0
    }
}

} // verus!
