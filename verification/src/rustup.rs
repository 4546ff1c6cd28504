//! The rustup source: the channel manifests of the last days and the files
//! that they name.

use vstd::prelude::*;
use std::fmt::Write;
use crate::common::{SnapshotPath, TransferURL};
use crate::error::Error;
use crate::pattern::{find_captures, group_texts, pick_group, regex_captures_of};
use crate::text::{join_slash, replace_all, replaced, slash_joined};

verus! {

/// Where the manifests lie and how far back they are read.
#[derive(Debug)]
pub struct Rustup {
    pub base: String,
    /// For how many days all channels are read. The stable channel is read
    /// for four times as many.
    pub days_to_retain: usize,
}

pub const BETA: &'static str = "beta";

pub const STABLE: &'static str = "stable";

pub const NIGHTLY: &'static str = "nightly";

pub const DIST: &'static str = "dist/";

pub const CHANNEL: &'static str = "channel-rust-";

pub const TOML: &'static str = ".toml";

pub const TOML_SHA256: &'static str = ".toml.sha256";

/// An address in a manifest, as the first group.
pub const URL_PATTERN: &'static str = "url = \"(.*)\"";

/// What stands before the key in the addresses of a manifest.
pub const UPSTREAM: &'static str = "https://static.rust-lang.org/";

pub const NOTHING: &'static str = "";

/// How a day is written in the keys of the manifests: year, month and day
/// with dashes between.
pub const DAY_FORMAT: &'static str = "%Y-%m-%d";

/// The day that lies `days` days before the moment `now` in universal time,
/// written as `format` says in the way of the crate chrono; none where that
/// is no day of the calendar that the crate knows, or the format is none.
pub uninterp spec fn utc_day_before_of(now: i64, days: i64, format: Seq<char>) -> Option<
    Seq<char>,
>;

/// `TimeDelta::try_days`, `DateTime::from_timestamp`, `checked_sub_signed`
/// and `format` of the crate chrono: the moment `now` seconds after the
/// epoch, moved back by `days` days and written as the format says.
#[verifier::external_body]
pub(crate) fn utc_day_before(now: i64, days: i64, format: &str) -> (r: Option<String>)
    ensures
        r.deep_view() == utc_day_before_of(now, days, format@),
{
    let span = chrono::Duration::try_days(days)?;
    let moment = chrono::DateTime::<chrono::Utc>::from_timestamp(now, 0)?;
    let day = moment.checked_sub_signed(span)?;
    let mut text = String::new();
    write!(text, "{}", day.format(format)).ok().map(|_| text)
}

/// The three channels, in the order in which they are read.
pub open spec fn channels() -> Seq<Seq<char>> {
    seq![BETA@, STABLE@, NIGHTLY@]
}

/// The manifests that are read, each as a number of days back and a
/// channel: the three channels for each of the last `days` days, then the
/// stable channel for three times as many days before those.
pub open spec fn wanted_manifests(days: nat) -> Seq<(int, Seq<char>)> {
    Seq::new(
        6 * days,
        |i: int|
            if i < 3 * days {
                (i / 3, channels()[i % 3])
            } else {
                (days + i - 3 * days, STABLE@)
            },
    )
}

/// The key of the manifest of a channel on a day.
pub open spec fn manifest_key(day: Seq<char>, channel: Seq<char>) -> Seq<char> {
    DIST@ + day + seq!['/'] + CHANNEL@ + channel + TOML@
}

/// The key of a file, from its address in a manifest.
pub open spec fn file_key(url: Seq<char>) -> Seq<char> {
    replaced(url, UPSTREAM@, NOTHING@)
}

fn channel_name(i: usize) -> (name: &'static str)
    requires
        i < 3,
    ensures
        name@ == channels()[i as int],
{
    if i == 0 {
        BETA
    } else if i == 1 {
        STABLE
    } else {
        NIGHTLY
    }
}

impl Rustup {
    /// The manifests to read at the moment `now`, each as its day and its
    /// channel. It fails where a day cannot be named or the days are too
    /// many to count.
    pub fn targets(&self, now: i64) -> (r: Result<Vec<(String, String)>, Error>)
        ensures
            r matches Ok(found) ==> {
                let wanted = wanted_manifests(self.days_to_retain as nat);
                &&& found@.len() == wanted.len()
                &&& forall|i: int|
                    0 <= i < wanted.len() ==> utc_day_before_of(now, wanted[i].0 as i64, DAY_FORMAT@) == Some(
                        (#[trigger] found@[i]).0@,
                    ) && found@[i].1@ == wanted[i].1
            },
            r matches Err(e) ==> e is ConfigureError,
            self.days_to_retain <= 0x0fff_ffff && (forall|d: i64|
                0 <= d < 4 * self.days_to_retain ==> (#[trigger] utc_day_before_of(now, d, DAY_FORMAT@))
                    is Some) ==> r is Ok,
    {
        let days: usize = self.days_to_retain;
        if days > 0x0fff_ffff {
            return Err(Error::ConfigureError(String::from_str("too many days")));
        }
        let ghost wanted = wanted_manifests(days as nat);
        let mut found: Vec<(String, String)> = Vec::new();
        let mut d: usize = 0;
        while d < days
            invariant
                d <= days <= 0x0fff_ffff,
                days == self.days_to_retain,
                wanted == wanted_manifests(days as nat),
                found@.len() == 3 * d,
                forall|i: int|
                    0 <= i < found@.len() ==> utc_day_before_of(now, wanted[i].0 as i64, DAY_FORMAT@) == Some(
                        (#[trigger] found@[i]).0@,
                    ) && found@[i].1@ == wanted[i].1,
            decreases days - d,
        {
            let day = match utc_day_before(now, d as i64, DAY_FORMAT) {
                Some(day) => day,
                None => {
                    return Err(Error::ConfigureError(String::from_str("no such day")));
                },
            };
            let mut c: usize = 0;
            while c < 3
                invariant
                    c <= 3,
                    d < days <= 0x0fff_ffff,
                    wanted == wanted_manifests(days as nat),
                    utc_day_before_of(now, d as i64, DAY_FORMAT@) == Some(day@),
                    found@.len() == 3 * d + c,
                    forall|i: int|
                        0 <= i < found@.len() ==> utc_day_before_of(now, wanted[i].0 as i64, DAY_FORMAT@)
                            == Some((#[trigger] found@[i]).0@) && found@[i].1@ == wanted[i].1,
                decreases 3 - c,
            {
                proof {
                    let i = 3 * d + c;
                    assert(i / 3 == d && i % 3 == c);
                    assert(wanted[i] == (d as int, channels()[c as int]));
                }
                found.push((day.clone(), String::from_str(channel_name(c))));
                c += 1;
            }
            d += 1;
        }
        let mut e: usize = days;
        while e < 4 * days
            invariant
                days <= e <= 4 * days,
                days <= 0x0fff_ffff,
                days == self.days_to_retain,
                wanted == wanted_manifests(days as nat),
                found@.len() == 3 * days + (e - days),
                forall|i: int|
                    0 <= i < found@.len() ==> utc_day_before_of(now, wanted[i].0 as i64, DAY_FORMAT@) == Some(
                        (#[trigger] found@[i]).0@,
                    ) && found@[i].1@ == wanted[i].1,
            decreases 4 * days - e,
        {
            let day = match utc_day_before(now, e as i64, DAY_FORMAT) {
                Some(day) => day,
                None => {
                    return Err(Error::ConfigureError(String::from_str("no such day")));
                },
            };
            proof {
                let i = 3 * days + (e - days);
                assert(wanted[i] == (e as int, STABLE@));
            }
            found.push((day, String::from_str(STABLE)));
            e += 1;
        }
        Ok(found)
    }

    /// The key of the manifest of a channel on a day.
    pub fn manifest(&self, day: &str, channel: &str) -> (key: String)
        ensures
            key@ == manifest_key(day@, channel@),
    {
        let mut key = String::from_str(DIST);
        key.append(day);
        key.push('/');
        key.append(CHANNEL);
        key.append(channel);
        key.append(TOML);
        proof {
            assert(key@ =~= manifest_key(day@, channel@));
        }
        key
    }

    /// The items that a manifest stands for: one for each file that it
    /// names, and the manifest itself, which is always transferred.
    pub fn manifest_items(&self, target: String, manifest: &str) -> (r: Result<
        Vec<SnapshotPath>,
        Error,
    >)
        ensures
            match regex_captures_of(URL_PATTERN@, manifest@) {
                Some(matches) => {
                    let urls = group_texts(matches, 1);
                    &&& r matches Ok(items)
                    &&& items@.len() == urls.len() + 1
                    &&& forall|i: int|
                        0 <= i < urls.len() ==> (#[trigger] items@[i]).0@ == file_key(urls[i])
                            && !items@[i].1
                    &&& items@.last().0 == target
                    &&& items@.last().1
                },
                None => r matches Err(e) && e is DecodeError,
            },
    {
        match find_captures(URL_PATTERN, manifest) {
            Some(matches) => {
                let urls = pick_group(&matches, 1);
                let mut items: Vec<SnapshotPath> = Vec::new();
                let n: usize = urls.len();
                let mut i: usize = 0;
                proof {
                    assert(urls.deep_view().len() == urls@.len());
                }
                while i < n
                    invariant
                        i <= n,
                        n == urls@.len(),
                        items@.len() == i,
                        forall|k: int|
                            0 <= k < i ==> (#[trigger] items@[k]).0@ == file_key(urls@[k]@)
                                && !items@[k].1,
                    decreases n - i,
                {
                    items.push(SnapshotPath::new(replace_all(urls[i].as_str(), UPSTREAM, NOTHING)));
                    i += 1;
                }
                items.push(SnapshotPath::force(target));
                proof {
                    assert forall|k: int| 0 <= k < n implies (#[trigger] items@[k]).0@ == file_key(
                        group_texts(matches.deep_view(), 1)[k],
                    ) by {
                        assert(urls.deep_view()[k] == urls@[k]@);
                    }
                }
                Ok(items)
            },
            None => Err(Error::DecodeError(String::from_str("invalid pattern"))),
        }
    }

    /// The items of the manifests that follow the newest release of each
    /// channel, and of their digests. They are always transferred.
    pub fn floating_items(&self) -> (items: Vec<SnapshotPath>)
        ensures
            items@.len() == 6,
            forall|c: int|
                0 <= c < 3 ==> (#[trigger] items@[2 * c]).0@ == DIST@ + CHANNEL@ + channels()[c]
                    + TOML@ && items@[2 * c].1 && items@[2 * c + 1].0@ == DIST@ + CHANNEL@
                    + channels()[c] + TOML_SHA256@ && items@[2 * c + 1].1,
    {
        let mut items: Vec<SnapshotPath> = Vec::new();
        let mut c: usize = 0;
        while c < 3
            invariant
                c <= 3,
                items@.len() == 2 * c,
                forall|k: int|
                    0 <= k < c ==> (#[trigger] items@[2 * k]).0@ == DIST@ + CHANNEL@ + channels()[k]
                        + TOML@ && items@[2 * k].1 && items@[2 * k + 1].0@ == DIST@ + CHANNEL@
                        + channels()[k] + TOML_SHA256@ && items@[2 * k + 1].1,
            decreases 3 - c,
        {
            let name = channel_name(c);
            let mut manifest = String::from_str(DIST);
            manifest.append(CHANNEL);
            manifest.append(name);
            let mut digest = manifest.clone();
            manifest.append(TOML);
            digest.append(TOML_SHA256);
            items.push(SnapshotPath::force(manifest));
            items.push(SnapshotPath::force(digest));
            c += 1;
        }
        items
    }

    /// The address from which the object of an item is fetched.
    pub fn get_object(&self, snapshot: &SnapshotPath) -> (url: TransferURL)
        ensures
            url.0@ == slash_joined(self.base@, snapshot.0@),
    {
        TransferURL(join_slash(self.base.as_str(), snapshot.0.as_str()))
    }
}

} // verus!
