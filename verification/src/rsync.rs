//! The rsync source: the listing of an rsync daemon, line by line, and the
//! HTTP address of each file.

use vstd::prelude::*;
use crate::common::TransferURL;
use crate::error::Error;
use crate::metadata::{MetaView, SnapshotMeta, SnapshotMetaFlag};
use crate::text::{
    all_digits, as_unsigned, concat3, digits_value, find_char, first_of, from_chars, join_slash,
    parse_u64, replace_all, replaced, skip_space, slash_joined, starts_with, to_chars,
    to_unsigned, trimmed_start,
};

verus! {

/// Where the listing comes from and where the files are fetched.
#[derive(Debug)]
pub struct Rsync {
    /// The rsync address that is listed.
    pub rsync_base: String,
    /// The HTTP address under which the same files lie.
    pub http_base: String,
    /// Only the first thousand lines of the listing count.
    pub debug: bool,
    /// Files whose path starts with this are left out, unless it is empty.
    pub ignore_prefix: String,
}

/// How many lines count in debug mode.
pub const DEBUG_LINES: usize = 1000;

/// The five fields of a line of the listing.
pub struct RsyncFields {
    pub permission: String,
    pub size: String,
    pub date: String,
    pub time: String,
    pub file: String,
}

/// A field and what follows it: the field ends at the first blank, and the
/// white space before the next field is dropped.
pub open spec fn next_field(s: Seq<char>) -> Option<(Seq<char>, Seq<char>)> {
    let p = first_of(s, ' ');
    if p < s.len() {
        Some((s.take(p), trimmed_start(s.skip(p + 1))))
    } else {
        None
    }
}

/// The last two fields: the time ends at the first blank, and everything
/// after that blank is the path.
pub open spec fn last_fields(s: Seq<char>) -> Option<(Seq<char>, Seq<char>)> {
    let p = first_of(s, ' ');
    if p < s.len() {
        Some((s.take(p), s.skip(p + 1)))
    } else {
        None
    }
}

/// The fields of a line: permission, size, date, time and path.
pub open spec fn rsync_fields(line: Seq<char>) -> Option<
    (Seq<char>, Seq<char>, Seq<char>, Seq<char>, Seq<char>),
> {
    match next_field(line) {
        None => None,
        Some((permission, rest)) => match next_field(rest) {
            None => None,
            Some((size, rest)) => match next_field(rest) {
                None => None,
                Some((date, rest)) => match last_fields(rest) {
                    None => None,
                    Some((time, file)) => Some((permission, size, date, time, file)),
                },
            },
        },
    }
}

/// Reads the field that starts at `from`; returns where it ends and where
/// the next one starts.
fn read_field(chars: &Vec<char>, from: usize) -> (r: Option<(usize, usize)>)
    requires
        from <= chars@.len(),
    ensures
        match next_field(chars@.skip(from as int)) {
            None => r is None,
            Some((field, rest)) => r matches Some((end, next)) && from <= end < next
                <= chars@.len() && field == chars@.subrange(from as int, end as int) && rest
                == chars@.skip(next as int),
        },
{
    let end = find_char(chars, from, ' ');
    if end == chars.len() {
        return None;
    }
    let next = skip_space(chars, end + 1);
    proof {
        let s = chars@.skip(from as int);
        assert(s.take(end - from) =~= chars@.subrange(from as int, end as int));
        assert(s.skip(end - from + 1) =~= chars@.skip(end + 1));
        assert(chars@.skip(end + 1).skip(next - end - 1) =~= chars@.skip(next as int));
    }
    Some((end, next))
}

/// Splits a line of the listing into its fields.
pub fn parse_rsync_output(line: &str) -> (r: Result<RsyncFields, Error>)
    ensures
        match rsync_fields(line@) {
            None => r matches Err(e) && e is NoneError,
            Some((permission, size, date, time, file)) => r matches Ok(f) && f.permission@
                == permission && f.size@ == size && f.date@ == date && f.time@ == time && f.file@
                == file,
        },
{
    let chars = to_chars(line);
    let n: usize = chars.len();
    proof {
        assert(chars@.skip(0) =~= line@);
    }
    let (p_end, s_from) = match read_field(&chars, 0) {
        Some(x) => x,
        None => {
            return Err(Error::NoneError);
        },
    };
    let (s_end, d_from) = match read_field(&chars, s_from) {
        Some(x) => x,
        None => {
            return Err(Error::NoneError);
        },
    };
    let (d_end, t_from) = match read_field(&chars, d_from) {
        Some(x) => x,
        None => {
            return Err(Error::NoneError);
        },
    };
    let t_end = find_char(&chars, t_from, ' ');
    if t_end == n {
        return Err(Error::NoneError);
    }
    proof {
        let s = chars@.skip(t_from as int);
        assert(s.take(t_end - t_from) =~= chars@.subrange(t_from as int, t_end as int));
        assert(s.skip(t_end - t_from + 1) =~= chars@.subrange(t_end + 1, n as int));
    }
    Ok(
        RsyncFields {
            permission: from_chars(chars.as_slice(), 0, p_end),
            size: from_chars(chars.as_slice(), s_from, s_end),
            date: from_chars(chars.as_slice(), d_from, d_end),
            time: from_chars(chars.as_slice(), t_from, t_end),
            file: from_chars(chars.as_slice(), t_end + 1, n),
        },
    )
}

/// How a listing writes the moment of a file's last change: the date, a
/// space and the time of day.
pub const LISTING_TIME_FORMAT: &'static str = "%Y/%m/%d %H:%M:%S";

pub const SPACE: &'static str = " ";

/// `Local.datetime_from_str` of the crate chrono: the moment that a text
/// names in the time zone of the machine when it is read by the format, in
/// seconds since the epoch; none where the text does not fit the format.
/// Nothing is said of the number: it depends on the zone.
#[verifier::external_body]
#[allow(deprecated)]
pub(crate) fn local_timestamp(text: &str, format: &str) -> Option<i64> {
    chrono::TimeZone::datetime_from_str(&chrono::Local, text, format).ok().map(
        |moment| moment.timestamp(),
    )
}

pub const COMMA: &'static str = ",";

pub const NOTHING: &'static str = "";

pub const FILE_MARK: &'static str = "-r";

pub const LINK_MARK: &'static str = "l";

/// The size that the listing shows: digits, with commas between groups.
pub open spec fn listed_size(size: Seq<char>) -> Option<u64> {
    let digits = replaced(size, COMMA@, NOTHING@);
    if digits.len() > 0 && all_digits(digits) && digits_value(digits) <= u64::MAX {
        Some(digits_value(digits) as u64)
    } else {
        None
    }
}

/// Reads the size of a file as the listing shows it.
pub fn parse_size(size: &str) -> (r: Option<u64>)
    ensures
        r == listed_size(size@),
{
    let digits = replace_all(size, COMMA, NOTHING);
    let chars = to_chars(digits.as_str());
    proof {
        assert(chars@.subrange(0, chars@.len() as int) =~= chars@);
    }
    parse_u64(&chars, 0, chars.len())
}

/// What a line of the listing stands for.
pub enum RsyncLine {
    /// A file that can be read: its item.
    File(SnapshotMeta),
    /// A symbolic link, which is not mirrored: its path.
    Link(String),
    /// Nothing: not a line of a file, a line beyond the debug limit, or a
    /// file under the ignored prefix.
    Nothing,
}

/// `r` is what the fields of a line stand for where files under `ignored`
/// are left out and the date and time of the line name the moment
/// `timestamp`: a file that can be read stands for its item, which needs a
/// size and a moment; a link stands for its path; everything else, and
/// every file under the ignored prefix, stands for nothing.
pub open spec fn line_stands_for(
    ignored: Seq<char>,
    fields: (Seq<char>, Seq<char>, Seq<char>, Seq<char>, Seq<char>),
    timestamp: Option<i64>,
    r: Result<RsyncLine, Error>,
) -> bool {
    let (permission, size, _, _, file) = fields;
    if ignored.len() > 0 && ignored.is_prefix_of(file) {
        r matches Ok(RsyncLine::Nothing)
    } else if FILE_MARK@.is_prefix_of(permission) {
        match (timestamp, listed_size(size)) {
            (Some(t), Some(size)) => r matches Ok(RsyncLine::File(item)) && item@ == (MetaView {
                key: file,
                size: Some(size),
                last_modified: Some(as_unsigned(t)),
                checksum_method: None,
                checksum: None,
                force: false,
                force_last: false,
            }),
            _ => r matches Err(e) && e is DecodeError,
        }
    } else if LINK_MARK@.is_prefix_of(permission) {
        r matches Ok(RsyncLine::Link(path)) && path@ == file
    } else {
        r matches Ok(RsyncLine::Nothing)
    }
}

impl Rsync {
    /// Whether the line with this number, counted from one, is read at all.
    pub fn reads_line(&self, index: usize) -> (r: bool)
        ensures
            r == !(self.debug && index > DEBUG_LINES),
    {
        !(self.debug && index > DEBUG_LINES)
    }

    /// Whether a file is left out for its path.
    pub fn ignores(&self, file: &str) -> (r: bool)
        ensures
            r == (self.ignore_prefix@.len() > 0 && self.ignore_prefix@.is_prefix_of(file@)),
    {
        let n = self.ignore_prefix.as_str().unicode_len();
        n > 0 && starts_with(file, self.ignore_prefix.as_str())
    }

    /// What the fields of a line stand for, the moment that its date and
    /// time name being `timestamp` if they name one. A file needs a size
    /// and a moment that can be read.
    pub fn classify(&self, fields: RsyncFields, timestamp: Option<i64>) -> (r: Result<
        RsyncLine,
        Error,
    >)
        ensures
            line_stands_for(
                self.ignore_prefix@,
                (fields.permission@, fields.size@, fields.date@, fields.time@, fields.file@),
                timestamp,
                r,
            ),
    {
        if self.ignores(fields.file.as_str()) {
            return Ok(RsyncLine::Nothing);
        }
        if starts_with(fields.permission.as_str(), FILE_MARK) {
            let size = parse_size(fields.size.as_str());
            match (timestamp, size) {
                (Some(t), Some(size)) => Ok(
                    RsyncLine::File(
                        SnapshotMeta {
                            key: fields.file,
                            size: Some(size),
                            last_modified: Some(to_unsigned(t)),
                            checksum_method: None,
                            checksum: None,
                            flags: SnapshotMetaFlag { force: false, force_last: false },
                        },
                    ),
                ),
                _ => Err(Error::DecodeError(String::from_str("unreadable line of the listing"))),
            }
        } else if starts_with(fields.permission.as_str(), LINK_MARK) {
            Ok(RsyncLine::Link(fields.file))
        } else {
            Ok(RsyncLine::Nothing)
        }
    }

    /// Reads one line of the listing, the `index`-th counted from one. A
    /// line beyond the debug limit and a line that does not split into five
    /// fields stand for nothing; any other line stands for what its fields
    /// say, with the moment that its date and time name on this machine.
    pub fn snapshot_line(&self, line: &str, index: usize) -> (r: Result<RsyncLine, Error>)
        ensures
            self.debug && index > DEBUG_LINES || rsync_fields(line@) is None ==> r
                matches Ok(RsyncLine::Nothing),
            !(self.debug && index > DEBUG_LINES) ==> match rsync_fields(line@) {
                Some(fields) => exists|timestamp: Option<i64>| #[trigger]
                    line_stands_for(self.ignore_prefix@, fields, timestamp, r),
                None => true,
            },
    {
        if !self.reads_line(index) {
            return Ok(RsyncLine::Nothing);
        }
        match parse_rsync_output(line) {
            Err(_) => Ok(RsyncLine::Nothing),
            Ok(fields) => {
                let moment = concat3(fields.date.as_str(), SPACE, fields.time.as_str());
                let timestamp = local_timestamp(moment.as_str(), LISTING_TIME_FORMAT);
                let ghost views = (
                    fields.permission@,
                    fields.size@,
                    fields.date@,
                    fields.time@,
                    fields.file@,
                );
                let r = self.classify(fields, timestamp);
                proof {
                    assert(line_stands_for(self.ignore_prefix@, views, timestamp, r));
                }
                r
            },
        }
    }

    /// The address from which the object of an item is fetched.
    pub fn get_object(&self, snapshot: &SnapshotMeta) -> (url: TransferURL)
        ensures
            url.0@ == slash_joined(self.http_base@, snapshot.key@),
    {
        TransferURL(join_slash(self.http_base.as_str(), snapshot.key.as_str()))
    }
}

} // verus!
