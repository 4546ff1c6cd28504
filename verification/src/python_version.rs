//! The versions of Python packages: how they are written, what they stand
//! for and how they are ordered.

use vstd::prelude::*;
use crate::text::{compare_str, decimal, digits_value, parse_u64, push_decimal, to_chars, KeyOrder};

verus! {

/// The kind of a release that comes before the final one, and its number.
#[derive(Debug, Copy, Clone, PartialEq, Eq, Structural)]
pub enum PreRelease {
    Alpha(u32),
    Beta(u32),
    RC(u32),
}

/// A version: epoch, release numbers, and what marks it as being before or
/// after the release.
#[derive(Debug)]
pub struct Version {
    pub epoch: u32,
    /// The numbers of the release, without the zeros at the end.
    pub chunks: Vec<u32>,
    pub pre: Option<PreRelease>,
    pub post: Option<u32>,
    pub dev: Option<u32>,
    /// The local part, its components parted by dots.
    pub local: Option<String>,
}

/// What a version is, as plain values.
pub struct VersionView {
    pub epoch: u32,
    pub chunks: Seq<u32>,
    pub pre: Option<PreRelease>,
    pub post: Option<u32>,
    pub dev: Option<u32>,
    pub local: Option<Seq<char>>,
}

impl View for Version {
    type V = VersionView;

    open spec fn view(&self) -> VersionView {
        VersionView {
            epoch: self.epoch,
            chunks: self.chunks@,
            pre: self.pre,
            post: self.post,
            dev: self.dev,
            local: match self.local {
                Some(l) => Some(l@),
                None => None,
            },
        }
    }
}

pub open spec fn is_digit(c: char) -> bool {
    '0' <= c <= '9'
}

/// White space at either end of a version.
pub open spec fn is_blank(c: char) -> bool {
    c == ' ' || c == '\t' || c == '\n' || c == '\r' || c == '\x0b' || c == '\x0c'
}

/// What may part the components of a version.
pub open spec fn is_separator(c: char) -> bool {
    c == '.' || c == '_' || c == '-'
}

/// What a local part is made of.
pub open spec fn is_local_char(c: char) -> bool {
    ('0' <= c <= '9') || ('a' <= c <= 'z') || ('A' <= c <= 'Z') || c == '-' || c == '_' || c == '.'
}

/// Where the digits that start at `from` end.
pub open spec fn digits_end(s: Seq<char>, from: int) -> int
    decreases s.len() - from,
{
    if 0 <= from < s.len() && is_digit(s[from]) {
        digits_end(s, from + 1)
    } else {
        from
    }
}

/// Where the white space that starts at `from` ends.
pub open spec fn blank_end(s: Seq<char>, from: int) -> int
    decreases s.len() - from,
{
    if 0 <= from < s.len() && is_blank(s[from]) {
        blank_end(s, from + 1)
    } else {
        from
    }
}

/// Where the local part that starts at `from` ends.
pub open spec fn local_end(s: Seq<char>, from: int) -> int
    decreases s.len() - from,
{
    if 0 <= from < s.len() && is_local_char(s[from]) {
        local_end(s, from + 1)
    } else {
        from
    }
}

/// The number written at `from`, and where it ends: one digit or more,
/// with a value below 2^32.
pub open spec fn number_at(s: Seq<char>, from: int) -> Option<(u32, int)> {
    let end = digits_end(s, from);
    if 0 <= from < end <= s.len() && digits_value(s.subrange(from, end)) <= u32::MAX {
        Some((digits_value(s.subrange(from, end)) as u32, end))
    } else {
        None
    }
}

/// The position after a separator at `pos`, or `pos` if there is none.
pub open spec fn after_separator(s: Seq<char>, pos: int) -> int {
    if 0 <= pos < s.len() && is_separator(s[pos]) {
        pos + 1
    } else {
        pos
    }
}

/// The lower-case letter for an upper-case letter of ASCII.
pub open spec fn lower(c: char) -> char {
    if 'A' <= c <= 'Z' {
        ((c as u32) + 32) as u8 as char
    } else {
        c
    }
}

/// Whether `word`, which is in lower case, stands at `pos`, in either case.
pub open spec fn word_at(s: Seq<char>, pos: int, word: Seq<char>) -> bool {
    &&& 0 <= pos
    &&& pos + word.len() <= s.len()
    &&& forall|i: int| 0 <= i < word.len() ==> lower(#[trigger] s[pos + i]) == word[i]
}

pub const ALPHA: &'static str = "alpha";

pub const A: &'static str = "a";

pub const BETA: &'static str = "beta";

pub const B: &'static str = "b";

pub const RC: &'static str = "rc";

pub const C: &'static str = "c";

pub const PREVIEW: &'static str = "preview";

pub const PRE: &'static str = "pre";

pub const POST: &'static str = "post";

pub const REV: &'static str = "rev";

pub const R: &'static str = "r";

pub const DEV: &'static str = "dev";

/// The kinds of pre-release.
#[derive(Debug, Copy, Clone, PartialEq, Eq, Structural)]
pub enum PreKind {
    Alpha,
    Beta,
    RC,
}

/// The word for a pre-release at `pos`, and where it ends. Of the words
/// for one kind, the longer is tried first.
pub open spec fn pre_word_at(s: Seq<char>, pos: int) -> Option<(PreKind, int)> {
    if word_at(s, pos, ALPHA@) {
        Some((PreKind::Alpha, pos + ALPHA@.len()))
    } else if word_at(s, pos, A@) {
        Some((PreKind::Alpha, pos + A@.len()))
    } else if word_at(s, pos, BETA@) {
        Some((PreKind::Beta, pos + BETA@.len()))
    } else if word_at(s, pos, B@) {
        Some((PreKind::Beta, pos + B@.len()))
    } else if word_at(s, pos, RC@) {
        Some((PreKind::RC, pos + RC@.len()))
    } else if word_at(s, pos, C@) {
        Some((PreKind::RC, pos + C@.len()))
    } else if word_at(s, pos, PREVIEW@) {
        Some((PreKind::RC, pos + PREVIEW@.len()))
    } else if word_at(s, pos, PRE@) {
        Some((PreKind::RC, pos + PRE@.len()))
    } else {
        None
    }
}

/// The number that may follow a word, after a separator or without one, and
/// where it ends; zero, at `pos`, if no number follows.
pub open spec fn optional_number(s: Seq<char>, pos: int) -> (u32, int) {
    match number_at(s, after_separator(s, pos)) {
        Some(found) => found,
        None => (0, pos),
    }
}

pub open spec fn pre_of(kind: PreKind, n: u32) -> PreRelease {
    match kind {
        PreKind::Alpha => PreRelease::Alpha(n),
        PreKind::Beta => PreRelease::Beta(n),
        PreKind::RC => PreRelease::RC(n),
    }
}

/// The pre-release written at `pos`: a separator or none, a word, and a
/// number or none.
pub open spec fn pre_release_at(s: Seq<char>, pos: int) -> Option<(PreRelease, int)> {
    match pre_word_at(s, after_separator(s, pos)) {
        Some((kind, end)) => {
            let (n, end) = optional_number(s, end);
            Some((pre_of(kind, n), end))
        },
        None => None,
    }
}

/// The word for a post-release at `pos`, and where it ends.
pub open spec fn post_word_at(s: Seq<char>, pos: int) -> Option<int> {
    if word_at(s, pos, POST@) {
        Some(pos + POST@.len())
    } else if word_at(s, pos, REV@) {
        Some(pos + REV@.len())
    } else if word_at(s, pos, R@) {
        Some(pos + R@.len())
    } else {
        None
    }
}

/// The post-release written at `pos`: a separator or none, then a word and
/// a number or none, or after a dash a number alone.
pub open spec fn post_release_at(s: Seq<char>, pos: int) -> Option<(u32, int)> {
    let start = after_separator(s, pos);
    match post_word_at(s, start) {
        Some(end) => Some(optional_number(s, end)),
        None => if start > pos && s[pos] == '-' {
            number_at(s, after_separator(s, start))
        } else {
            None
        },
    }
}

/// The development release written at `pos`: a separator or none, the
/// word, and a number or none right after it.
pub open spec fn dev_release_at(s: Seq<char>, pos: int) -> Option<(u32, int)> {
    let start = after_separator(s, pos);
    if word_at(s, start, DEV@) {
        match number_at(s, start + DEV@.len()) {
            Some(found) => Some(found),
            None => Some((0, start + DEV@.len())),
        }
    } else {
        None
    }
}

/// The local part written at `pos`: a plus and one character or more, the
/// dashes and underscores turned into dots.
pub open spec fn local_at(s: Seq<char>, pos: int) -> Option<(Seq<char>, int)> {
    if 0 <= pos < s.len() && s[pos] == '+' && local_end(s, pos + 1) > pos + 1 {
        Some((dotted(s.subrange(pos + 1, local_end(s, pos + 1))), local_end(s, pos + 1)))
    } else {
        None
    }
}

/// `s` with every dash and underscore turned into a dot.
pub open spec fn dotted(s: Seq<char>) -> Seq<char> {
    s.map_values(
        |c: char|
            if c == '-' || c == '_' {
                '.'
            } else {
                c
            },
    )
}

/// The epoch written at `pos`, a number and an exclamation mark, and where
/// it ends; zero, at `pos`, if none is written.
pub open spec fn epoch_at(s: Seq<char>, pos: int) -> (u32, int) {
    match number_at(s, pos) {
        Some((n, end)) => if end < s.len() && s[end] == '!' {
            (n, end + 1)
        } else {
            (0, pos)
        },
        None => (0, pos),
    }
}

/// The numbers that follow `acc` from `pos` on, each after a dot, and where
/// they end.
pub open spec fn more_chunks(s: Seq<char>, pos: int, acc: Seq<u32>) -> (Seq<u32>, int)
    decreases s.len() - pos,
{
    if 0 <= pos < s.len() && s[pos] == '.' {
        match number_at(s, pos + 1) {
            Some((n, end)) => more_chunks(s, end, acc.push(n)),
            None => (acc, pos),
        }
    } else {
        (acc, pos)
    }
}

/// The release numbers written at `pos`: one number or more, with dots
/// between.
pub open spec fn chunks_at(s: Seq<char>, pos: int) -> Option<(Seq<u32>, int)> {
    match number_at(s, pos) {
        Some((n, end)) => Some(more_chunks(s, end, seq![n])),
        None => None,
    }
}

/// The length of the numbers up to the last that is not zero.
pub open spec fn to_last_nonzero(chunks: Seq<u32>) -> int
    decreases chunks.len(),
{
    if chunks.len() == 0 {
        0
    } else if chunks.last() != 0 {
        chunks.len() as int
    } else {
        to_last_nonzero(chunks.drop_last())
    }
}

/// How many of the numbers count: all up to the last that is not zero, and
/// all of them if every one is zero.
pub open spec fn significant(chunks: Seq<u32>) -> int {
    if to_last_nonzero(chunks) == 0 {
        chunks.len() as int
    } else {
        to_last_nonzero(chunks)
    }
}

/// What follows `pos` if the optional part is there, and `pos` if not.
pub open spec fn end_of<T>(part: Option<(T, int)>, pos: int) -> int {
    match part {
        Some((_, end)) => end,
        None => pos,
    }
}

pub open spec fn value_of<T>(part: Option<(T, int)>) -> Option<T> {
    match part {
        Some((value, _)) => Some(value),
        None => None,
    }
}

/// The version that a text stands for: white space, a `v` or none, an
/// epoch or none, the release numbers, then a pre-release, a post-release,
/// a development release and a local part, each or none, and white space;
/// none where the text is not written so.
pub open spec fn version_of(s: Seq<char>) -> Option<VersionView> {
    let lead = blank_end(s, 0);
    let after_v = if lead < s.len() && s[lead] == 'v' {
        lead + 1
    } else {
        lead
    };
    let (epoch, after_epoch) = epoch_at(s, after_v);
    match chunks_at(s, after_epoch) {
        None => None,
        Some((chunks, after_chunks)) => {
            let pre = pre_release_at(s, after_chunks);
            let after_pre = end_of(pre, after_chunks);
            let post = post_release_at(s, after_pre);
            let after_post = end_of(post, after_pre);
            let dev = dev_release_at(s, after_post);
            let after_dev = end_of(dev, after_post);
            let local = local_at(s, after_dev);
            let after_local = end_of(local, after_dev);
            if blank_end(s, after_local) == s.len() {
                Some(
                    VersionView {
                        epoch,
                        chunks: chunks.take(significant(chunks)),
                        pre: value_of(pre),
                        post: value_of(post),
                        dev: value_of(dev),
                        local: value_of(local),
                    },
                )
            } else {
                None
            }
        },
    }
}

fn scan_digits(chars: &Vec<char>, from: usize) -> (end: usize)
    requires
        from <= chars@.len(),
    ensures
        from <= end <= chars@.len(),
        end == digits_end(chars@, from as int),
        forall|i: int| from <= i < end ==> is_digit(chars@[i]),
{
    let n: usize = chars.len();
    let mut end: usize = from;
    while end < n && '0' <= chars[end] && chars[end] <= '9'
        invariant
            from <= end <= n,
            n == chars@.len(),
            digits_end(chars@, from as int) == digits_end(chars@, end as int),
            forall|i: int| from <= i < end ==> is_digit(chars@[i]),
        decreases n - end,
    {
        end += 1;
    }
    end
}

fn scan_blank(chars: &Vec<char>, from: usize) -> (end: usize)
    requires
        from <= chars@.len(),
    ensures
        from <= end <= chars@.len(),
        end == blank_end(chars@, from as int),
{
    let n: usize = chars.len();
    let mut end: usize = from;
    while end < n && (chars[end] == ' ' || chars[end] == '\t' || chars[end] == '\n' || chars[end]
        == '\r' || chars[end] == '\x0b' || chars[end] == '\x0c')
        invariant
            from <= end <= n,
            n == chars@.len(),
            blank_end(chars@, from as int) == blank_end(chars@, end as int),
        decreases n - end,
    {
        end += 1;
    }
    end
}

fn local_char(c: char) -> (r: bool)
    ensures
        r == is_local_char(c),
{
    ('0' <= c && c <= '9') || ('a' <= c && c <= 'z') || ('A' <= c && c <= 'Z') || c == '-' || c
        == '_' || c == '.'
}

fn scan_local(chars: &Vec<char>, from: usize) -> (end: usize)
    requires
        from <= chars@.len(),
    ensures
        from <= end <= chars@.len(),
        end == local_end(chars@, from as int),
{
    let n: usize = chars.len();
    let mut end: usize = from;
    while end < n && local_char(chars[end])
        invariant
            from <= end <= n,
            n == chars@.len(),
            local_end(chars@, from as int) == local_end(chars@, end as int),
        decreases n - end,
    {
        end += 1;
    }
    end
}

fn read_number(chars: &Vec<char>, from: usize) -> (r: Option<(u32, usize)>)
    requires
        from <= chars@.len(),
    ensures
        r is Some == number_at(chars@, from as int) is Some,
        r matches Some((n, end)) ==> number_at(chars@, from as int) == Some((n, end as int))
            && from < end <= chars@.len(),
{
    let end = scan_digits(chars, from);
    if end == from {
        return None;
    }
    proof {
        let digits = chars@.subrange(from as int, end as int);
        assert forall|i: int| 0 <= i < digits.len() implies '0' <= #[trigger] digits[i] <= '9' by {
            assert(is_digit(chars@[from + i]));
        }
    }
    match parse_u64(chars, from, end) {
        Some(n) => {
            if n <= 0xffff_ffff {
                Some((n as u32, end))
            } else {
                None
            }
        },
        None => None,
    }
}

fn skip_separator(chars: &Vec<char>, pos: usize) -> (next: usize)
    requires
        pos <= chars@.len(),
    ensures
        next == after_separator(chars@, pos as int),
        pos <= next <= chars@.len(),
{
    if pos < chars.len() && (chars[pos] == '.' || chars[pos] == '_' || chars[pos] == '-') {
        pos + 1
    } else {
        pos
    }
}

fn to_lower(c: char) -> (r: char)
    ensures
        r == lower(c),
{
    if 'A' <= c && c <= 'Z' {
        let u: u8 = c as u8;
        (u + 32) as char
    } else {
        c
    }
}

fn has_word(chars: &Vec<char>, pos: usize, word: &str) -> (r: Option<usize>)
    requires
        pos <= chars@.len(),
    ensures
        r is Some == word_at(chars@, pos as int, word@),
        r matches Some(end) ==> end == pos + word@.len() && end <= chars@.len(),
{
    let w = to_chars(word);
    let m: usize = w.len();
    if chars.len() - pos < m {
        return None;
    }
    let mut i: usize = 0;
    while i < m
        invariant
            i <= m,
            m == w@.len(),
            w@ == word@,
            pos + m <= chars@.len(),
            chars@.len() <= usize::MAX,
            forall|k: int| 0 <= k < i ==> lower(#[trigger] chars@[pos + k]) == word@[k],
        decreases m - i,
    {
        if to_lower(chars[pos + i]) != w[i] {
            return None;
        }
        i += 1;
    }
    Some(pos + m)
}

fn read_pre_word(chars: &Vec<char>, pos: usize) -> (r: Option<(PreKind, usize)>)
    requires
        pos <= chars@.len(),
    ensures
        r is Some == pre_word_at(chars@, pos as int) is Some,
        r matches Some((kind, end)) ==> pre_word_at(chars@, pos as int) == Some((kind, end as int))
            && pos <= end <= chars@.len(),
{
    if let Some(end) = has_word(chars, pos, ALPHA) {
        Some((PreKind::Alpha, end))
    } else if let Some(end) = has_word(chars, pos, A) {
        Some((PreKind::Alpha, end))
    } else if let Some(end) = has_word(chars, pos, BETA) {
        Some((PreKind::Beta, end))
    } else if let Some(end) = has_word(chars, pos, B) {
        Some((PreKind::Beta, end))
    } else if let Some(end) = has_word(chars, pos, RC) {
        Some((PreKind::RC, end))
    } else if let Some(end) = has_word(chars, pos, C) {
        Some((PreKind::RC, end))
    } else if let Some(end) = has_word(chars, pos, PREVIEW) {
        Some((PreKind::RC, end))
    } else if let Some(end) = has_word(chars, pos, PRE) {
        Some((PreKind::RC, end))
    } else {
        None
    }
}

fn read_optional_number(chars: &Vec<char>, pos: usize) -> (r: (u32, usize))
    requires
        pos <= chars@.len(),
    ensures
        optional_number(chars@, pos as int) == (r.0, r.1 as int),
        pos <= r.1 <= chars@.len(),
{
    let start = skip_separator(chars, pos);
    match read_number(chars, start) {
        Some(found) => found,
        None => (0, pos),
    }
}

fn read_pre_release(chars: &Vec<char>, pos: usize) -> (r: Option<(PreRelease, usize)>)
    requires
        pos <= chars@.len(),
    ensures
        r is Some == pre_release_at(chars@, pos as int) is Some,
        r matches Some((pre, end)) ==> pre_release_at(chars@, pos as int) == Some((pre, end as int))
            && pos <= end <= chars@.len(),
{
    let start = skip_separator(chars, pos);
    match read_pre_word(chars, start) {
        Some((kind, end)) => {
            let (n, end) = read_optional_number(chars, end);
            let pre = match kind {
                PreKind::Alpha => PreRelease::Alpha(n),
                PreKind::Beta => PreRelease::Beta(n),
                PreKind::RC => PreRelease::RC(n),
            };
            Some((pre, end))
        },
        None => None,
    }
}

fn read_post_word(chars: &Vec<char>, pos: usize) -> (r: Option<usize>)
    requires
        pos <= chars@.len(),
    ensures
        r is Some == post_word_at(chars@, pos as int) is Some,
        r matches Some(end) ==> post_word_at(chars@, pos as int) == Some(end as int) && pos <= end
            <= chars@.len(),
{
    if let Some(end) = has_word(chars, pos, POST) {
        Some(end)
    } else if let Some(end) = has_word(chars, pos, REV) {
        Some(end)
    } else if let Some(end) = has_word(chars, pos, R) {
        Some(end)
    } else {
        None
    }
}

fn read_post_release(chars: &Vec<char>, pos: usize) -> (r: Option<(u32, usize)>)
    requires
        pos <= chars@.len(),
    ensures
        r is Some == post_release_at(chars@, pos as int) is Some,
        r matches Some((n, end)) ==> post_release_at(chars@, pos as int) == Some((n, end as int))
            && pos <= end <= chars@.len(),
{
    let start = skip_separator(chars, pos);
    match read_post_word(chars, start) {
        Some(end) => Some(read_optional_number(chars, end)),
        None => {
            if start > pos && chars[pos] == '-' {
                let from = skip_separator(chars, start);
                read_number(chars, from)
            } else {
                None
            }
        },
    }
}

fn read_dev_release(chars: &Vec<char>, pos: usize) -> (r: Option<(u32, usize)>)
    requires
        pos <= chars@.len(),
    ensures
        r is Some == dev_release_at(chars@, pos as int) is Some,
        r matches Some((n, end)) ==> dev_release_at(chars@, pos as int) == Some((n, end as int))
            && pos <= end <= chars@.len(),
{
    let start = skip_separator(chars, pos);
    if let Some(after) = has_word(chars, start, DEV) {
        match read_number(chars, after) {
            Some(found) => Some(found),
            None => Some((0, after)),
        }
    } else {
        None
    }
}

fn read_local(chars: &Vec<char>, pos: usize) -> (r: Option<(String, usize)>)
    requires
        pos <= chars@.len(),
    ensures
        r is Some == local_at(chars@, pos as int) is Some,
        r matches Some((text, end)) ==> local_at(chars@, pos as int) == Some((text@, end as int))
            && pos <= end <= chars@.len(),
{
    if pos < chars.len() && chars[pos] == '+' {
        let end = scan_local(chars, pos + 1);
        if end > pos + 1 {
            let mut text = String::new();
            let mut i: usize = pos + 1;
            let ghost part = chars@.subrange(pos + 1, end as int);
            proof {
                assert(part.take(0) =~= Seq::<char>::empty());
                assert(dotted(part.take(0)) =~= Seq::<char>::empty());
            }
            while i < end
                invariant
                    pos + 1 <= i <= end <= chars@.len(),
                    part == chars@.subrange(pos + 1, end as int),
                    text@ == dotted(part.take(i - pos - 1)),
                decreases end - i,
            {
                let c = chars[i];
                let d = if c == '-' || c == '_' {
                    '.'
                } else {
                    c
                };
                text.push(d);
                proof {
                    assert(dotted(part.take(i - pos)) =~= dotted(part.take(i - pos - 1)).push(d));
                }
                i += 1;
            }
            proof {
                assert(part.take(end - pos - 1) =~= part);
            }
            Some((text, end))
        } else {
            None
        }
    } else {
        None
    }
}

fn read_epoch(chars: &Vec<char>, pos: usize) -> (r: (u32, usize))
    requires
        pos <= chars@.len(),
    ensures
        epoch_at(chars@, pos as int) == (r.0, r.1 as int),
        pos <= r.1 <= chars@.len(),
{
    match read_number(chars, pos) {
        Some((n, end)) => {
            if end < chars.len() && chars[end] == '!' {
                (n, end + 1)
            } else {
                (0, pos)
            }
        },
        None => (0, pos),
    }
}

fn read_chunks(chars: &Vec<char>, pos: usize) -> (r: Option<(Vec<u32>, usize)>)
    requires
        pos <= chars@.len(),
    ensures
        r is Some == chunks_at(chars@, pos as int) is Some,
        r matches Some((chunks, end)) ==> chunks_at(chars@, pos as int) == Some(
            (chunks@, end as int),
        ) && pos <= end <= chars@.len(),
{
    let (first, start) = match read_number(chars, pos) {
        Some(found) => found,
        None => {
            return None;
        },
    };
    let mut chunks: Vec<u32> = Vec::new();
    chunks.push(first);
    let mut end: usize = start;
    let n: usize = chars.len();
    proof {
        assert(chunks@ =~= seq![first]);
    }
    loop
        invariant
            pos <= end <= n,
            n == chars@.len(),
            more_chunks(chars@, start as int, seq![first]) == more_chunks(
                chars@,
                end as int,
                chunks@,
            ),
        ensures
            pos <= end <= n,
            more_chunks(chars@, start as int, seq![first]) == (chunks@, end as int),
        decreases n - end,
    {
        if end < n && chars[end] == '.' {
            match read_number(chars, end + 1) {
                Some((value, next)) => {
                    chunks.push(value);
                    end = next;
                },
                None => {
                    break ;
                },
            }
        } else {
            break ;
        }
    }
    Some((chunks, end))
}

/// Drops the zeros at the end of the release numbers, unless all are zero.
fn trim_chunks(chunks: &mut Vec<u32>)
    ensures
        final(chunks)@ == old(chunks)@.take(significant(old(chunks)@)),
{
    let ghost all = chunks@;
    let mut n: usize = chunks.len();
    proof {
        assert(all.take(n as int) =~= all);
    }
    while n > 0 && chunks[n - 1] == 0
        invariant
            n <= chunks@.len(),
            chunks@ == all,
            to_last_nonzero(all) == to_last_nonzero(all.take(n as int)),
        decreases n,
    {
        proof {
            assert(all.take(n as int).drop_last() =~= all.take(n - 1));
        }
        n -= 1;
    }
    proof {
        if n > 0 {
            assert(all.take(n as int).last() == all[n - 1]);
        }
    }
    if n > 0 {
        chunks.truncate(n);
        proof {
            assert(chunks@ =~= all.take(n as int));
        }
    } else {
        proof {
            assert(all.take(all.len() as int) =~= all);
        }
    }
}

impl Version {
    /// Reads a version.
    pub fn parse(s: &str) -> (r: Option<Version>)
        ensures
            r is Some == version_of(s@) is Some,
            r matches Some(v) ==> Some(v@) == version_of(s@),
    {
        let chars = to_chars(s);
        let n: usize = chars.len();
        let lead = scan_blank(&chars, 0);
        let after_v = if lead < n && chars[lead] == 'v' {
            lead + 1
        } else {
            lead
        };
        let (epoch, after_epoch) = read_epoch(&chars, after_v);
        let (mut chunks, after_chunks) = match read_chunks(&chars, after_epoch) {
            Some(found) => found,
            None => {
                return None;
            },
        };
        let (pre, after_pre) = match read_pre_release(&chars, after_chunks) {
            Some((pre, end)) => (Some(pre), end),
            None => (None, after_chunks),
        };
        let (post, after_post) = match read_post_release(&chars, after_pre) {
            Some((post, end)) => (Some(post), end),
            None => (None, after_pre),
        };
        let (dev, after_dev) = match read_dev_release(&chars, after_post) {
            Some((dev, end)) => (Some(dev), end),
            None => (None, after_post),
        };
        let (local, after_local) = match read_local(&chars, after_dev) {
            Some((local, end)) => (Some(local), end),
            None => (None, after_dev),
        };
        if scan_blank(&chars, after_local) != n {
            return None;
        }
        trim_chunks(&mut chunks);
        Some(Version { epoch, chunks, pre, post, dev, local })
    }

    /// Whether the version is neither a pre-release nor a development
    /// release.
    pub fn is_stable(&self) -> (r: bool)
        ensures
            r == (self.pre is None && self.dev is None),
    {
        self.pre.is_none() && self.dev.is_none()
    }
}

/// The first order that tells two things apart.
pub open spec fn first_of(a: KeyOrder, b: KeyOrder) -> KeyOrder {
    if a == KeyOrder::Same {
        b
    } else {
        a
    }
}

pub open spec fn number_order(a: int, b: int) -> KeyOrder {
    if a < b {
        KeyOrder::Before
    } else if a == b {
        KeyOrder::Same
    } else {
        KeyOrder::After
    }
}

/// Release numbers compare one by one, and of two lists that agree as far
/// as the shorter goes, the shorter comes first.
pub open spec fn chunks_order(a: Seq<u32>, b: Seq<u32>) -> KeyOrder
    decreases a.len(),
{
    if a.len() == 0 {
        if b.len() == 0 {
            KeyOrder::Same
        } else {
            KeyOrder::Before
        }
    } else if b.len() == 0 {
        KeyOrder::After
    } else if a[0] != b[0] {
        number_order(a[0] as int, b[0] as int)
    } else {
        chunks_order(a.drop_first(), b.drop_first())
    }
}

pub open spec fn pre_rank(p: PreRelease) -> (int, int) {
    match p {
        PreRelease::Alpha(n) => (0, n as int),
        PreRelease::Beta(n) => (1, n as int),
        PreRelease::RC(n) => (2, n as int),
    }
}

/// Alpha before beta before release candidate, and within one kind by
/// number.
pub open spec fn pre_order(a: PreRelease, b: PreRelease) -> KeyOrder {
    first_of(
        number_order(pre_rank(a).0, pre_rank(b).0),
        number_order(pre_rank(a).1, pre_rank(b).1),
    )
}

/// A pre-release comes before the release.
pub open spec fn optional_pre_order(a: Option<PreRelease>, b: Option<PreRelease>) -> KeyOrder {
    match (a, b) {
        (Some(x), Some(y)) => pre_order(x, y),
        (Some(_), None) => KeyOrder::Before,
        (None, Some(_)) => KeyOrder::After,
        (None, None) => KeyOrder::Same,
    }
}

/// A post-release comes after the release.
pub open spec fn post_order(a: Option<u32>, b: Option<u32>) -> KeyOrder {
    match (a, b) {
        (Some(x), Some(y)) => number_order(x as int, y as int),
        (Some(_), None) => KeyOrder::After,
        (None, Some(_)) => KeyOrder::Before,
        (None, None) => KeyOrder::Same,
    }
}

/// A development release comes before what it develops.
pub open spec fn dev_order(a: Option<u32>, b: Option<u32>) -> KeyOrder {
    match (a, b) {
        (Some(x), Some(y)) => number_order(x as int, y as int),
        (Some(_), None) => KeyOrder::Before,
        (None, Some(_)) => KeyOrder::After,
        (None, None) => KeyOrder::Same,
    }
}

/// A version with a local part comes after the one without, and local
/// parts compare as strings.
pub open spec fn local_order(a: Option<Seq<char>>, b: Option<Seq<char>>) -> KeyOrder {
    match (a, b) {
        (Some(x), Some(y)) => crate::text::spec_compare(x, y),
        (Some(_), None) => KeyOrder::After,
        (None, Some(_)) => KeyOrder::Before,
        (None, None) => KeyOrder::Same,
    }
}

/// How two versions compare: by epoch, then by release numbers, then by
/// pre-release, post-release, development release and local part.
pub open spec fn version_order(a: VersionView, b: VersionView) -> KeyOrder {
    first_of(
        number_order(a.epoch as int, b.epoch as int),
        first_of(
            chunks_order(a.chunks, b.chunks),
            first_of(
                optional_pre_order(a.pre, b.pre),
                first_of(
                    post_order(a.post, b.post),
                    first_of(dev_order(a.dev, b.dev), local_order(a.local, b.local)),
                ),
            ),
        ),
    )
}

fn compare_numbers(a: u32, b: u32) -> (o: KeyOrder)
    ensures
        o == number_order(a as int, b as int),
{
    if a < b {
        KeyOrder::Before
    } else if a == b {
        KeyOrder::Same
    } else {
        KeyOrder::After
    }
}

fn compare_chunks(a: &Vec<u32>, b: &Vec<u32>) -> (o: KeyOrder)
    ensures
        o == chunks_order(a@, b@),
{
    let n: usize = a.len();
    let m: usize = b.len();
    let mut i: usize = 0;
    proof {
        assert(a@.skip(0) =~= a@);
        assert(b@.skip(0) =~= b@);
    }
    while i < n && i < m
        invariant
            i <= n,
            i <= m,
            n == a@.len(),
            m == b@.len(),
            chunks_order(a@, b@) == chunks_order(a@.skip(i as int), b@.skip(i as int)),
        decreases n - i,
    {
        proof {
            assert(a@.skip(i as int).drop_first() =~= a@.skip(i + 1));
            assert(b@.skip(i as int).drop_first() =~= b@.skip(i + 1));
            assert(a@.skip(i as int)[0] == a@[i as int]);
            assert(b@.skip(i as int)[0] == b@[i as int]);
        }
        if a[i] != b[i] {
            return compare_numbers(a[i], b[i]);
        }
        i += 1;
    }
    if i == n {
        if i == m {
            KeyOrder::Same
        } else {
            KeyOrder::Before
        }
    } else {
        KeyOrder::After
    }
}

fn compare_pre(a: &Option<PreRelease>, b: &Option<PreRelease>) -> (o: KeyOrder)
    ensures
        o == optional_pre_order(*a, *b),
{
    match (a, b) {
        (Some(x), Some(y)) => {
            let (rx, nx): (u32, u32) = match x {
                PreRelease::Alpha(n) => (0, *n),
                PreRelease::Beta(n) => (1, *n),
                PreRelease::RC(n) => (2, *n),
            };
            let (ry, ny): (u32, u32) = match y {
                PreRelease::Alpha(n) => (0, *n),
                PreRelease::Beta(n) => (1, *n),
                PreRelease::RC(n) => (2, *n),
            };
            match compare_numbers(rx, ry) {
                KeyOrder::Same => compare_numbers(nx, ny),
                o => o,
            }
        },
        (Some(_), None) => KeyOrder::Before,
        (None, Some(_)) => KeyOrder::After,
        (None, None) => KeyOrder::Same,
    }
}

pub const ALPHA_MARK: &'static str = "a";

pub const BETA_MARK: &'static str = "b";

pub const RC_MARK: &'static str = "rc";

pub const POST_MARK: &'static str = ".post";

pub const DEV_MARK: &'static str = ".dev";

/// Numbers with dots between.
pub open spec fn dotted_numbers(chunks: Seq<u32>) -> Seq<char>
    decreases chunks.len(),
{
    if chunks.len() == 0 {
        Seq::empty()
    } else if chunks.len() == 1 {
        decimal(chunks[0] as nat)
    } else {
        dotted_numbers(chunks.drop_last()) + seq!['.'] + decimal(chunks.last() as nat)
    }
}

/// A pre-release as it is written.
pub open spec fn pre_text(p: PreRelease) -> Seq<char> {
    match p {
        PreRelease::Alpha(n) => ALPHA_MARK@ + decimal(n as nat),
        PreRelease::Beta(n) => BETA_MARK@ + decimal(n as nat),
        PreRelease::RC(n) => RC_MARK@ + decimal(n as nat),
    }
}

/// A version as it is written in its normal form.
pub open spec fn version_text(v: VersionView) -> Seq<char> {
    (if v.epoch > 0 {
        decimal(v.epoch as nat) + seq!['!']
    } else {
        Seq::empty()
    }) + dotted_numbers(v.chunks) + (match v.pre {
        Some(p) => pre_text(p),
        None => Seq::empty(),
    }) + marked(POST_MARK@, v.post) + marked(DEV_MARK@, v.dev) + (match v.local {
        Some(l) => seq!['+'] + l,
        None => Seq::empty(),
    })
}

impl PreRelease {
    /// Writes the pre-release as it stands in a version.
    pub fn to_string(&self) -> (s: String)
        ensures
            s@ == pre_text(*self),
    {
        let (mark, n) = match self {
            PreRelease::Alpha(n) => (ALPHA_MARK, *n),
            PreRelease::Beta(n) => (BETA_MARK, *n),
            PreRelease::RC(n) => (RC_MARK, *n),
        };
        let mut s = String::from_str(mark);
        push_decimal(&mut s, n as u64);
        s
    }
}

impl Version {
    /// Compares two versions.
    pub fn compare(&self, other: &Self) -> (o: KeyOrder)
        ensures
            o == version_order(self@, other@),
    {
        match compare_numbers(self.epoch, other.epoch) {
            KeyOrder::Same => {},
            o => {
                return o;
            },
        }
        match compare_chunks(&self.chunks, &other.chunks) {
            KeyOrder::Same => {},
            o => {
                return o;
            },
        }
        match compare_pre(&self.pre, &other.pre) {
            KeyOrder::Same => {},
            o => {
                return o;
            },
        }
        let post = match (&self.post, &other.post) {
            (Some(x), Some(y)) => compare_numbers(*x, *y),
            (Some(_), None) => KeyOrder::After,
            (None, Some(_)) => KeyOrder::Before,
            (None, None) => KeyOrder::Same,
        };
        match post {
            KeyOrder::Same => {},
            o => {
                return o;
            },
        }
        let dev = match (&self.dev, &other.dev) {
            (Some(x), Some(y)) => compare_numbers(*x, *y),
            (Some(_), None) => KeyOrder::Before,
            (None, Some(_)) => KeyOrder::After,
            (None, None) => KeyOrder::Same,
        };
        match dev {
            KeyOrder::Same => {},
            o => {
                return o;
            },
        }
        match (&self.local, &other.local) {
            (Some(x), Some(y)) => compare_str(x.as_str(), y.as_str()),
            (Some(_), None) => KeyOrder::After,
            (None, Some(_)) => KeyOrder::Before,
            (None, None) => KeyOrder::Same,
        }
    }

    /// Writes the version in its normal form.
    pub fn to_string(&self) -> (s: String)
        ensures
            s@ == version_text(self@),
    {
        let mut s = String::new();
        if self.epoch > 0 {
            push_decimal(&mut s, self.epoch as u64);
            s.push('!');
        }
        push_chunks(&mut s, &self.chunks);
        match &self.pre {
            Some(p) => {
                s.append(p.to_string().as_str());
            },
            None => {},
        }
        push_marked(&mut s, POST_MARK, &self.post);
        push_marked(&mut s, DEV_MARK, &self.dev);
        match &self.local {
            Some(l) => {
                s.push('+');
                s.append(l.as_str());
            },
            None => {},
        }
        proof {
            assert(s@ =~= version_text(self@));
        }
        s
    }
}

fn push_chunks(s: &mut String, chunks: &Vec<u32>)
    ensures
        final(s)@ == old(s)@ + dotted_numbers(chunks@),
{
    let ghost head = s@;
    let n: usize = chunks.len();
    let mut i: usize = 0;
    proof {
        assert(chunks@.take(0) =~= Seq::<u32>::empty());
        assert(s@ =~= head + dotted_numbers(chunks@.take(0)));
    }
    while i < n
        invariant
            i <= n,
            n == chunks@.len(),
            s@ == head + dotted_numbers(chunks@.take(i as int)),
        decreases n - i,
    {
        let ghost before = s@;
        if i > 0 {
            s.push('.');
        }
        push_decimal(s, chunks[i] as u64);
        proof {
            let done = chunks@.take(i as int);
            let more = chunks@.take(i + 1);
            let last = decimal(chunks@[i as int] as nat);
            assert(more.drop_last() =~= done);
            assert(more.last() == chunks@[i as int]);
            if i == 0 {
                assert(more[0] == chunks@[0]);
                assert(done.len() == 0);
                assert(s@ =~= head + last);
            } else {
                assert(s@ =~= before + seq!['.'] + last);
                assert(s@ =~= head + (dotted_numbers(done) + seq!['.'] + last));
            }
        }
        i += 1;
    }
    proof {
        assert(chunks@.take(n as int) =~= chunks@);
    }
}

/// What a number that may be absent adds to a version, after its mark.
pub open spec fn marked(mark: Seq<char>, n: Option<u32>) -> Seq<char> {
    match n {
        Some(n) => mark + decimal(n as nat),
        None => Seq::empty(),
    }
}

fn push_marked(s: &mut String, mark: &str, n: &Option<u32>)
    ensures
        final(s)@ == old(s)@ + marked(mark@, *n),
{
    match n {
        Some(n) => {
            s.append(mark);
            push_decimal(s, *n as u64);
            proof {
                assert(s@ =~= old(s)@ + (mark@ + decimal(*n as nat)));
            }
        },
        None => {
            proof {
                assert(s@ =~= old(s)@ + Seq::<char>::empty());
            }
        },
    }
}

} // verus!
