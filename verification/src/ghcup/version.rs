//! The version of a file of ghcup metadata.

use vstd::prelude::*;
use crate::text::{
    all_digits, decimal, digits_value, find_char, first_of, parse_u64, push_decimal, to_chars,
    KeyOrder,
};

verus! {

/// Three numbers. Versions are ordered by the patch number first, then the
/// minor and then the major one.
#[derive(Debug, Copy, Clone, PartialEq, Eq, Structural)]
pub struct Version {
    pub patch: usize,
    pub minor: usize,
    pub major: usize,
}

/// The number that a part of a version stands for.
pub open spec fn part_value(s: Seq<char>) -> Option<usize> {
    if s.len() > 0 && all_digits(s) && digits_value(s) <= usize::MAX {
        Some(digits_value(s) as usize)
    } else {
        None
    }
}

/// The version that a text of three numbers with dots between stands for.
pub open spec fn version_of(s: Seq<char>) -> Option<Version> {
    let a = first_of(s, '.');
    let rest = s.skip(a + 1);
    let b = first_of(rest, '.');
    let last = rest.skip(b + 1);
    if a < s.len() && b < rest.len() && first_of(last, '.') == last.len() {
        match (part_value(s.take(a)), part_value(rest.take(b)), part_value(last)) {
            (Some(major), Some(minor), Some(patch)) => Some(Version { patch, minor, major }),
            _ => None,
        }
    } else {
        None
    }
}

/// How two versions compare: by the patch number, then by the minor and
/// then by the major one.
pub open spec fn version_order(a: Version, b: Version) -> KeyOrder {
    if a.patch != b.patch {
        if a.patch < b.patch {
            KeyOrder::Before
        } else {
            KeyOrder::After
        }
    } else if a.minor != b.minor {
        if a.minor < b.minor {
            KeyOrder::Before
        } else {
            KeyOrder::After
        }
    } else if a.major != b.major {
        if a.major < b.major {
            KeyOrder::Before
        } else {
            KeyOrder::After
        }
    } else {
        KeyOrder::Same
    }
}

fn parse_part(chars: &Vec<char>, from: usize, to: usize) -> (r: Option<usize>)
    requires
        from <= to <= chars@.len(),
    ensures
        r == part_value(chars@.subrange(from as int, to as int)),
{
    match parse_u64(chars, from, to) {
        Some(n) => {
            if n <= usize::MAX as u64 {
                Some(n as usize)
            } else {
                None
            }
        },
        None => None,
    }
}

impl Version {
    pub fn new(major: usize, minor: usize, patch: usize) -> (v: Self)
        ensures
            v.major == major,
            v.minor == minor,
            v.patch == patch,
    {
        Version { major, minor, patch }
    }

    /// Reads a version.
    pub fn from_str(s: &str) -> (r: Result<Self, ()>)
        ensures
            match version_of(s@) {
                Some(v) => r == Ok::<Version, ()>(v),
                None => r is Err,
            },
    {
        let chars = to_chars(s);
        let n: usize = chars.len();
        proof {
            assert(chars@.skip(0) =~= s@);
        }
        let a = find_char(&chars, 0, '.');
        if a == n {
            return Err(());
        }
        let b = find_char(&chars, a + 1, '.');
        if b == n {
            return Err(());
        }
        let c = find_char(&chars, b + 1, '.');
        proof {
            let rest = s@.skip(a + 1);
            assert(rest =~= chars@.skip(a + 1));
            assert(rest.skip(b - a - 1 + 1) =~= chars@.skip(b + 1));
            assert(s@.take(a as int) =~= chars@.subrange(0, a as int));
            assert(rest.take(b - a - 1) =~= chars@.subrange(a + 1, b as int));
            assert(chars@.skip(b + 1) =~= chars@.subrange(b + 1, n as int));
        }
        if c != n {
            return Err(());
        }
        match (parse_part(&chars, 0, a), parse_part(&chars, a + 1, b), parse_part(&chars, b + 1, n)) {
            (Some(major), Some(minor), Some(patch)) => Ok(Version { patch, minor, major }),
            _ => Err(()),
        }
    }

    /// Writes the version as it is read.
    pub fn to_string(&self) -> (s: String)
        ensures
            s@ == decimal(self.major as nat) + seq!['.'] + decimal(self.minor as nat) + seq!['.']
                + decimal(self.patch as nat),
    {
        let mut s = String::new();
        push_decimal(&mut s, self.major as u64);
        s.push('.');
        push_decimal(&mut s, self.minor as u64);
        s.push('.');
        push_decimal(&mut s, self.patch as u64);
        proof {
            assert(s@ =~= decimal(self.major as nat) + seq!['.'] + decimal(self.minor as nat)
                + seq!['.'] + decimal(self.patch as nat));
        }
        s
    }

    /// Compares two versions.
    pub fn compare(&self, other: &Self) -> (o: KeyOrder)
        ensures
            o == version_order(*self, *other),
    {
        if self.patch != other.patch {
            if self.patch < other.patch {
                KeyOrder::Before
            } else {
                KeyOrder::After
            }
        } else if self.minor != other.minor {
            if self.minor < other.minor {
                KeyOrder::Before
            } else {
                KeyOrder::After
            }
        } else if self.major != other.major {
            if self.major < other.major {
                KeyOrder::Before
            } else {
                KeyOrder::After
            }
        } else {
            KeyOrder::Same
        }
    }
}

} // verus!
