//! Strings as sequences: the key order, conversion between `str` and
//! `Vec<char>`, and small verified string builders.

use vstd::prelude::*;
use vstd::std_specs::iter::IteratorSpec;
use vstd::string::*;
use vstd::utf8::*;

verus! {

/// `a` and `b` agree on their first `k` positions.
pub open spec fn agree_upto<T>(a: Seq<T>, b: Seq<T>, k: int) -> bool {
    &&& 0 <= k <= a.len()
    &&& k <= b.len()
    &&& forall|i: int| 0 <= i < k ==> a[i] == b[i]
}

/// Lexicographic order on byte strings: `a` is a proper prefix of `b`, or
/// the first byte at which they differ is smaller in `a`.
pub open spec fn bytes_lt(a: Seq<u8>, b: Seq<u8>) -> bool {
    exists|k: int| #[trigger]
        agree_upto(a, b, k) && k < b.len() && (k == a.len() || a[k] < b[k])
}

/// The order of keys: that of their UTF-8 encodings, byte by byte.
pub open spec fn str_lt(a: Seq<char>, b: Seq<char>) -> bool {
    bytes_lt(encode_utf8(a), encode_utf8(b))
}

pub open spec fn str_le(a: Seq<char>, b: Seq<char>) -> bool {
    a == b || str_lt(a, b)
}

pub proof fn lemma_bytes_lt_irreflexive(a: Seq<u8>)
    ensures
        !bytes_lt(a, a),
{
}

pub proof fn lemma_bytes_lt_transitive(a: Seq<u8>, b: Seq<u8>, c: Seq<u8>)
    requires
        bytes_lt(a, b),
        bytes_lt(b, c),
    ensures
        bytes_lt(a, c),
{
    let k1 = choose|k: int| #[trigger]
        agree_upto(a, b, k) && k < b.len() && (k == a.len() || a[k] < b[k]);
    let k2 = choose|k: int| #[trigger]
        agree_upto(b, c, k) && k < c.len() && (k == b.len() || b[k] < c[k]);
    let k = if k1 <= k2 { k1 } else { k2 };
    assert(agree_upto(a, c, k));
}

pub proof fn lemma_bytes_lt_total(a: Seq<u8>, b: Seq<u8>)
    ensures
        bytes_lt(a, b) || a == b || bytes_lt(b, a),
    decreases a.len(),
{
    lemma_first_difference(a, b, 0);
}

/// From a position up to which `a` and `b` agree, either they are equal or
/// one is below the other.
proof fn lemma_first_difference(a: Seq<u8>, b: Seq<u8>, k: int)
    requires
        agree_upto(a, b, k),
    ensures
        bytes_lt(a, b) || a == b || bytes_lt(b, a),
    decreases a.len() - k,
{
    if k == a.len() {
        if k == b.len() {
            assert(a =~= b);
        } else {
            assert(agree_upto(a, b, k));
        }
    } else if k == b.len() {
        assert(agree_upto(b, a, k));
    } else if a[k] < b[k] {
        assert(agree_upto(a, b, k));
    } else if b[k] < a[k] {
        assert(agree_upto(b, a, k));
    } else {
        assert(agree_upto(a, b, k + 1));
        lemma_first_difference(a, b, k + 1);
    }
}

/// Two strings with the same encoding are the same string.
pub proof fn lemma_encode_injective(a: Seq<char>, b: Seq<char>)
    requires
        encode_utf8(a) == encode_utf8(b),
    ensures
        a == b,
{
    encode_utf8_decode_utf8(a);
    encode_utf8_decode_utf8(b);
}

pub proof fn lemma_str_lt_irreflexive(a: Seq<char>)
    ensures
        !str_lt(a, a),
{
    lemma_bytes_lt_irreflexive(encode_utf8(a));
}

pub proof fn lemma_str_lt_transitive(a: Seq<char>, b: Seq<char>, c: Seq<char>)
    requires
        str_lt(a, b),
        str_lt(b, c),
    ensures
        str_lt(a, c),
{
    lemma_bytes_lt_transitive(encode_utf8(a), encode_utf8(b), encode_utf8(c));
}

pub proof fn lemma_str_lt_total(a: Seq<char>, b: Seq<char>)
    ensures
        str_lt(a, b) || a == b || str_lt(b, a),
{
    lemma_bytes_lt_total(encode_utf8(a), encode_utf8(b));
    if encode_utf8(a) == encode_utf8(b) {
        lemma_encode_injective(a, b);
    }
}

pub proof fn lemma_str_lt_asymmetric(a: Seq<char>, b: Seq<char>)
    requires
        str_lt(a, b),
    ensures
        !str_lt(b, a),
        a != b,
{
    if str_lt(b, a) {
        lemma_str_lt_transitive(a, b, a);
    }
    lemma_str_lt_irreflexive(a);
}

/// How two keys compare.
#[derive(Clone, Copy, Debug, PartialEq, Eq, Structural)]
pub enum KeyOrder {
    Before,
    Same,
    After,
}

pub open spec fn spec_compare(a: Seq<char>, b: Seq<char>) -> KeyOrder {
    if a == b {
        KeyOrder::Same
    } else if str_lt(a, b) {
        KeyOrder::Before
    } else {
        KeyOrder::After
    }
}

/// Compares two strings as `str`'s own order does: by their bytes.
pub fn compare_str(a: &str, b: &str) -> (r: KeyOrder)
    ensures
        r == spec_compare(a@, b@),
        r == KeyOrder::After ==> str_lt(b@, a@),
{
    let x = a.as_bytes();
    let y = b.as_bytes();
    let n: usize = x.len();
    let m: usize = y.len();
    let mut i: usize = 0;
    while i < n && i < m
        invariant
            n == x@.len(),
            m == y@.len(),
            x@ == encode_utf8(a@),
            y@ == encode_utf8(b@),
            agree_upto(x@, y@, i as int),
        decreases n - i,
    {
        if x[i] < y[i] {
            proof {
                assert(agree_upto(x@, y@, i as int));
                lemma_str_lt_asymmetric(a@, b@);
            }
            return KeyOrder::Before;
        }
        if x[i] > y[i] {
            proof {
                assert(agree_upto(y@, x@, i as int));
                lemma_str_lt_asymmetric(b@, a@);
            }
            return KeyOrder::After;
        }
        i += 1;
    }
    if n == m {
        proof {
            assert(x@ =~= y@);
            lemma_encode_injective(a@, b@);
        }
        KeyOrder::Same
    } else if n < m {
        proof {
            assert(agree_upto(x@, y@, i as int));
            lemma_str_lt_asymmetric(a@, b@);
        }
        KeyOrder::Before
    } else {
        proof {
            assert(agree_upto(y@, x@, i as int));
            lemma_str_lt_asymmetric(b@, a@);
        }
        KeyOrder::After
    }
}

/// `String::push` appends one character at the end.
pub assume_specification[ String::push ](s: &mut String, ch: char)
    ensures
        final(s)@ == old(s)@.push(ch),
;

/// The characters of a string, one by one.
pub fn to_chars(s: &str) -> (v: Vec<char>)
    ensures
        v@ == s@,
{
    let mut v: Vec<char> = Vec::new();
    for c in it: s.chars()
        invariant
            it.seq() == s@,
            v@ == it.seq().take(it.index() as int),
    {
        v.push(c);
        proof {
            assert(it.seq().take(it.index() + 1) =~= it.seq().take(it.index() as int).push(c));
        }
    }
    proof {
        assert(s@.take(s@.len() as int) =~= s@);
    }
    v
}

/// The string made of the characters `v[from..to]`.
pub fn from_chars(v: &[char], from: usize, to: usize) -> (s: String)
    requires
        from <= to <= v@.len(),
    ensures
        s@ == v@.subrange(from as int, to as int),
{
    let mut s = String::new();
    let mut i: usize = from;
    while i < to
        invariant
            from <= i <= to <= v@.len(),
            s@ == v@.subrange(from as int, i as int),
        decreases to - i,
    {
        s.push(v[i]);
        i += 1;
        proof {
            assert(v@.subrange(from as int, i as int) =~= v@.subrange(from as int, i - 1).push(
                v@[i - 1],
            ));
        }
    }
    s
}

/// `a` followed by `b`.
pub fn concat2(a: &str, b: &str) -> (s: String)
    ensures
        s@ == a@ + b@,
{
    let mut s = String::from_str(a);
    s.append(b);
    s
}

/// `a`, `b` and `c` in a row.
pub fn concat3(a: &str, b: &str, c: &str) -> (s: String)
    ensures
        s@ == a@ + b@ + c@,
{
    let mut s = String::from_str(a);
    s.append(b);
    s.append(c);
    s
}

/// The lower-case hex digit for a value below 16.
pub open spec fn hex_digit(d: nat) -> char {
    if d < 10 {
        (0x30 + d) as u8 as char
    } else {
        (0x61 + d - 10) as u8 as char
    }
}

/// The lower-case hex digit for a value below 16.
pub fn hex_char(d: u8) -> (c: char)
    requires
        d < 16,
    ensures
        c == hex_digit(d as nat),
{
    if d < 10 {
        (0x30 + d) as char
    } else {
        (0x61 + d - 10) as char
    }
}

/// A count of seconds as the unsigned number with the same 64 bits.
pub open spec fn as_unsigned(t: i64) -> u64 {
    if t >= 0 {
        t as u64
    } else {
        (t + 0x1_0000_0000_0000_0000) as u64
    }
}

pub fn to_unsigned(t: i64) -> (u: u64)
    ensures
        u == as_unsigned(t),
{
    if t >= 0 {
        t as u64
    } else {
        let rest: u64 = (t + i64::MAX + 1) as u64;
        rest + 0x8000_0000_0000_0000
    }
}

/// The decimal digit for a value below 10.
pub open spec fn digit(d: nat) -> char {
    (0x30 + d) as u8 as char
}

/// A number in decimal, without leading zeros.
pub open spec fn decimal(n: nat) -> Seq<char>
    decreases n,
{
    if n < 10 {
        seq![digit(n)]
    } else {
        decimal(n / 10) + seq![digit(n % 10)]
    }
}

/// Appends `n` in decimal to `s`.
pub fn push_decimal(s: &mut String, n: u64)
    ensures
        final(s)@ == old(s)@ + decimal(n as nat),
    decreases n,
{
    if n >= 10 {
        push_decimal(s, n / 10);
    }
    let d: u8 = (n % 10) as u8;
    s.push((0x30 + d) as char);
}

/// Writes `n` in decimal.
pub fn to_decimal(n: u64) -> (s: String)
    ensures
        s@ == decimal(n as nat),
{
    let mut s = String::new();
    push_decimal(&mut s, n);
    s
}

/// `s` with every occurrence of `from` replaced by `to`, found from left to
/// right, none overlapping another. An empty `from` occurs before every
/// character and at the end.
pub open spec fn replaced(s: Seq<char>, from: Seq<char>, to: Seq<char>) -> Seq<char>
    decreases s.len(),
{
    if from.len() == 0 {
        if s.len() == 0 {
            to
        } else {
            to + seq![s[0]] + replaced(s.skip(1), from, to)
        }
    } else if s.len() < from.len() {
        s
    } else if from.is_prefix_of(s) {
        to + replaced(s.skip(from.len() as int), from, to)
    } else {
        seq![s[0]] + replaced(s.skip(1), from, to)
    }
}

/// Whether `pattern` stands in `s` at the position `at`.
pub fn matches_at(s: &Vec<char>, at: usize, pattern: &Vec<char>) -> (r: bool)
    requires
        at <= s@.len(),
    ensures
        r == pattern@.is_prefix_of(s@.skip(at as int)),
{
    let n: usize = pattern.len();
    if s.len() - at < n {
        return false;
    }
    let mut i: usize = 0;
    while i < n
        invariant
            i <= n,
            n == pattern@.len(),
            at + n <= s@.len(),
            s@.len() <= usize::MAX,
            forall|j: int| 0 <= j < i ==> s@[at + j] == pattern@[j],
        decreases n - i,
    {
        if s[at + i] != pattern[i] {
            proof {
                assert(s@.skip(at as int)[i as int] == s@[at + i]);
            }
            return false;
        }
        i += 1;
    }
    proof {
        assert(s@.skip(at as int).subrange(0, n as int) =~= pattern@);
    }
    true
}

/// Replaces every occurrence of `from` in `s` by `to`.
pub fn replace_all(s: &str, from: &str, to: &str) -> (r: String)
    ensures
        r@ == replaced(s@, from@, to@),
{
    let chars = to_chars(s);
    let pattern = to_chars(from);
    let n: usize = chars.len();
    let m: usize = pattern.len();
    let mut r = String::new();
    let mut i: usize = 0;
    proof {
        assert(chars@.skip(0) =~= chars@);
    }
    while i < n
        invariant
            i <= n,
            n == chars@.len(),
            m == pattern@.len(),
            chars@ == s@,
            pattern@ == from@,
            r@ + replaced(chars@.skip(i as int), from@, to@) == replaced(s@, from@, to@),
        decreases n - i,
    {
        let ghost rest = chars@.skip(i as int);
        if m == 0 {
            r.append(to);
            r.push(chars[i]);
            proof {
                assert(rest.skip(1) =~= chars@.skip(i + 1));
                assert(r@ + replaced(chars@.skip(i + 1), from@, to@) =~= replaced(s@, from@, to@));
            }
            i += 1;
        } else if matches_at(&chars, i, &pattern) {
            r.append(to);
            proof {
                assert(rest.skip(m as int) =~= chars@.skip(i + m));
                assert(r@ + replaced(chars@.skip(i + m), from@, to@) =~= replaced(s@, from@, to@));
            }
            i += m;
        } else {
            r.push(chars[i]);
            proof {
                assert(rest.skip(1) =~= chars@.skip(i + 1));
                if rest.len() < m {
                    lemma_replaced_short(rest, from@, to@);
                }
                assert(r@ + replaced(chars@.skip(i + 1), from@, to@) =~= replaced(s@, from@, to@));
            }
            i += 1;
        }
    }
    if m == 0 {
        r.append(to);
    }
    proof {
        assert(chars@.skip(n as int) =~= Seq::<char>::empty());
    }
    r
}

/// A string shorter than the pattern holds no occurrence of it.
proof fn lemma_replaced_short(s: Seq<char>, from: Seq<char>, to: Seq<char>)
    requires
        s.len() < from.len(),
    ensures
        replaced(s, from, to) == s,
        s.len() > 0 ==> replaced(s, from, to) == seq![s[0]] + replaced(s.skip(1), from, to),
{
    if s.len() > 0 {
        assert(replaced(s.skip(1), from, to) == s.skip(1));
        assert(seq![s[0]] + s.skip(1) =~= s);
    }
}

/// `a`, a slash and `b`.
pub open spec fn slash_joined(a: Seq<char>, b: Seq<char>) -> Seq<char> {
    a + seq!['/'] + b
}

/// Joins a base and a key by a slash.
pub fn join_slash(a: &str, b: &str) -> (s: String)
    ensures
        s@ == slash_joined(a@, b@),
{
    let mut s = String::from_str(a);
    s.push('/');
    s.append(b);
    s
}

/// Whether `s` starts with `prefix`.
pub fn starts_with(s: &str, prefix: &str) -> (r: bool)
    ensures
        r == prefix@.is_prefix_of(s@),
{
    let chars = to_chars(s);
    let pattern = to_chars(prefix);
    proof {
        assert(chars@.skip(0) =~= chars@);
    }
    matches_at(&chars, 0, &pattern)
}

/// What follows `prefix` in `s`, if `s` starts with it.
pub fn strip_prefix(s: &str, prefix: &str) -> (r: Option<String>)
    ensures
        r is Some <==> prefix@.is_prefix_of(s@),
        r matches Some(rest) ==> rest@ == s@.skip(prefix@.len() as int),
{
    let chars = to_chars(s);
    let pattern = to_chars(prefix);
    proof {
        assert(chars@.skip(0) =~= chars@);
    }
    if matches_at(&chars, 0, &pattern) {
        Some(from_chars(chars.as_slice(), pattern.len(), chars.len()))
    } else {
        None
    }
}

/// `sub` stands somewhere in `s`.
pub open spec fn occurs_in(sub: Seq<char>, s: Seq<char>) -> bool {
    exists|at: int| 0 <= at <= s.len() && sub.is_prefix_of(#[trigger] s.skip(at))
}

/// Whether `sub` stands somewhere in `s`.
pub fn contains(s: &str, sub: &str) -> (r: bool)
    ensures
        r == occurs_in(sub@, s@),
{
    let chars = to_chars(s);
    let pattern = to_chars(sub);
    let n: usize = chars.len();
    let mut at: usize = 0;
    while at < n
        invariant
            at <= n,
            n == chars@.len(),
            chars@ == s@,
            pattern@ == sub@,
            forall|k: int| 0 <= k < at ==> !sub@.is_prefix_of(#[trigger] s@.skip(k)),
        decreases n - at,
    {
        if matches_at(&chars, at, &pattern) {
            return true;
        }
        at += 1;
    }
    matches_at(&chars, n, &pattern)
}

/// Where `c` first stands in `s`, or the length of `s` if it does not.
pub open spec fn first_of(s: Seq<char>, c: char) -> int
    decreases s.len(),
{
    if s.len() == 0 {
        0
    } else if s[0] == c {
        0
    } else {
        1 + first_of(s.drop_first(), c)
    }
}

pub proof fn lemma_first_of(s: Seq<char>, c: char)
    ensures
        0 <= first_of(s, c) <= s.len(),
        first_of(s, c) < s.len() ==> s[first_of(s, c)] == c,
        forall|i: int| 0 <= i < first_of(s, c) ==> s[i] != c,
    decreases s.len(),
{
    if s.len() > 0 && s[0] != c {
        let t = s.drop_first();
        lemma_first_of(t, c);
        assert forall|i: int| 0 <= i < first_of(s, c) implies s[i] != c by {
            if i > 0 {
                assert(s[i] == t[i - 1]);
            }
        }
    }
}

pub proof fn lemma_first_of_is(s: Seq<char>, c: char, pos: int)
    requires
        0 <= pos <= s.len(),
        forall|i: int| 0 <= i < pos ==> s[i] != c,
        pos < s.len() ==> s[pos] == c,
    ensures
        first_of(s, c) == pos,
{
    lemma_first_of(s, c);
    let f = first_of(s, c);
    if f < pos {
        assert(s[f] != c);
    }
    if pos < f {
        assert(s[pos] != c);
    }
}

/// Where `c` first stands in `chars` at or after `from`.
pub fn find_char(chars: &Vec<char>, from: usize, c: char) -> (pos: usize)
    requires
        from <= chars@.len(),
    ensures
        from <= pos <= chars@.len(),
        pos - from == first_of(chars@.skip(from as int), c),
{
    let n: usize = chars.len();
    let mut pos: usize = from;
    while pos < n && chars[pos] != c
        invariant
            from <= pos <= n,
            n == chars@.len(),
            forall|i: int| from <= i < pos ==> chars@[i] != c,
        decreases n - pos,
    {
        pos += 1;
    }
    proof {
        lemma_first_of_is(chars@.skip(from as int), c, pos - from);
    }
    pos
}

/// The characters that count as white space.
pub open spec fn is_space(c: char) -> bool {
    let u = c as u32;
    ||| 0x09 <= u <= 0x0d
    ||| u == 0x20
    ||| u == 0x85
    ||| u == 0xa0
    ||| u == 0x1680
    ||| 0x2000 <= u <= 0x200a
    ||| u == 0x2028
    ||| u == 0x2029
    ||| u == 0x202f
    ||| u == 0x205f
    ||| u == 0x3000
}

pub fn char_is_space(c: char) -> (r: bool)
    ensures
        r == is_space(c),
{
    let u = c as u32;
    (0x09 <= u && u <= 0x0d) || u == 0x20 || u == 0x85 || u == 0xa0 || u == 0x1680 || (0x2000 <= u
        && u <= 0x200a) || u == 0x2028 || u == 0x2029 || u == 0x202f || u == 0x205f || u == 0x3000
}

/// How many characters of white space `s` starts with.
pub open spec fn leading_space(s: Seq<char>) -> int
    decreases s.len(),
{
    if s.len() == 0 || !is_space(s[0]) {
        0
    } else {
        1 + leading_space(s.drop_first())
    }
}

/// How many characters of white space `s` ends with.
pub open spec fn trailing_space(s: Seq<char>) -> int
    decreases s.len(),
{
    if s.len() == 0 || !is_space(s.last()) {
        0
    } else {
        1 + trailing_space(s.drop_last())
    }
}

/// `s` without the white space that it starts with.
pub open spec fn trimmed_start(s: Seq<char>) -> Seq<char> {
    s.skip(leading_space(s))
}

/// `s` without the white space at either end.
pub open spec fn trimmed(s: Seq<char>) -> Seq<char> {
    let t = trimmed_start(s);
    t.take(t.len() - trailing_space(t))
}

pub proof fn lemma_leading_space(s: Seq<char>, k: int)
    requires
        0 <= k <= s.len(),
        forall|i: int| 0 <= i < k ==> is_space(s[i]),
        k < s.len() ==> !is_space(s[k]),
    ensures
        leading_space(s) == k,
    decreases k,
{
    if k > 0 {
        let t = s.drop_first();
        assert forall|i: int| 0 <= i < k - 1 implies is_space(t[i]) by {
            assert(t[i] == s[i + 1]);
        }
        lemma_leading_space(t, k - 1);
    }
}

pub proof fn lemma_trailing_space(s: Seq<char>, k: int)
    requires
        0 <= k <= s.len(),
        forall|i: int| s.len() - k <= i < s.len() ==> is_space(s[i]),
        k < s.len() ==> !is_space(s[s.len() - k - 1]),
    ensures
        trailing_space(s) == k,
    decreases k,
{
    if k > 0 {
        let t = s.drop_last();
        lemma_trailing_space(t, k - 1);
    }
}

/// Where the white space at the start of `chars[from..]` ends.
pub fn skip_space(chars: &Vec<char>, from: usize) -> (pos: usize)
    requires
        from <= chars@.len(),
    ensures
        from <= pos <= chars@.len(),
        pos - from == leading_space(chars@.skip(from as int)),
{
    let n: usize = chars.len();
    let mut pos: usize = from;
    while pos < n && char_is_space(chars[pos])
        invariant
            from <= pos <= n,
            n == chars@.len(),
            forall|i: int| from <= i < pos ==> is_space(chars@[i]),
        decreases n - pos,
    {
        pos += 1;
    }
    proof {
        lemma_leading_space(chars@.skip(from as int), pos - from);
    }
    pos
}

/// The text `chars[from..to]` without the white space at either end.
pub fn trim_range(chars: &Vec<char>, from: usize, to: usize) -> (r: String)
    requires
        from <= to <= chars@.len(),
    ensures
        r@ == trimmed(chars@.subrange(from as int, to as int)),
{
    let ghost s = chars@.subrange(from as int, to as int);
    let mut a: usize = from;
    while a < to && char_is_space(chars[a])
        invariant
            from <= a <= to <= chars@.len(),
            forall|i: int| from <= i < a ==> is_space(chars@[i]),
        decreases to - a,
    {
        a += 1;
    }
    let mut b: usize = to;
    while b > a && char_is_space(chars[b - 1])
        invariant
            a <= b <= to <= chars@.len(),
            forall|i: int| b <= i < to ==> is_space(chars@[i]),
        decreases b,
    {
        b -= 1;
    }
    proof {
        lemma_leading_space(s, a - from);
        let t = trimmed_start(s);
        assert(t =~= chars@.subrange(a as int, to as int));
        lemma_trailing_space(t, to - b);
        assert(t.take(t.len() - (to - b)) =~= chars@.subrange(a as int, b as int));
    }
    from_chars(chars.as_slice(), a, b)
}

/// The number that a string of decimal digits stands for.
pub open spec fn digits_value(s: Seq<char>) -> nat
    decreases s.len(),
{
    if s.len() == 0 {
        0
    } else {
        digits_value(s.drop_last()) * 10 + (s.last() as u32 - 0x30) as nat
    }
}

/// Every character is a decimal digit.
pub open spec fn all_digits(s: Seq<char>) -> bool {
    forall|i: int| 0 <= i < s.len() ==> '0' <= #[trigger] s[i] <= '9'
}

/// Reads a number below 2^64 written in decimal digits and nothing else.
pub fn parse_u64(chars: &Vec<char>, from: usize, to: usize) -> (r: Option<u64>)
    requires
        from <= to <= chars@.len(),
    ensures
        r is Some <==> from < to && all_digits(chars@.subrange(from as int, to as int))
            && digits_value(chars@.subrange(from as int, to as int)) <= u64::MAX,
        r matches Some(n) ==> n == digits_value(chars@.subrange(from as int, to as int)),
{
    let ghost s = chars@.subrange(from as int, to as int);
    if from == to {
        return None;
    }
    let mut n: u64 = 0;
    let mut i: usize = from;
    proof {
        assert(s.take(0) =~= Seq::<char>::empty());
    }
    while i < to
        invariant
            from <= i <= to <= chars@.len(),
            s == chars@.subrange(from as int, to as int),
            all_digits(s.take(i - from)),
            n == digits_value(s.take(i - from)),
        decreases to - i,
    {
        let c = chars[i];
        let ghost done = s.take(i - from);
        let ghost more = s.take(i - from + 1);
        proof {
            assert(more.drop_last() =~= done);
            assert(more.last() == c);
            assert(s[i - from] == c);
        }
        if c < '0' || c > '9' {
            return None;
        }
        let d: u64 = (c as u32 - 0x30) as u64;
        if n > (u64::MAX - d) / 10 {
            proof {
                lemma_digits_value_grows(s, i - from + 1);
            }
            return None;
        }
        n = n * 10 + d;
        proof {
            assert forall|k: int| 0 <= k < more.len() implies '0' <= #[trigger] more[k] <= '9' by {
                if k < done.len() {
                    assert(done[k] == more[k]);
                }
            }
        }
        i += 1;
    }
    proof {
        assert(s.take(to - from) =~= s);
    }
    Some(n)
}

/// The value of a prefix is at most the value of the whole.
proof fn lemma_digits_value_grows(s: Seq<char>, k: int)
    requires
        0 <= k <= s.len(),
    ensures
        digits_value(s.take(k)) <= digits_value(s),
    decreases s.len() - k,
{
    if k < s.len() {
        lemma_digits_value_grows(s, k + 1);
        assert(s.take(k + 1).drop_last() =~= s.take(k));
    } else {
        assert(s.take(k) =~= s);
    }
}

} // verus!
