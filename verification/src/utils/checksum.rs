//! Digests of byte strings, and the check of an object against the digest
//! that its snapshot item gives.

use vstd::prelude::*;
use crate::error::Error;
use crate::text::{hex_char, hex_digit, to_chars};

verus! {

/// The MD5 digest of a byte string.
pub uninterp spec fn md5_of(data: Seq<u8>) -> Seq<u8>;

/// The SHA-1 digest of a byte string.
pub uninterp spec fn sha1_of(data: Seq<u8>) -> Seq<u8>;

/// The SHA-256 digest of a byte string.
pub uninterp spec fn sha256_of(data: Seq<u8>) -> Seq<u8>;

/// The SHA-512 digest of a byte string.
pub uninterp spec fn sha512_of(data: Seq<u8>) -> Seq<u8>;

/// `Md5::digest` of the crate md-5: the MD5 digest of the bytes given.
#[verifier::external_body]
pub(crate) fn md5_digest(data: &[u8]) -> (r: Vec<u8>)
    ensures
        r@ == md5_of(data@),
{
    <md5::Md5 as md5::Digest>::digest(data).to_vec()
}

/// `Sha1::digest` of the crate sha1: the SHA-1 digest of the bytes given.
#[verifier::external_body]
pub(crate) fn sha1_digest(data: &[u8]) -> (r: Vec<u8>)
    ensures
        r@ == sha1_of(data@),
{
    <sha1::Sha1 as sha1::Digest>::digest(data).to_vec()
}

/// `Sha256::digest` of the crate sha2: the SHA-256 digest of the bytes
/// given.
#[verifier::external_body]
pub(crate) fn sha256_digest(data: &[u8]) -> (r: Vec<u8>)
    ensures
        r@ == sha256_of(data@),
{
    <sha2::Sha256 as sha2::Digest>::digest(data).to_vec()
}

/// `Sha512::digest` of the crate sha2: the SHA-512 digest of the bytes
/// given.
#[verifier::external_body]
pub(crate) fn sha512_digest(data: &[u8]) -> (r: Vec<u8>)
    ensures
        r@ == sha512_of(data@),
{
    <sha2::Sha512 as sha2::Digest>::digest(data).to_vec()
}

/// A byte string in lower-case hex, two digits for each byte.
pub open spec fn hex_of(data: Seq<u8>) -> Seq<char>
    decreases data.len(),
{
    if data.len() == 0 {
        Seq::empty()
    } else {
        hex_of(data.drop_last()) + seq![
            hex_digit((data.last() / 16) as nat),
            hex_digit((data.last() % 16) as nat),
        ]
    }
}

/// Writes a byte string in lower-case hex.
pub fn to_hex(data: &[u8]) -> (r: String)
    ensures
        r@ == hex_of(data@),
{
    let mut r = String::new();
    let n: usize = data.len();
    let mut i: usize = 0;
    proof {
        assert(data@.take(0) =~= Seq::<u8>::empty());
    }
    while i < n
        invariant
            i <= n,
            n == data@.len(),
            r@ == hex_of(data@.take(i as int)),
        decreases n - i,
    {
        let b = data[i];
        r.push(hex_char(b / 16));
        r.push(hex_char(b % 16));
        proof {
            assert(data@.take(i + 1).drop_last() =~= data@.take(i as int));
            assert(data@.take(i + 1).last() == b);
            assert(r@ =~= hex_of(data@.take(i as int)) + seq![
                hex_digit((b / 16) as nat),
                hex_digit((b % 16) as nat),
            ]);
        }
        i += 1;
    }
    proof {
        assert(data@.take(n as int) =~= data@);
    }
    r
}

pub const MD5: &'static str = "md5";

pub const SHA1: &'static str = "sha1";

pub const SHA256: &'static str = "sha256";

pub const SHA512: &'static str = "sha512";

/// The digest of `data` by the method `method`, in lower-case hex; none for
/// a method other than `md5`, `sha1`, `sha256` and `sha512`.
pub open spec fn digest_hex(method: Seq<char>, data: Seq<u8>) -> Option<Seq<char>> {
    if method == MD5@ {
        Some(hex_of(md5_of(data)))
    } else if method == SHA1@ {
        Some(hex_of(sha1_of(data)))
    } else if method == SHA256@ {
        Some(hex_of(sha256_of(data)))
    } else if method == SHA512@ {
        Some(hex_of(sha512_of(data)))
    } else {
        None
    }
}

/// Whether two strings are the same.
pub fn same_text(a: &str, b: &str) -> (r: bool)
    ensures
        r == (a@ == b@),
{
    let x = to_chars(a);
    let y = to_chars(b);
    if x.len() != y.len() {
        return false;
    }
    let n: usize = x.len();
    let mut i: usize = 0;
    while i < n
        invariant
            i <= n,
            n == x@.len(),
            n == y@.len(),
            x@ == a@,
            y@ == b@,
            forall|j: int| 0 <= j < i ==> x@[j] == y@[j],
        decreases n - i,
    {
        if x[i] != y[i] {
            return false;
        }
        i += 1;
    }
    proof {
        assert(x@ =~= y@);
    }
    true
}

/// Computes the digest of `data` by the method named.
pub fn calc_checksum(data: &[u8], method: &str) -> (r: Option<String>)
    ensures
        r is Some == digest_hex(method@, data@) is Some,
        r matches Some(hex) ==> Some(hex@) == digest_hex(method@, data@),
{
    if same_text(method, MD5) {
        Some(to_hex(md5_digest(data).as_slice()))
    } else if same_text(method, SHA1) {
        Some(to_hex(sha1_digest(data).as_slice()))
    } else if same_text(method, SHA256) {
        Some(to_hex(sha256_digest(data).as_slice()))
    } else if same_text(method, SHA512) {
        Some(to_hex(sha512_digest(data).as_slice()))
    } else {
        None
    }
}

/// What the check of a digest `got` against the digest `expected` gives:
/// nothing to object to if they are the same string, and else the mismatch
/// with both.
pub fn compare_checksum(method: &str, expected: &str, got: String) -> (r: Result<(), Error>)
    ensures
        r is Ok <==> expected@ == got@,
        r matches Err(e) ==> (e matches Error::ChecksumError { method: m, expected: x, got: g }
            && m@ == method@ && x@ == expected@ && g@ == got@),
{
    if same_text(expected, got.as_str()) {
        Ok(())
    } else {
        Err(
            Error::ChecksumError {
                method: String::from_str(method),
                expected: String::from_str(expected),
                got,
            },
        )
    }
}

/// Checks the bytes of an object against the digest expected of them.
pub fn verify_checksum(data: &[u8], checksum_type: &str, expected: &str) -> (r: Result<(), Error>)
    ensures
        match digest_hex(checksum_type@, data@) {
            Some(got) => {
                &&& r is Ok <==> expected@ == got
                &&& r matches Err(e) ==> (e matches Error::ChecksumError {
                    method: m,
                    expected: x,
                    got: g,
                } && m@ == checksum_type@ && x@ == expected@ && g@ == got)
            },
            None => r matches Err(e) && e is PipeError,
        },
{
    match calc_checksum(data, checksum_type) {
        Some(got) => compare_checksum(checksum_type, expected, got),
        None => Err(Error::PipeError(String::from_str("unsupported checksum method"))),
    }
}

} // verus!
