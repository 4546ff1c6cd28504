//! The pipe that rewrites the text of small objects.

use vstd::prelude::*;
use vstd::utf8::{decode_utf8, encode_utf8, valid_utf8};
use vstd::string::StringSliceAdditionalSpecFns;
use crate::error::Error;
use crate::pattern::{regex_replace_of, replace_matches};

verus! {

/// A source whose objects pass through a rewriting function if they are
/// text and not longer than `max_length` bytes.
pub struct RewritePipe<Source, F> {
    pub source: Source,
    pub buffer_path: String,
    pub rewrite_fn: F,
    pub max_length: u64,
}

/// What becomes of an object in the pipe.
pub enum Rewritten {
    /// The object goes on as it came.
    Unchanged,
    /// The scratch file gets this content, and the object this length.
    Replaced { content: Vec<u8>, length: u64 },
}

/// `String::from_utf8` of std: the bytes as a string, if they are the UTF-8
/// encoding of one.
#[verifier::external_body]
pub(crate) fn text_of(bytes: Vec<u8>) -> (r: Option<String>)
    ensures
        r is Some <==> valid_utf8(bytes@),
        r matches Some(text) ==> text@ == decode_utf8(bytes@),
{
    String::from_utf8(bytes).ok()
}

impl<Source, F: Fn(String) -> Result<String, Error>> RewritePipe<Source, F> {
    pub fn new(source: Source, buffer_path: String, rewrite_fn: F, max_length: u64) -> (pipe: Self)
        ensures
            pipe.source == source,
            pipe.buffer_path == buffer_path,
            pipe.rewrite_fn == rewrite_fn,
            pipe.max_length == max_length,
    {
        RewritePipe { source, buffer_path, rewrite_fn, max_length }
    }

    /// Whether an object of this length is read and rewritten at all.
    pub fn within_ceiling(&self, length: u64) -> (r: bool)
        ensures
            r == (length <= self.max_length),
    {
        length <= self.max_length
    }

    /// Rewrites the content of an object. An object above the ceiling, one
    /// that is not UTF-8 text and one that the function refuses go on
    /// unchanged.
    pub fn rewrite(&self, length: u64, content: Vec<u8>) -> (r: Rewritten)
        requires
            forall|text: String| call_requires(self.rewrite_fn, (text,)),
        ensures
            length > self.max_length || !valid_utf8(content@) ==> r is Unchanged,
            r matches Rewritten::Replaced { content: bytes, length: n } ==> {
                &&& n == bytes@.len()
                &&& exists|text: String, out: String|
                    text@ == decode_utf8(content@) && call_ensures(
                        self.rewrite_fn,
                        (text,),
                        Ok(out),
                    ) && bytes@ == encode_utf8(out@)
            },
            r is Unchanged && length <= self.max_length && valid_utf8(content@) ==> exists|
                text: String,
                e: Error,
            |
                text@ == decode_utf8(content@) && call_ensures(self.rewrite_fn, (text,), Err(e)),
    {
        if length > self.max_length {
            return Rewritten::Unchanged;
        }
        match text_of(content) {
            None => Rewritten::Unchanged,
            Some(text) => {
                let ghost given = text;
                match (self.rewrite_fn)(text) {
                    Err(e) => {
                        proof {
                            assert(call_ensures(self.rewrite_fn, (given,), Err(e)));
                        }
                        Rewritten::Unchanged
                    },
                    Ok(out) => {
                        let bytes = out.as_str().as_bytes_vec();
                        let n = bytes.len() as u64;
                        proof {
                            assert(call_ensures(self.rewrite_fn, (given,), Ok(out)));
                        }
                        Rewritten::Replaced { content: bytes, length: n }
                    },
                }
            },
        }
    }
}

/// What a rewriting by a regular expression gives for a text.
pub open spec fn regex_rewritten(pattern: Seq<char>, rewrite: Seq<char>, data: Seq<char>) -> Option<
    Seq<char>,
> {
    regex_replace_of(pattern, data, rewrite)
}

/// Rewrites a text by a regular expression: every match of `pattern`
/// becomes `rewrite`. It fails where the pattern is not a regular
/// expression.
pub fn regex_rewrite(pattern: &str, rewrite: &str, data: String) -> (r: Result<String, Error>)
    ensures
        match regex_rewritten(pattern@, rewrite@, data@) {
            Some(out) => r matches Ok(text) && text@ == out,
            None => r matches Err(e) && e is ConfigureError,
        },
{
    match replace_matches(pattern, data.as_str(), rewrite) {
        Some(text) => Ok(text),
        None => Err(Error::ConfigureError(String::from_str("invalid rewrite pattern"))),
    }
}

/// The rewriting function for a regular expression: it turns every match
/// of `pattern` in a text into `rewrite`.
pub fn fn_regex_rewrite(pattern: String, rewrite: String) -> (f: impl Fn(String) -> Result<
    String,
    Error,
>)
    ensures
        forall|data: String| call_requires(f, (data,)),
        forall|data: String, r: Result<String, Error>|
            call_ensures(f, (data,), r) ==> match regex_rewritten(pattern@, rewrite@, data@) {
                Some(out) => r matches Ok(text) && text@ == out,
                None => r matches Err(e) && e is ConfigureError,
            },
{
    move |data: String| -> (r: Result<String, Error>)
        ensures
            match regex_rewritten(pattern@, rewrite@, data@) {
                Some(out) => r matches Ok(text) && text@ == out,
                None => r matches Err(e) && e is ConfigureError,
            },
        { regex_rewrite(pattern.as_str(), rewrite.as_str(), data) }
}

} // verus!
