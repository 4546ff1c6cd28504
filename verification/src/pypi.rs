//! The PyPI source: the files that the simple index links to.

use vstd::prelude::*;
use crate::common::{SnapshotPath, TransferURL};
use crate::error::Error;
use crate::pattern::{find_captures, group_texts, pick_group, regex_captures_of};
use crate::text::{
    from_chars, join_slash, replace_all, replaced, slash_joined, to_chars,
};

verus! {

/// Where the index and the files are fetched.
#[derive(Debug)]
pub struct Pypi {
    pub simple_base: String,
    pub package_base: String,
    /// Only the first thousand characters of the index count.
    pub debug: bool,
}

/// A link, with the address as the first group and the text as the second.
pub const LINK_PATTERN: &'static str = "<a.*href=\"(.*?)\".*>(.*?)</a>";

/// What stands before the path of a file in a link of a package page.
pub const PACKAGES_UP: &'static str = "../../packages/";

pub const NOTHING: &'static str = "";

/// How much of the index counts in debug mode.
pub const DEBUG_CHARS: usize = 1000;

/// The part of a URL up to the end of its path, without query and
/// fragment, as the crate url reads it; none where the text is no URL.
pub uninterp spec fn url_up_to_path_of(text: Seq<char>) -> Option<Seq<char>>;

/// `Url::parse` of the crate url, and the slice of the result that ends
/// after the path.
#[verifier::external_body]
pub(crate) fn url_up_to_path(text: &str) -> (r: Option<String>)
    ensures
        r.deep_view() == url_up_to_path_of(text@),
{
    url::Url::parse(text).ok().map(|parsed| parsed[..url::Position::AfterPath].to_string())
}

/// The key of a file, from the address that a package page links to.
pub open spec fn file_key(link: Seq<char>) -> Seq<char> {
    replaced(link, PACKAGES_UP@, NOTHING@)
}

impl Pypi {
    /// Where the index of all packages is fetched.
    pub fn index_url(&self) -> (url: String)
        ensures
            url@ == self.simple_base@ + seq!['/'],
    {
        let mut url = self.simple_base.clone();
        url.push('/');
        url
    }

    /// The part of the index that counts.
    pub fn limit_index(&self, index: String) -> (kept: String)
        ensures
            kept@ == if self.debug && index@.len() > DEBUG_CHARS {
                index@.take(DEBUG_CHARS as int)
            } else {
                index@
            },
    {
        if !self.debug {
            return index;
        }
        let chars = to_chars(index.as_str());
        if chars.len() > DEBUG_CHARS {
            let kept = from_chars(chars.as_slice(), 0, DEBUG_CHARS);
            proof {
                assert(kept@ =~= index@.take(DEBUG_CHARS as int));
            }
            kept
        } else {
            index
        }
    }

    /// The addresses that the links of a page lead to, in their order.
    pub fn links(&self, page: &str) -> (r: Result<Vec<String>, Error>)
        ensures
            match regex_captures_of(LINK_PATTERN@, page@) {
                Some(matches) => r matches Ok(links) && links.deep_view() == group_texts(
                    matches,
                    1,
                ),
                None => r matches Err(e) && e is DecodeError,
            },
    {
        match find_captures(LINK_PATTERN, page) {
            Some(matches) => Ok(pick_group(&matches, 1)),
            None => Err(Error::DecodeError(String::from_str("invalid pattern"))),
        }
    }

    /// Where the page of a package is fetched, from its link in the index.
    pub fn package_page_url(&self, link: &str) -> (url: String)
        ensures
            url@ == slash_joined(self.simple_base@, link@),
    {
        join_slash(self.simple_base.as_str(), link)
    }

    /// The item for a file that a package page links to.
    pub fn file_item(&self, link: &str) -> (item: SnapshotPath)
        ensures
            item.0@ == file_key(link@),
            !item.1,
    {
        SnapshotPath::new(replace_all(link, PACKAGES_UP, NOTHING))
    }

    /// The address from which the object of an item is fetched: the key
    /// under the base of the files, cut after the path. A key that gives no
    /// URL is refused.
    pub fn get_object(&self, snapshot: &SnapshotPath) -> (r: Result<TransferURL, Error>)
        ensures
            match url_up_to_path_of(slash_joined(self.package_base@, snapshot.0@)) {
                Some(url) => r matches Ok(found) && found.0@ == url,
                None => r matches Err(e) && e is DecodeError,
            },
    {
        let full = join_slash(self.package_base.as_str(), snapshot.0.as_str());
        match url_up_to_path(full.as_str()) {
            Some(url) => Ok(TransferURL(url)),
            None => Err(Error::DecodeError(String::from_str("not a URL"))),
        }
    }
}

} // verus!
