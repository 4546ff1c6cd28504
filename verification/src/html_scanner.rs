//! The source that takes every link of one page as a key.

use vstd::prelude::*;
use crate::common::SnapshotPath;
use crate::error::Error;
use crate::pattern::{find_captures, group_texts, pick_group, regex_captures_of};
use crate::utils::snapshot_string_to_path;

verus! {

/// The page that is scanned.
#[derive(Debug)]
pub struct HtmlScanner {
    pub url: String,
}

/// A link, with the address as the first group.
pub const LINK_PATTERN: &'static str = "<a.*href=\"(.*?)\".*";

/// The addresses of the links of a page.
pub open spec fn links_of(page: Seq<char>) -> Option<Seq<Seq<char>>> {
    match regex_captures_of(LINK_PATTERN@, page) {
        Some(matches) => Some(group_texts(matches, 1)),
        None => None,
    }
}

impl HtmlScanner {
    /// The snapshot that a page stands for: one item for each link, under
    /// the address of the link as it is written.
    pub fn snapshot(&self, page: &str) -> (r: Result<Vec<SnapshotPath>, Error>)
        ensures
            match links_of(page@) {
                Some(links) => r matches Ok(items) && items@.len() == links.len() && forall|
                    i: int,
                |
                    0 <= i < links.len() ==> (#[trigger] items@[i]).0@ == links[i] && !items@[i].1,
                None => r matches Err(e) && e is DecodeError,
            },
    {
        match find_captures(LINK_PATTERN, page) {
            Some(matches) => {
                let links = pick_group(&matches, 1);
                let ghost texts = links@;
                let items = snapshot_string_to_path(links);
                proof {
                    assert forall|i: int| 0 <= i < texts.len() implies (#[trigger] items@[i]).0@
                        == group_texts(matches.deep_view(), 1)[i] by {
                        assert(links.deep_view()[i] == texts[i]@);
                    }
                    assert(links.deep_view().len() == texts.len());
                }
                Ok(items)
            },
            None => Err(Error::DecodeError(String::from_str("invalid pattern"))),
        }
    }
}

} // verus!
