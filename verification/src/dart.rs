//! The Dart pub source: the packages that the API lists page by page, and
//! the archives of their versions.

use vstd::prelude::*;
use crate::common::TransferURL;
use crate::error::Error;
use crate::metadata::{MetaView, SnapshotMeta};
use crate::text::{concat2, join_slash, slash_joined, strip_prefix};

verus! {

/// Where the API and the archives are.
#[derive(Debug)]
pub struct Dart {
    pub base: String,
    /// Only the first hundred packages count.
    pub debug: bool,
}

pub const API_PACKAGES: &'static str = "/api/packages";

/// How many packages count in debug mode.
pub const DEBUG_PACKAGES: usize = 100;

/// What the listing does after a page.
pub enum NextPage {
    /// Fetch the page at this address.
    Follow(String),
    /// The listing is complete.
    Done,
}

impl Dart {
    /// Where the first page of the list of packages is fetched.
    pub fn api_base(&self) -> (url: String)
        ensures
            url@ == self.base@ + API_PACKAGES@,
    {
        concat2(self.base.as_str(), API_PACKAGES)
    }

    /// What follows a page: the page that it names as next, if it names
    /// one.
    pub fn next_page(&self, next_url: Option<String>) -> (r: NextPage)
        ensures
            match next_url {
                Some(url) => r == NextPage::Follow(url),
                None => r is Done,
            },
    {
        match next_url {
            Some(url) => NextPage::Follow(url),
            None => NextPage::Done,
        }
    }

    /// The packages that count, of those that the API listed.
    pub fn limit_packages(&self, names: Vec<String>) -> (kept: Vec<String>)
        ensures
            kept@ == if self.debug && names@.len() > DEBUG_PACKAGES {
                names@.take(DEBUG_PACKAGES as int)
            } else {
                names@
            },
    {
        let mut kept = names;
        if self.debug && kept.len() > DEBUG_PACKAGES {
            kept.truncate(DEBUG_PACKAGES);
            proof {
                assert(kept@ =~= names@.take(DEBUG_PACKAGES as int));
            }
        }
        kept
    }

    /// Where the versions of a package are fetched.
    pub fn package_url(&self, name: &str) -> (url: String)
        ensures
            url@ == self.base@ + seq!['/'] + API_PACKAGES@ + seq!['/'] + name@,
    {
        let mut url = self.base.clone();
        url.push('/');
        url.append(API_PACKAGES);
        url.push('/');
        url.append(name);
        url
    }

    /// The item for the archive of a version. An archive that does not lie
    /// under the base address is refused.
    pub fn archive_item(&self, archive_url: &str) -> (r: Result<SnapshotMeta, Error>)
        ensures
            match r {
                Ok(item) => (self.base@ + seq!['/']).is_prefix_of(archive_url@) && item@ == (
                MetaView {
                    key: archive_url@.skip(self.base@.len() as int + 1),
                    size: None,
                    last_modified: None,
                    checksum_method: None,
                    checksum: None,
                    force: false,
                    force_last: false,
                }),
                Err(e) => e is DecodeError && !(self.base@ + seq!['/']).is_prefix_of(archive_url@),
            },
    {
        let mut base = self.base.clone();
        base.push('/');
        match strip_prefix(archive_url, base.as_str()) {
            Some(key) => Ok(SnapshotMeta::new(key)),
            None => Err(Error::DecodeError(String::from_str("unmatched base URL"))),
        }
    }

    /// The address from which the object of an item is fetched.
    pub fn get_object(&self, snapshot: &SnapshotMeta) -> (url: TransferURL)
        ensures
            url.0@ == slash_joined(self.base@, snapshot.key@),
    {
        TransferURL(join_slash(self.base.as_str(), snapshot.key.as_str()))
    }
}

} // verus!
