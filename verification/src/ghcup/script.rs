//! The install script of ghcup as a source.

use vstd::prelude::*;
use crate::common::TransferURL;
use crate::metadata::{MetaView, SnapshotMeta};

verus! {

/// Where the script is fetched.
#[derive(Debug)]
pub struct GhcupScript {
    pub script_url: String,
}

pub const INSTALL_SCRIPT: &'static str = "install.sh";

impl GhcupScript {
    /// The snapshot of the script: one item, always transferred.
    pub fn snapshot(&self) -> (items: Vec<SnapshotMeta>)
        ensures
            items@.len() == 1,
            items@[0]@ == (MetaView {
                key: INSTALL_SCRIPT@,
                size: None,
                last_modified: None,
                checksum_method: None,
                checksum: None,
                force: true,
                force_last: true,
            }),
    {
        let mut items: Vec<SnapshotMeta> = Vec::new();
        items.push(SnapshotMeta::force(String::from_str(INSTALL_SCRIPT)));
        items
    }

    /// The address from which the script is fetched.
    pub fn get_object(&self) -> (url: TransferURL)
        ensures
            url.0@ == self.script_url@,
    {
        TransferURL(self.script_url.clone())
    }
}

} // verus!
