//! How much of each Lean repository is mirrored.

use vstd::prelude::*;

verus! {

/// How many releases of each repository count, the newest first.
#[derive(Debug)]
pub struct ElanConfig {
    pub retain_elan_versions: usize,
    pub retain_lean_versions: usize,
    pub retain_lean_nightly_versions: usize,
    pub retain_glean_versions: usize,
}

impl Default for ElanConfig {
    fn default() -> (config: Self)
        ensures
            config.retain_elan_versions == 3,
            config.retain_lean_versions == 30,
            config.retain_lean_nightly_versions == 30,
            config.retain_glean_versions == 1,
    {
        ElanConfig {
            retain_elan_versions: 3,
            retain_lean_versions: 30,
            retain_lean_nightly_versions: 30,
            retain_glean_versions: 1,
        }
    }
}

} // verus!
