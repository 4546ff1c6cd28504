//! The options of a run.

use vstd::prelude::*;
use crate::common::SnapshotConfig;
use crate::conda::CondaConfig;
use crate::crates_io::CratesIo;
use crate::dart::Dart;
use crate::error::Error;
use crate::file_backend::FileBackend;
use crate::ghcup::Ghcup;
use crate::github_release::GitHubRelease;
use crate::gradle::Gradle;
use crate::homebrew::HomebrewConfig;
use crate::lean::elan::ElanConfig;
use crate::pypi::Pypi;
use crate::rsync::Rsync;
use crate::rustup::Rustup;
use crate::s3::{S3Backend, S3Config};
use crate::simple_diff_transfer::SimpleDiffTransferConfig;
use crate::utils::checksum::same_text;

verus! {

/// The source that is mirrored, with its own options.
#[derive(Debug)]
pub enum Source {
    Pypi(Pypi),
    Homebrew(HomebrewConfig),
    CratesIo(CratesIo),
    Conda(CondaConfig),
    Rsync(Rsync),
    GithubRelease(GitHubRelease),
    DartPub(Dart),
    Gradle(Gradle),
    Ghcup(Ghcup),
    Rustup(Rustup),
    Elan(ElanConfig),
}

/// The kind of target that is written.
#[derive(Debug, Copy, Clone, PartialEq, Eq, Structural)]
pub enum Target {
    S3,
    File,
}

/// The options of the object-store target.
#[derive(Debug)]
pub struct S3CliConfig {
    pub s3_endpoint: Option<String>,
    pub s3_bucket: Option<String>,
    pub s3_prefix: Option<String>,
    pub s3_buffer_path: Option<String>,
    pub s3_prefix_hint_mode: Option<String>,
    pub s3_max_keys: u64,
    pub s3_scan_metadata: bool,
}

/// The options of the file-system target.
#[derive(Debug)]
pub struct FileBackendConfig {
    pub file_base_path: Option<String>,
    pub file_buffer_path: Option<String>,
}

/// The options of the transfer.
#[derive(Debug)]
pub struct TransferConfig {
    pub concurrent_transfer: usize,
    pub no_delete: bool,
    pub dry_run: bool,
    pub force_all: bool,
    pub print_plan: usize,
}

/// All options.
#[derive(Debug)]
pub struct Opts {
    pub source: Source,
    pub target_type: Target,
    pub s3_config: S3CliConfig,
    pub file_config: FileBackendConfig,
    pub progress: bool,
    pub workers: Option<usize>,
    pub concurrent_resolve: usize,
    pub transfer_config: TransferConfig,
}

pub const TARGET_S3: &'static str = "s3";

pub const TARGET_FILE: &'static str = "file";

pub const ROOT: &'static str = "Root";

impl Target {
    /// The target that a name stands for.
    pub fn from_str(s: &str) -> (r: Result<Self, Error>)
        ensures
            s@ == TARGET_S3@ ==> r matches Ok(Target::S3),
            s@ != TARGET_S3@ && s@ == TARGET_FILE@ ==> r matches Ok(Target::File),
            s@ != TARGET_S3@ && s@ != TARGET_FILE@ ==> (r matches Err(e) && e is ConfigureError),
    {
        if same_text(s, TARGET_S3) {
            Ok(Target::S3)
        } else if same_text(s, TARGET_FILE) {
            Ok(Target::File)
        } else {
            Err(Error::ConfigureError(String::from_str("unsupported target")))
        }
    }
}

fn clone_option(s: &Option<String>) -> (r: Option<String>)
    ensures
        r == *s,
{
    match s {
        Some(x) => Some(x.clone()),
        None => None,
    }
}

impl S3CliConfig {
    /// The object-store target that these options describe. It needs a
    /// prefix.
    pub fn backend(self) -> (r: Result<S3Backend, Error>)
        ensures
            match self.s3_prefix {
                Some(prefix) => r matches Ok(backend) && backend.config.prefix == prefix
                    && backend.config.endpoint@ == (match self.s3_endpoint {
                    Some(endpoint) => endpoint@,
                    None => crate::s3::JCLOUD_ENDPOINT@,
                }) && backend.config.bucket@ == (match self.s3_bucket {
                    Some(bucket) => bucket@,
                    None => crate::s3::JCLOUD_BUCKET@,
                }) && backend.config.max_keys == self.s3_max_keys
                    && backend.config.prefix_hint_mode == self.s3_prefix_hint_mode,
                None => r matches Err(e) && e is ConfigureError,
            },
    {
        let prefix = match self.s3_prefix {
            Some(prefix) => prefix,
            None => {
                return Err(Error::ConfigureError(String::from_str("the S3 prefix is missing")));
            },
        };
        let mut config = S3Config::new_jcloud(prefix);
        match self.s3_endpoint {
            Some(endpoint) => {
                config.endpoint = endpoint;
            },
            None => {},
        }
        match self.s3_bucket {
            Some(bucket) => {
                config.bucket = bucket;
            },
            None => {},
        }
        config.max_keys = self.s3_max_keys;
        config.prefix_hint_mode = self.s3_prefix_hint_mode;
        Ok(S3Backend::new(config))
    }
}

impl FileBackendConfig {
    /// The file-system target that these options describe. It needs a base
    /// path.
    pub fn backend(self) -> (r: Result<FileBackend, Error>)
        ensures
            match self.file_base_path {
                Some(base) => r matches Ok(backend) && backend.base_path == base,
                None => r matches Err(e) && e is ConfigureError,
            },
    {
        match self.file_base_path {
            Some(base) => Ok(FileBackend::new(base)),
            None => Err(Error::ConfigureError(String::from_str("the base path is missing"))),
        }
    }
}

impl Opts {
    /// How the engine behaves under these options.
    pub fn transfer(&self) -> (config: SimpleDiffTransferConfig)
        ensures
            config.progress == self.progress,
            config.concurrent_transfer == self.transfer_config.concurrent_transfer,
            config.no_delete == self.transfer_config.no_delete,
            config.dry_run == self.transfer_config.dry_run,
            config.force_all == self.transfer_config.force_all,
            config.print_plan == self.transfer_config.print_plan,
            config.snapshot_config.concurrent_resolve == self.concurrent_resolve,
    {
        SimpleDiffTransferConfig {
            progress: self.progress,
            concurrent_transfer: self.transfer_config.concurrent_transfer,
            no_delete: self.transfer_config.no_delete,
            dry_run: self.transfer_config.dry_run,
            force_all: self.transfer_config.force_all,
            snapshot_config: SnapshotConfig { concurrent_resolve: self.concurrent_resolve },
            print_plan: self.transfer_config.print_plan,
        }
    }

    /// Where scratch files lie: the buffer of the object store, or else
    /// that of the file system.
    pub fn buffer_path(&self) -> (path: Option<String>)
        ensures
            path == if self.s3_config.s3_buffer_path is Some {
                self.s3_config.s3_buffer_path
            } else {
                self.file_config.file_buffer_path
            },
    {
        match &self.s3_config.s3_buffer_path {
            Some(path) => Some(path.clone()),
            None => clone_option(&self.file_config.file_buffer_path),
        }
    }

    /// What the listing pages call the root: the prefix in the bucket, or
    /// `Root`.
    pub fn index_prefix(&self) -> (prefix: String)
        ensures
            prefix@ == match self.s3_config.s3_prefix {
                Some(p) => p@,
                None => ROOT@,
            },
    {
        match &self.s3_config.s3_prefix {
            Some(p) => p.clone(),
            None => String::from_str(ROOT),
        }
    }
}

} // verus!
