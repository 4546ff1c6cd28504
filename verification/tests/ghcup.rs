use mirror_clone::common::SnapshotPath;
use mirror_clone::error::Error;
use mirror_clone::ghcup;
use mirror_clone::ghcup::hls::{items_under, GhcupHLS};
use mirror_clone::ghcup::packages::GhcupPackages;
use mirror_clone::ghcup::parser;
use mirror_clone::ghcup::script::GhcupScript;
use mirror_clone::ghcup::utils::{
    content_url, file_name, get_raw_blob_url, list_files, metadata_file, tree_url, FileMeta,
    ObjectInfo, ObjectInfoWithUrl, Version,
};
use mirror_clone::ghcup::yaml::GhcupYaml;
use mirror_clone::ghcup::GhcupRepoConfig;
use mirror_clone::index_pipe::Index;
use mirror_clone::metadata::{compare_option, compare_option_str, SnapshotMeta};
use mirror_clone::opts::{FileBackendConfig, Opts, S3CliConfig, Source, Target, TransferConfig};
use mirror_clone::pattern::pick_group;
use mirror_clone::simple_diff_transfer::classify_snapshots;

fn source(uri: &str) -> parser::DownloadSource {
    parser::DownloadSource { dl_uri: uri.to_string(), dl_hash: "h".to_string() }
}

fn release(tags: &[&str], binaries: &[&str]) -> parser::Release {
    parser::Release {
        vi_tags: tags.iter().map(|x| x.to_string()).collect(),
        vi_source_dl: None,
        vi_arch: binaries
            .iter()
            .map(|u| parser::BinaryRelease {
                arch: "A_64".to_string(),
                distribution: "Linux_UnknownLinux".to_string(),
                version: "unknown_versioning".to_string(),
                source: source(u),
            })
            .collect(),
    }
}

fn config() -> parser::GhcupYamlParser {
    parser::GhcupYamlParser {
        ghcup_downloads: parser::Components {
            cabal: vec![release(&[], &["https://downloads.haskell.org/~cabal/cabal-3.tar.xz"])],
            hls: vec![release(
                &[],
                &["https://github.com/haskell/haskell-language-server/releases/download/1.0/hls.tar.gz"],
            )],
            ghcup: vec![],
            ghc: vec![
                release(&["old"], &["https://downloads.haskell.org/~ghc/8.0/ghc.tar.xz"]),
                release(&[], &["https://downloads.haskell.org/~ghc/9.0/ghc.tar.xz"]),
            ],
            stack: vec![release(&[], &["https://github.com/commercialhaskell/stack/releases/download/v2/stack.tar.gz"])],
        },
    }
}

fn repo() -> GhcupRepoConfig {
    GhcupRepoConfig { repo: "haskell/ghcup-metadata".to_string(), branch: "master".to_string() }
}

#[test]
fn ghcup_sources_pick_their_files() {
    let hls = GhcupHLS { ghcup_base: "b".to_string() };
    let items = hls.snapshot(&config());
    assert_eq!(items.len(), 1);
    assert_eq!(items[0].key, "1.0/hls.tar.gz");
    assert_eq!(
        hls.get_object(&items[0]).0,
        "https://github.com/haskell/haskell-language-server/releases/download/1.0/hls.tar.gz"
    );
    let packages = GhcupPackages { ghcup_repo_config: repo(), include_old_versions: false };
    let keys: Vec<String> = packages.snapshot(&config()).into_iter().map(|x| x.key).collect();
    assert_eq!(keys, vec!["~cabal/cabal-3.tar.xz", "~ghc/9.0/ghc.tar.xz"]);
    let all = GhcupPackages { ghcup_repo_config: repo(), include_old_versions: true };
    assert_eq!(all.snapshot(&config()).len(), 3);
    assert_eq!(
        all.get_object(&SnapshotMeta::new("~ghc/9.0/ghc.tar.xz".to_string())).0,
        "https://downloads.haskell.org/~ghc/9.0/ghc.tar.xz"
    );
    let none = items_under(&vec!["ftp://x".to_string()], "https://");
    assert!(none.is_empty());
    assert_eq!(parser::expected_config_version(), Version::new(0, 0, 8));
}

#[test]
fn ghcup_chooses_the_newest_metadata() {
    let packages = GhcupPackages { ghcup_repo_config: repo(), include_old_versions: false };
    let info = |v: Version| ObjectInfo { name: "n".to_string(), path: "p".to_string(), version: v };
    assert_eq!(
        packages
            .choose_config(&vec![info(Version::new(0, 0, 7)), info(Version::new(0, 0, 8)), info(Version::new(0, 0, 6))])
            .unwrap(),
        (1, true)
    );
    assert_eq!(packages.choose_config(&vec![info(Version::new(0, 0, 9))]).unwrap(), (0, false));
    assert!(matches!(packages.choose_config(&vec![]), Err(Error::ProcessError(_))));
}

#[test]
fn ghcup_metadata_files_are_named() {
    assert_eq!(file_name("a/b/c.yaml"), "c.yaml");
    assert_eq!(file_name("c.yaml"), "c.yaml");
    assert_eq!(file_name("a/"), "");
    assert_eq!(file_name(""), "");
    let file = |path: &str| FileMeta { path: path.to_string(), is_blob: true, url: "u".to_string() };
    let found = metadata_file(&file("x/ghcup-0.0.8.yaml")).unwrap();
    assert_eq!((found.name.as_str(), found.version), ("ghcup-0.0.8.yaml", Version::new(0, 0, 8)));
    assert!(metadata_file(&file("ghcup-0.0.8.json")).is_none());
    assert!(metadata_file(&file("ghcup-10.0.8.yaml")).is_none());
    assert!(metadata_file(&file("ghcup-1x2y3.yaml")).is_none());
    assert!(metadata_file(&file("ghcup-1.2.3xyaml")).is_some());
    assert!(metadata_file(&file("ghcup-a.b.c.yaml")).is_none());
}

#[test]
fn ghcup_yaml_files_become_forced_items() {
    let mut yaml = GhcupYaml::new(repo(), false);
    let item = yaml.add_file(
        ObjectInfoWithUrl {
            name: "ghcup-0.0.8.yaml".to_string(),
            path: "ghcup-0.0.8.yaml".to_string(),
            version: Version::new(0, 0, 8),
            url: "https://raw/ghcup-0.0.8.yaml".to_string(),
        },
        1700000000,
    );
    assert_eq!(item.key, "haskell/ghcup-metadata/master/ghcup-0.0.8.yaml");
    assert_eq!(item.last_modified, Some(1700000000));
    assert!(item.flags.force && item.flags.force_last);
    assert_eq!(yaml.get_object(&item).unwrap().0, "https://raw/ghcup-0.0.8.yaml");
    assert!(yaml.get_object(&SnapshotMeta::new("other".to_string())).is_none());
    let script = GhcupScript { script_url: "https://get-ghcup.haskell.org/".to_string() };
    let items = script.snapshot();
    assert_eq!(items[0].key, "install.sh");
    assert!(items[0].flags.force);
    assert_eq!(script.get_object().0, "https://get-ghcup.haskell.org/");
}

#[test]
fn ghcup_as_one_source() {
    let cfg = ghcup::GhcupYamlParser {
        ghcup_downloads: ghcup::Components {
            cabal: vec![],
            hls: vec![],
            ghcup: vec![],
            ghc: vec![ghcup::Release {
                vi_tags: vec![],
                vi_source_dl: Some(ghcup::DownloadSource {
                    dl_uri: "https://downloads.haskell.org/~ghc/9.0/src.tar.xz".to_string(),
                    dl_subdir: None,
                    dl_hash: "h".to_string(),
                }),
                vi_arch: vec![],
            }],
        },
    };
    let source = ghcup::Ghcup { ghcup_base: "b".to_string(), include_old_versions: false };
    let items = source.snapshot(&cfg);
    assert_eq!(items.len(), 1);
    assert_eq!(items[0].0, "~ghc/9.0/src.tar.xz");
    assert_eq!(
        source.get_object(&SnapshotPath::new("~ghc/9.0/src.tar.xz".to_string())).0,
        "https://downloads.haskell.org/~ghc/9.0/src.tar.xz"
    );
    assert_eq!(
        ghcup::version_module_url("https://gitlab.haskell.org/haskell/ghcup-hs/-/raw/master/"),
        "https://gitlab.haskell.org/haskell/ghcup-hs/-/raw/master/lib/GHCup/Version.hs"
    );
    let yaml = ghcup::GhcupYaml { ghcup_base: "b".to_string(), target_mirror: "m".to_string() };
    let items = yaml.snapshot("https://www.haskell.org/ghcup/data/ghcup-0.0.4.yaml", Some(5));
    assert_eq!(items[0].key, "ghcup/data/ghcup-0.0.4.yaml");
    assert_eq!(items[0].last_modified, Some(5));
    assert_eq!(yaml.get_object(&items[0]).0, "https://www.haskell.org/ghcup/data/ghcup-0.0.4.yaml");
    let script = ghcup::GhcupScript { script_url: "s".to_string(), target_mirror: "m".to_string() };
    assert_eq!(script.snapshot(None)[0].key, "install.sh");
    assert!(!script.snapshot(Some(1))[0].flags.force);
}

#[test]
fn options_describe_the_run() {
    let opts = Opts {
        source: Source::Elan(Default::default()),
        target_type: Target::File,
        s3_config: S3CliConfig {
            s3_endpoint: Some("https://s3".to_string()),
            s3_bucket: None,
            s3_prefix: Some("pypi".to_string()),
            s3_buffer_path: None,
            s3_prefix_hint_mode: Some("pypi".to_string()),
            s3_max_keys: 500,
            s3_scan_metadata: false,
        },
        file_config: FileBackendConfig {
            file_base_path: Some("/srv".to_string()),
            file_buffer_path: Some("/tmp/buf".to_string()),
        },
        progress: true,
        workers: None,
        concurrent_resolve: 32,
        transfer_config: TransferConfig {
            concurrent_transfer: 4,
            no_delete: true,
            dry_run: false,
            force_all: true,
            print_plan: 7,
        },
    };
    let config = opts.transfer();
    assert!(config.progress && config.no_delete && !config.dry_run && config.force_all);
    assert_eq!(config.concurrent_transfer, 4);
    assert_eq!(config.print_plan, 7);
    assert_eq!(config.snapshot_config.concurrent_resolve, 32);
    assert_eq!(opts.buffer_path().as_deref(), Some("/tmp/buf"));
    assert_eq!(opts.index_prefix(), "pypi");
    let backend = opts.s3_config.backend().unwrap();
    assert_eq!(backend.config.endpoint, "https://s3");
    assert_eq!(backend.config.bucket, "899a892efef34b1b944a19981040f55b-oss01");
    assert_eq!(backend.config.prefix, "pypi");
    assert_eq!(backend.config.max_keys, 500);
    assert_eq!(backend.config.prefix_hint_mode.as_deref(), Some("pypi"));
    assert_eq!(opts.file_config.backend().unwrap().base_path, "/srv");
    let missing = S3CliConfig {
        s3_endpoint: None,
        s3_bucket: None,
        s3_prefix: None,
        s3_buffer_path: Some("/b".to_string()),
        s3_prefix_hint_mode: None,
        s3_max_keys: 1,
        s3_scan_metadata: false,
    };
    assert!(matches!(missing.backend(), Err(Error::ConfigureError(_))));
    assert!(matches!(
        FileBackendConfig { file_base_path: None, file_buffer_path: None }.backend(),
        Err(Error::ConfigureError(_))
    ));
}

#[test]
fn small_helpers() {
    assert!(compare_option(&Some(1), &Some(1)));
    assert!(!compare_option(&Some(1), &Some(2)));
    assert!(compare_option(&None, &Some(2)));
    assert!(compare_option_str(&Some("a".to_string()), &None));
    assert!(!compare_option_str(&Some("a".to_string()), &Some("b".to_string())));
    let matches = vec![
        vec![Some("whole".to_string()), Some("g1".to_string())],
        vec![Some("whole".to_string()), None],
        vec![Some("only".to_string())],
    ];
    assert_eq!(pick_group(&matches, 1), vec!["g1"]);
    assert_eq!(pick_group(&matches, 0), vec!["whole", "whole", "only"]);
    assert!(pick_group(&matches, 2).is_empty());
    let mut index = Index::new();
    index.insert("b/x", 5);
    index.insert("a", 5);
    index.insert("b/x", 5);
    index.insert("b/c/y", 1);
    assert_eq!(index.objects, vec!["a"]);
    assert_eq!(index.prefixes[0].index.objects, vec!["c/y", "x"]);
    let plan = classify_snapshots(
        vec![SnapshotMeta::new("a".to_string()), SnapshotMeta::force("b".to_string())],
        vec![SnapshotMeta::new("b".to_string()), SnapshotMeta::new("c".to_string())],
        false,
    );
    assert_eq!(plan.add[0].key, "a");
    assert_eq!(plan.update[0].key, "b");
    assert_eq!(plan.delete[0].key, "c");
}

#[test]
fn listing_keeps_the_files_and_addresses_name_the_repository() {
    let repo = GhcupRepoConfig { repo: "haskell/ghcup-metadata".to_string(), branch: "master".to_string() };
    assert_eq!(
        tree_url(&repo, "master"),
        "https://api.github.com/repos/haskell/ghcup-metadata/git/trees/master"
    );
    assert_eq!(
        content_url(&repo, "ghcup-0.0.7.yaml"),
        "https://api.github.com/repos/haskell/ghcup-metadata/contents/ghcup-0.0.7.yaml"
    );
    let entry = |path: &str, is_blob: bool| FileMeta {
        path: path.to_string(),
        is_blob,
        url: format!("u/{}", path),
    };
    let files = list_files(vec![entry("a", true), entry("d", false), entry("b", true)]);
    let paths: Vec<&str> = files.iter().map(|f| f.path.as_str()).collect();
    assert_eq!(paths, vec!["a", "b"]);
    assert!(list_files(vec![entry("d", false)]).is_empty());
    let object = ObjectInfo {
        name: "ghcup-0.0.7.yaml".to_string(),
        path: "x/ghcup-0.0.7.yaml".to_string(),
        version: Version::new(0, 0, 7),
    };
    let with_url = get_raw_blob_url(object, "https://raw/x".to_string());
    assert_eq!(with_url.name, "ghcup-0.0.7.yaml");
    assert_eq!(with_url.path, "x/ghcup-0.0.7.yaml");
    assert_eq!(with_url.version, Version::new(0, 0, 7));
    assert_eq!(with_url.url, "https://raw/x");
}
