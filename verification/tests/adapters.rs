use mirror_clone::common::{SnapshotPath, TransferPath};
use mirror_clone::conda::{Conda, CondaConfig, CondaPackage, CondaRepos, Snapshot};
use mirror_clone::crates_io::{CratesIo, CratesIoPackage};
use mirror_clone::dart::{Dart, NextPage};
use mirror_clone::error::Error;
use mirror_clone::file_backend::FileBackend;
use mirror_clone::ghcup::parser::{BinaryRelease, Components, DownloadSource, Release};
use mirror_clone::ghcup::utils::{filter_map_file_objs, latest, FileMeta, Version};
use mirror_clone::ghcup::yaml::GhcupYaml;
use mirror_clone::ghcup::{find_yaml_url, trim_base, trim_leading, GhcupRepoConfig};
use mirror_clone::github_release::{GitHubRelease, GitHubReleaseAsset, GitHubReleaseItem};
use mirror_clone::gradle::{Gradle, GradleVersion};
use mirror_clone::homebrew::{BottleFile, Formula, Homebrew, HomebrewConfig, StableBottle};
use mirror_clone::html_scanner::HtmlScanner;
use mirror_clone::metadata::SnapshotMeta;
use mirror_clone::mirror_intel::MirrorIntel;
use mirror_clone::opam::{build_hash_url, parse_checksum, split_once, Opam, OpamDownloadTask};
use mirror_clone::pypi::Pypi;
use mirror_clone::rsync::{parse_rsync_output, parse_size, Rsync, RsyncFields, RsyncLine};
use mirror_clone::text::to_unsigned;
use mirror_clone::rustup::Rustup;
use mirror_clone::s3::{Listed, S3Backend, S3Config, S3Metadata};
use mirror_clone::text::KeyOrder;

fn meta(key: &str) -> SnapshotMeta {
    SnapshotMeta::new(key.to_string())
}

#[test]
fn rsync_lines_split_into_five_fields() {
    let f = parse_rsync_output("-rw-r--r--      1,234,567 2021/03/04 05:06:07 a dir/file name.txt").unwrap();
    assert_eq!(f.permission, "-rw-r--r--");
    assert_eq!(f.size, "1,234,567");
    assert_eq!(f.date, "2021/03/04");
    assert_eq!(f.time, "05:06:07");
    assert_eq!(f.file, "a dir/file name.txt");
    let g = parse_rsync_output("l  0 d t  x").unwrap();
    assert_eq!((g.time.as_str(), g.file.as_str()), ("t", " x"));
    assert!(matches!(parse_rsync_output("-rw- 12 2021/03/04 05:06:07"), Err(Error::NoneError)));
    assert!(matches!(parse_rsync_output(""), Err(Error::NoneError)));
    assert_eq!(parse_size("1,234,567"), Some(1234567));
    assert_eq!(parse_size("0"), Some(0));
    assert_eq!(parse_size(""), None);
    assert_eq!(parse_size("12a"), None);
    assert_eq!(parse_size("18,446,744,073,709,551,616"), None);
    assert_eq!(to_unsigned(-1), u64::MAX);
    assert_eq!(to_unsigned(i64::MIN), 1 << 63);
    assert_eq!(to_unsigned(5), 5);
}

fn rsync(debug: bool, ignore: &str) -> Rsync {
    Rsync {
        rsync_base: "rsync://host/module/".to_string(),
        http_base: "https://host/module".to_string(),
        debug,
        ignore_prefix: ignore.to_string(),
    }
}

fn fields(permission: &str, size: &str, file: &str) -> RsyncFields {
    RsyncFields {
        permission: permission.to_string(),
        size: size.to_string(),
        date: "2021/03/04".to_string(),
        time: "05:06:07".to_string(),
        file: file.to_string(),
    }
}

#[test]
fn rsync_lines_become_items() {
    let source = rsync(false, "skip/");
    match source.classify(fields("-rw-r--r--", "1,024", "a/b"), Some(1614834367)).unwrap() {
        RsyncLine::File(item) => {
            assert_eq!(item.key, "a/b");
            assert_eq!(item.size, Some(1024));
            assert_eq!(item.last_modified, Some(1614834367));
        }
        _ => panic!("a file"),
    }
    assert!(matches!(
        source.classify(fields("lrwxrwxrwx", "3", "link"), Some(1)).unwrap(),
        RsyncLine::Link(path) if path == "link"
    ));
    assert!(matches!(
        source.classify(fields("drwxr-xr-x", "4096", "dir"), Some(1)).unwrap(),
        RsyncLine::Nothing
    ));
    assert!(matches!(
        source.classify(fields("-rw-r--r--", "1", "skip/x"), Some(1)).unwrap(),
        RsyncLine::Nothing
    ));
    assert!(matches!(
        source.classify(fields("-rw-r--r--", "x", "a"), Some(1)),
        Err(Error::DecodeError(_))
    ));
    assert!(matches!(
        source.classify(fields("-rw-r--r--", "1", "a"), None),
        Err(Error::DecodeError(_))
    ));
    assert!(matches!(source.snapshot_line("garbage", 1).unwrap(), RsyncLine::Nothing));
    match source.snapshot_line("-rw-r--r-- 7 2021/03/04 05:06:07 f", 1).unwrap() {
        RsyncLine::File(item) => assert_eq!((item.key.as_str(), item.size), ("f", Some(7))),
        _ => panic!("a file"),
    }
    let limited = rsync(true, "");
    assert!(limited.reads_line(1000) && !limited.reads_line(1001));
    assert!(matches!(
        limited.snapshot_line("-rw-r--r-- 7 2021/03/04 05:06:07 f", 1001).unwrap(),
        RsyncLine::Nothing
    ));
    assert!(!limited.ignores("anything"));
    assert_eq!(source.get_object(&meta("a/b")).0, "https://host/module/a/b");
}

#[test]
fn s3_lists_by_shards() {
    let mut config = S3Config::new_jcloud("pypi".to_string());
    assert_eq!(config.endpoint, "https://s3.jcloud.sjtu.edu.cn");
    assert_eq!(config.bucket, "899a892efef34b1b944a19981040f55b-oss01");
    assert_eq!(config.max_keys, 1000);
    assert!(config.prefix_hint_mode.is_none());
    assert_eq!(S3Backend::new(S3Config::new_jcloud("p".to_string())).scan_prefixes().unwrap(), vec!["p"]);
    config.prefix_hint_mode = Some("pypi".to_string());
    let shards = S3Backend::new(config).scan_prefixes().unwrap();
    assert_eq!(shards.len(), 256);
    assert_eq!(shards[0], "pypi/00");
    assert_eq!(shards[10], "pypi/0a");
    assert_eq!(shards[171], "pypi/ab");
    assert_eq!(shards[255], "pypi/ff");
    let mut odd = S3Config::new_jcloud("p".to_string());
    odd.prefix_hint_mode = Some("conda".to_string());
    assert!(matches!(S3Backend::new(odd).scan_prefixes(), Err(Error::ConfigureError(_))));
}

#[test]
fn s3_keys_and_metadata() {
    let backend = S3Backend::new(S3Config::new_jcloud("homebrew".to_string()));
    match backend.listed_item("homebrew/a/b@1.tar", Some(42)) {
        Listed::Item(item) => {
            assert_eq!(item.key, "a/b@1.tar");
            assert_eq!(item.size, Some(42));
            assert!(item.last_modified.is_none());
        }
        Listed::Foreign => panic!("the key lies under the prefix"),
    }
    assert!(matches!(backend.listed_item("homebrewx/a", None), Listed::Foreign));
    assert!(matches!(backend.listed_item("homebrew", None), Listed::Foreign));
    assert!(matches!(backend.listed_item("homebrew/a", Some(-1)), Listed::Item(item) if item.size.is_none()));
    assert_eq!(backend.add_size(10, Some(5)), 15);
    assert_eq!(backend.add_size(10, None), 10);
    assert_eq!(backend.add_size(10, Some(-5)), 10);
    assert_eq!(backend.add_size(u64::MAX, Some(1)), u64::MAX);
    assert_eq!(backend.object_key(&meta("a/b")), "homebrew/a/b");
    assert_eq!(
        backend.gen_metadata(),
        vec![("clone-backend".to_string(), "s3-v1".to_string())]
    );
    let item = SnapshotMeta {
        checksum_method: Some("sha256".to_string()),
        checksum: Some("abcd".to_string()),
        ..meta("a")
    };
    let pairs: Vec<(String, String)> = backend.put_metadata(&item, 1600000000);
    let pairs: Vec<(&str, &str)> = pairs.iter().map(|(k, v)| (k.as_str(), v.as_str())).collect();
    assert_eq!(
        pairs,
        vec![
            ("clone-backend", "s3-v1"),
            ("clone-last-modified", "1600000000"),
            ("clone-checksum-method", "sha256"),
            ("clone-checksum", "abcd"),
        ]
    );
    assert_eq!(backend.put_metadata(&SnapshotPath::new("a".to_string()), 0).len(), 2);
    assert!(meta("a").s3_meta().is_empty());
    assert_eq!(backend.next_page(Some("t".to_string())), Some("t".to_string()));
    assert_eq!(backend.next_page(None), None);
}

#[test]
fn file_backend_paths() {
    let backend = FileBackend::new("/srv/mirror".to_string());
    let item = backend.snapshot_item("a\\b/c", 5, 7);
    assert_eq!(item.key, "a/b/c");
    assert_eq!((item.size, item.last_modified), (Some(5), Some(7)));
    assert_eq!(backend.target_path(&meta("a/b")), "/srv/mirror/a/b");
}

#[test]
fn mirror_intel_throttles() {
    let intel = MirrorIntel::new("https://intel/pypi".to_string());
    assert_eq!(intel.target_url(&TransferPath("a/b".to_string())), "https://intel/pypi/a/b");
    assert_eq!(intel.throttle(None, None), 0);
    assert_eq!(intel.throttle(Some("https://s3.jcloud.sjtu.edu.cn/x"), None), 0);
    assert_eq!(intel.throttle(Some("https://upstream/x"), None), 1);
    assert_eq!(intel.throttle(Some("https://upstream/x"), Some(16384)), 1);
    assert_eq!(intel.throttle(None, Some(16390)), 6);
    assert_eq!(intel.throttle(Some("https://upstream/x"), Some(16390)), 7);
    assert!(intel.snapshot().is_empty());
    assert!(matches!(intel.delete_object(), Err(Error::StorageError(_))));
}

#[test]
fn conda_items() {
    let seed = Snapshot { repo: "pkgs/main/linux-64".to_string() };
    let items = seed.items(vec![
        CondaPackage { name: "a-1.0.tar.bz2".to_string(), size: Some(3), sha256: Some("ff".to_string()) },
        CondaPackage { name: "b-2.0.conda".to_string(), size: None, sha256: None },
    ]);
    assert_eq!(items.len(), 5);
    assert_eq!(items[0].key, "pkgs/main/linux-64/a-1.0.tar.bz2");
    assert_eq!(items[0].checksum_method.as_deref(), Some("sha256"));
    assert_eq!(items[0].checksum.as_deref(), Some("ff"));
    assert_eq!(items[0].size, Some(3));
    assert!(items[1].checksum_method.is_none() && items[1].checksum.is_none());
    let forced: Vec<&str> = items[2..].iter().map(|x| x.key.as_str()).collect();
    assert_eq!(
        forced,
        vec![
            "pkgs/main/linux-64/repodata.json",
            "pkgs/main/linux-64/repodata.json.bz2",
            "pkgs/main/linux-64/current_repodata.json"
        ]
    );
    assert!(items[2..].iter().all(|x| x.flags.force && x.flags.force_last));
    let conda = Conda::new(
        CondaConfig { repo_config: "repos.yaml".to_string() },
        CondaRepos { base: "https://repo".to_string(), repos: vec![] },
    );
    assert_eq!(conda.repodata_url("pkgs/main/noarch"), "https://repo/pkgs/main/noarch/repodata.json");
    assert_eq!(conda.get_object(&items[0]).0, "https://repo/pkgs/main/linux-64/a-1.0.tar.bz2");
}

#[test]
fn crates_io_items() {
    let source = CratesIo {
        zip_master: "z".to_string(),
        crates_base: "https://static.crates.io/crates".to_string(),
        debug: true,
    };
    let item = source.package_item(CratesIoPackage {
        name: "serde".to_string(),
        vers: "1.0.0".to_string(),
        cksum: "ab".to_string(),
    });
    assert_eq!(item.key, "serde/serde-1.0.0.crate");
    assert_eq!(item.checksum_method.as_deref(), Some("sha256"));
    assert_eq!(item.checksum.as_deref(), Some("ab"));
    assert_eq!(source.get_object(&item).0, "https://static.crates.io/crates/serde/serde-1.0.0.crate");
    assert!(!source.stops_after(9999) && source.stops_after(10000));
}

#[test]
fn dart_items() {
    let source = Dart { base: "https://pub".to_string(), debug: true };
    assert_eq!(source.api_base(), "https://pub/api/packages");
    assert_eq!(source.package_url("http"), "https://pub//api/packages/http");
    assert_eq!(source.archive_item("https://pub/packages/http/versions/1.tar.gz").unwrap().key, "packages/http/versions/1.tar.gz");
    assert!(matches!(source.archive_item("https://other/x"), Err(Error::DecodeError(_))));
    assert!(matches!(source.next_page(Some("n".to_string())), NextPage::Follow(u) if u == "n"));
    assert!(matches!(source.next_page(None), NextPage::Done));
    let names: Vec<String> = (0..150).map(|i| i.to_string()).collect();
    assert_eq!(source.limit_packages(names.clone()).len(), 100);
    let all = Dart { base: "b".to_string(), debug: false };
    assert_eq!(all.limit_packages(names).len(), 150);
    assert_eq!(source.get_object(&meta("k")).0, "https://pub/k");
}

fn asset(url: &str, size: u64) -> GitHubReleaseAsset {
    GitHubReleaseAsset {
        url: "api".to_string(),
        id: 1,
        name: "n".to_string(),
        content_type: "t".to_string(),
        size,
        created_at: 1,
        updated_at: 2,
        browser_download_url: url.to_string(),
    }
}

#[test]
fn github_release_items() {
    let source = GitHubRelease::new("o/r".to_string(), 2);
    assert_eq!(source.api_url(), "https://api.github.com/repos/o/r/releases");
    let release = |tag: &str, assets: Vec<GitHubReleaseAsset>| GitHubReleaseItem {
        tag_name: tag.to_string(),
        name: tag.to_string(),
        assets,
    };
    let releases = vec![
        release("v3", vec![asset("https://github.com/o/r/releases/download/v3/a", 1), asset("https://github.com/o/r/releases/download/v3/b", 2)]),
        release("v2", vec![]),
        release("v1", vec![asset("https://elsewhere/x", 3)]),
    ];
    let items = source.snapshot(&releases).unwrap();
    let keys: Vec<&str> = items.iter().map(|x| x.key.as_str()).collect();
    assert_eq!(keys, vec!["releases/download/v3/a", "releases/download/v3/b"]);
    assert_eq!(items[1].size, Some(2));
    assert_eq!(items[1].last_modified, Some(2));
    assert!(matches!(GitHubRelease::new("o/r".to_string(), 3).snapshot(&releases), Err(Error::DecodeError(_))));
    assert!(GitHubRelease::new("o/r".to_string(), 0).snapshot(&releases).unwrap().is_empty());
    assert_eq!(source.get_object(&items[0]).0, "https://github.com/o/r/releases/download/v3/a");
}

#[test]
fn gradle_items() {
    let source = Gradle {
        api_base: "a".to_string(),
        distribution_base: "https://services.gradle.org/distributions/".to_string(),
    };
    let v = |rc: Option<&str>, url: Option<&str>| GradleVersion {
        rc_for: rc.map(str::to_string),
        download_url: url.map(str::to_string),
    };
    let url = "https://services.gradle.org/distributions/gradle-7.0-bin.zip";
    assert_eq!(source.version_item(&v(None, Some(url))).unwrap().key, "gradle-7.0-bin.zip");
    assert_eq!(source.version_item(&v(Some(""), Some(url))).unwrap().key, "gradle-7.0-bin.zip");
    assert!(source.version_item(&v(Some("7.0"), Some(url))).is_none());
    assert!(source.version_item(&v(None, None)).is_none());
    assert!(source.version_item(&v(None, Some("https://elsewhere/x.zip"))).is_none());
    assert_eq!(
        source.get_object(&meta("gradle-7.0-bin.zip")).0,
        "https://services.gradle.org/distributions//gradle-7.0-bin.zip"
    );
}

#[test]
fn homebrew_items() {
    let mut source = Homebrew::new(HomebrewConfig { api_base: "a".to_string(), arch: "all".to_string() });
    let file = |platform: &str, url: &str| BottleFile {
        platform: platform.to_string(),
        url: url.to_string(),
        sha256: "ff".to_string(),
    };
    let item = source.add_bottle("go@1.10", "1.10.8", 0, 2, file("catalina", "https://ghcr/1")).unwrap();
    assert_eq!(item.key, "go@1.10-1.10.8.catalina.bottle.2.tar.gz");
    assert_eq!(item.checksum.as_deref(), Some("ff"));
    let plain = source.add_bottle("gcc", "10.2.0", 4, 0, file("big_sur", "https://ghcr/2")).unwrap();
    assert_eq!(plain.key, "gcc-10.2.0_4.big_sur.bottle.tar.gz");
    let encoded = source.add_bottle("a%2Bb", "1", 0, 0, file("x", "https://ghcr/3")).unwrap();
    assert_eq!(encoded.key, "a+b-1.x.bottle.tar.gz");
    assert_eq!(source.url_for(&item).as_deref(), Some("https://ghcr/1"));
    assert_eq!(source.url_for(&plain).as_deref(), Some("https://ghcr/2"));
    assert!(source.url_for(&meta("unknown")).is_none());
    source.add_bottle("gcc", "10.2.0", 4, 0, file("big_sur", "https://ghcr/9")).unwrap();
    assert_eq!(source.url_for(&plain).as_deref(), Some("https://ghcr/9"));
    let mut one = Homebrew::new(HomebrewConfig { api_base: "a".to_string(), arch: "mojave".to_string() });
    assert!(one.add_bottle("a", "1", 0, 0, file("catalina", "u")).is_none());
    assert!(one.add_bottle("a", "1", 0, 0, file("mojave", "u")).is_some());
    assert!(one.wants_platform("mojave") && !one.wants_platform("all"));
    let any = Homebrew::new(HomebrewConfig { api_base: "a".to_string(), arch: "".to_string() });
    assert!(any.wants_platform("whatever"));
}

#[test]
fn homebrew_formulae_count_only_with_a_stable_bottle() {
    let file = |platform: &str, url: &str| BottleFile {
        platform: platform.to_string(),
        url: url.to_string(),
        sha256: "ff".to_string(),
    };
    let formula = |stable: Option<&str>, bottle: bool, files: Option<Vec<BottleFile>>| Formula {
        name: "gcc".to_string(),
        stable: stable.map(|v| v.to_string()),
        bottle,
        revision: 4,
        stable_bottle: files.map(|files| StableBottle { rebuild: 0, files }),
    };
    let mut source =
        Homebrew::new(HomebrewConfig { api_base: "a".to_string(), arch: "big_sur".to_string() });
    let items = source.add_formula(formula(
        Some("10.2.0"),
        true,
        Some(vec![file("catalina", "u1"), file("big_sur", "u2")]),
    ));
    let keys: Vec<&str> = items.iter().map(|item| item.key.as_str()).collect();
    assert_eq!(keys, vec!["gcc-10.2.0_4.big_sur.bottle.tar.gz"]);
    assert_eq!(items[0].checksum_method.as_deref(), Some("sha256"));
    assert_eq!(source.url_for(&items[0]).as_deref(), Some("u2"));
    assert_eq!(source.url_mapping.len(), 1);
    let files = || Some(vec![file("big_sur", "u3")]);
    assert!(source.add_formula(formula(Some("1"), false, files())).is_empty());
    assert!(source.add_formula(formula(None, true, files())).is_empty());
    assert!(source.add_formula(formula(Some("1"), true, None)).is_empty());
    assert!(source.add_formula(formula(Some("1"), true, Some(vec![]))).is_empty());
    assert_eq!(source.url_mapping.len(), 1);
    let mut all = Homebrew::new(HomebrewConfig { api_base: "a".to_string(), arch: "all".to_string() });
    let both = all.add_formula(formula(
        Some("10.2.0"),
        true,
        Some(vec![file("catalina", "u1"), file("big_sur", "u2")]),
    ));
    let keys: Vec<&str> = both.iter().map(|item| item.key.as_str()).collect();
    assert_eq!(
        keys,
        vec!["gcc-10.2.0_4.catalina.bottle.tar.gz", "gcc-10.2.0_4.big_sur.bottle.tar.gz"]
    );
}

#[test]
fn html_links_become_keys() {
    let scanner = HtmlScanner { url: "u".to_string() };
    let page = "<html>\n<a href=\"a/b.tar\">b</a>\n<p>x</p>\n<a class=\"c\" href=\"../d\">d</a>\n";
    let items = scanner.snapshot(page).unwrap();
    let keys: Vec<&str> = items.iter().map(|x| x.0.as_str()).collect();
    assert_eq!(keys, vec!["a/b.tar", "../d"]);
    assert!(scanner.snapshot("no links").unwrap().is_empty());
}

#[test]
fn pypi_items() {
    let source = Pypi {
        simple_base: "https://pypi/simple".to_string(),
        package_base: "https://pypi/packages".to_string(),
        debug: true,
    };
    assert_eq!(source.index_url(), "https://pypi/simple/");
    assert_eq!(
        source.links("<a href=\"numpy/\">numpy</a>\n<a href=\"six/\">six</a>\n").unwrap(),
        vec!["numpy/", "six/"]
    );
    assert_eq!(source.package_page_url("numpy/"), "https://pypi/simple/numpy/");
    let item = source.file_item("../../packages/ab/cd/numpy-1.0.tar.gz#sha256=00");
    assert_eq!(item.0, "ab/cd/numpy-1.0.tar.gz#sha256=00");
    assert!(!item.1);
    assert_eq!(
        source.get_object(&item).unwrap().0,
        "https://pypi/packages/ab/cd/numpy-1.0.tar.gz"
    );
    assert_eq!(
        source.get_object(&SnapshotPath::new("a b?q=1".to_string())).unwrap().0,
        "https://pypi/packages/a%20b"
    );
    let broken = Pypi { simple_base: "s".to_string(), package_base: "not a url".to_string(), debug: false };
    assert!(matches!(broken.get_object(&item), Err(Error::DecodeError(_))));
    assert_eq!(source.limit_index("x".repeat(1500)).len(), 1000);
    assert_eq!(source.limit_index("short".to_string()), "short");
    assert_eq!(broken.limit_index("x".repeat(1500)).len(), 1500);
}

#[test]
fn rustup_targets_and_items() {
    let source = Rustup { base: "https://static.rust-lang.org".to_string(), days_to_retain: 2 };
    let targets = source.targets(1614834367).unwrap();
    let expected: Vec<(String, String)> = [
        ("2021-03-04", "beta"),
        ("2021-03-04", "stable"),
        ("2021-03-04", "nightly"),
        ("2021-03-03", "beta"),
        ("2021-03-03", "stable"),
        ("2021-03-03", "nightly"),
        ("2021-03-02", "stable"),
        ("2021-03-01", "stable"),
        ("2021-02-28", "stable"),
        ("2021-02-27", "stable"),
        ("2021-02-26", "stable"),
        ("2021-02-25", "stable"),
    ]
    .iter()
    .map(|(d, c)| (d.to_string(), c.to_string()))
    .collect();
    assert_eq!(targets, expected);
    assert!(Rustup { base: "b".to_string(), days_to_retain: 0 }.targets(0).unwrap().is_empty());
    assert!(matches!(
        Rustup { base: "b".to_string(), days_to_retain: usize::MAX }.targets(0),
        Err(Error::ConfigureError(_))
    ));
    assert_eq!(source.manifest("2021-03-04", "beta"), "dist/2021-03-04/channel-rust-beta.toml");
    let manifest = "[pkg.rust]\nurl = \"https://static.rust-lang.org/dist/2021-03-04/rust-1.50.tar.gz\"\nhash = \"00\"\nurl = \"https://elsewhere/x\"\n";
    let items = source.manifest_items("dist/2021-03-04/channel-rust-beta.toml".to_string(), manifest).unwrap();
    let got: Vec<(&str, bool)> = items.iter().map(|x| (x.0.as_str(), x.1)).collect();
    assert_eq!(
        got,
        vec![
            ("dist/2021-03-04/rust-1.50.tar.gz", false),
            ("https://elsewhere/x", false),
            ("dist/2021-03-04/channel-rust-beta.toml", true),
        ]
    );
    let floating: Vec<String> = source.floating_items().into_iter().map(|x| x.0).collect();
    assert_eq!(
        floating,
        vec![
            "dist/channel-rust-beta.toml",
            "dist/channel-rust-beta.toml.sha256",
            "dist/channel-rust-stable.toml",
            "dist/channel-rust-stable.toml.sha256",
            "dist/channel-rust-nightly.toml",
            "dist/channel-rust-nightly.toml.sha256",
        ]
    );
    assert!(source.floating_items().iter().all(|x| x.1));
    assert_eq!(source.get_object(&items[0]).0, "https://static.rust-lang.org/dist/2021-03-04/rust-1.50.tar.gz");
}

fn release(tags: &[&str], source: Option<&str>, binaries: &[&str]) -> Release {
    Release {
        vi_tags: tags.iter().map(|x| x.to_string()).collect(),
        vi_source_dl: source.map(|u| DownloadSource { dl_uri: u.to_string(), dl_hash: "h".to_string() }),
        vi_arch: binaries
            .iter()
            .map(|u| BinaryRelease {
                arch: "A_64".to_string(),
                distribution: "Linux_Debian".to_string(),
                version: "unknown_versioning".to_string(),
                source: DownloadSource { dl_uri: u.to_string(), dl_hash: "h".to_string() },
            })
            .collect(),
    }
}

#[test]
fn ghcup_uris() {
    let r = release(&["Latest"], Some("s"), &["a", "b", "a", "s"]);
    assert_eq!(r.uris(), vec!["a", "b", "s"]);
    assert!(!r.is_old());
    assert!(release(&["base-4.12", "old"], None, &[]).is_old());
    assert!(release(&[], None, &[]).uris().is_empty());
    let components = Components {
        cabal: vec![release(&[], None, &["c1"]), release(&["old"], None, &["c0"])],
        hls: vec![release(&[], None, &["h1", "c1"])],
        ghcup: vec![],
        ghc: vec![release(&["old"], Some("g0"), &[])],
        stack: vec![release(&[], None, &["s1"])],
    };
    assert_eq!(components.uris(false), vec!["c1", "h1", "s1"]);
    assert_eq!(components.uris(true), vec!["c1", "c0", "h1", "g0", "s1"]);
}

#[test]
fn ghcup_versions() {
    assert_eq!(Version::from_str("0.0.8").unwrap(), Version::new(0, 0, 8));
    assert_eq!(Version::from_str("10.20.30").unwrap(), Version::new(10, 20, 30));
    for text in ["0.0", "0.0.8.1", "a.b.c", "1..2", "", "1.2.", "-1.2.3", "1.2.3 "] {
        assert!(Version::from_str(text).is_err(), "{:?}", text);
    }
    assert_eq!(Version::new(1, 2, 3).to_string(), "1.2.3");
    assert_eq!(Version::new(0, 0, 8).compare(&Version::new(0, 0, 7)), KeyOrder::After);
    assert_eq!(Version::new(0, 1, 0).compare(&Version::new(0, 0, 1)), KeyOrder::Before);
    assert_eq!(Version::new(2, 1, 5).compare(&Version::new(1, 1, 5)), KeyOrder::After);
    assert_eq!(Version::new(1, 1, 5).compare(&Version::new(1, 1, 5)), KeyOrder::Same);
    let files = |paths: &[&str]| -> Vec<FileMeta> {
        paths
            .iter()
            .map(|p| FileMeta { path: p.to_string(), is_blob: true, url: "u".to_string() })
            .collect()
    };
    let found = filter_map_file_objs(files(&[
        "README.md",
        "ghcup-0.0.4.yaml",
        "data/ghcup-0.0.7.yaml",
        "ghcup-0.0.7.yaml.sig",
        "ghcup-0.0.6.yaml",
    ]));
    let got: Vec<(&str, &str, Version)> =
        found.iter().map(|f| (f.name.as_str(), f.path.as_str(), f.version)).collect();
    assert_eq!(
        got,
        vec![
            ("ghcup-0.0.4.yaml", "ghcup-0.0.4.yaml", Version::new(0, 0, 4)),
            ("ghcup-0.0.7.yaml", "data/ghcup-0.0.7.yaml", Version::new(0, 0, 7)),
            ("ghcup-0.0.6.yaml", "ghcup-0.0.6.yaml", Version::new(0, 0, 6)),
        ]
    );
    assert_eq!(latest(&found), Some(1));
    assert_eq!(latest(&vec![]), None);
}

#[test]
fn ghcup_addresses() {
    assert_eq!(trim_base("https://gitlab/raw/master///"), "https://gitlab/raw/master");
    assert_eq!(trim_base("///"), "");
    assert_eq!(
        trim_leading("https://www.haskell.org/https://www.haskell.org/ghcup/data/x.yaml", "https://www.haskell.org/"),
        "ghcup/data/x.yaml"
    );
    assert_eq!(trim_leading("abc", ""), "abc");
    assert_eq!(
        find_yaml_url("ghcupURL :: URI\nghcupURL = [uri|https://www.haskell.org/ghcup/data/ghcup-0.0.4.yaml|]\n").unwrap(),
        "https://www.haskell.org/ghcup/data/ghcup-0.0.4.yaml"
    );
    assert!(matches!(find_yaml_url("nothing"), Err(Error::ProcessError(_))));
    let config = || GhcupRepoConfig { repo: "haskell/ghcup-metadata".to_string(), branch: "master".to_string() };
    assert_eq!(GhcupYaml::new(config(), true).path_prefix, "ghcup/data");
    assert_eq!(GhcupYaml::new(config(), false).path_prefix, "haskell/ghcup-metadata/master");
}

#[test]
fn opam_tasks() {
    assert_eq!(split_once("md5=abc=def", "="), Some(("md5".to_string(), "abc=def".to_string())));
    assert_eq!(split_once("abc", "="), None);
    assert_eq!(split_once("a::b", "::"), Some(("a".to_string(), "b".to_string())));
    assert_eq!(split_once("abc", ""), Some(("".to_string(), "abc".to_string())));
    assert_eq!(split_once("", "="), None);
    assert_eq!(parse_checksum("sha256=00ff"), ("sha256".to_string(), "00ff".to_string()));
    assert_eq!(parse_checksum("00ff"), ("md5".to_string(), "00ff".to_string()));
    assert_eq!(build_hash_url("md5", "abcdef").as_deref(), Some("md5/ab/abcdef"));
    assert_eq!(build_hash_url("md5", "a"), None);
    let with_cache = Opam {
        repo: "https://opam.ocaml.org".to_string(),
        base_path: "/srv/opam".to_string(),
        archive_url: Some("https://opam.ocaml.org/cache".to_string()),
        debug_mode: true,
        concurrent_downloads: 4,
    };
    let package = OpamDownloadTask {
        name: "dune.2.0".to_string(),
        src: "https://github.com/ocaml/dune/x.tbz".to_string(),
        hashes: vec![("sha256".to_string(), "abcdef".to_string()), ("md5".to_string(), "00".to_string())],
    };
    let tasks = with_cache.download_tasks(&package);
    assert_eq!(tasks.len(), 2);
    assert_eq!(tasks[0].url, "https://opam.ocaml.org/cache/sha256/ab/abcdef");
    assert_eq!(tasks[1].url, "https://github.com/ocaml/dune/x.tbz");
    assert!(tasks.iter().all(|t| t.path == "/srv/opam/sha256/ab/abcdef" && t.hash == "abcdef" && t.hash_type == "sha256" && t.name == "dune.2.0"));
    assert_eq!(with_cache.repo_url("index.tar.gz"), "https://opam.ocaml.org/index.tar.gz");
    assert!(with_cache.reads_entry(1999) && !with_cache.reads_entry(2000));
    let taken = vec![("sha256".to_string(), "abcdef".to_string())];
    assert!(with_cache.seen(&taken, "sha256", "abcdef"));
    assert!(!with_cache.seen(&taken, "md5", "abcdef"));
}
