use mirror_clone::common::{SnapshotConfig, SnapshotPath};
use mirror_clone::error::Error;
use mirror_clone::index_pipe::IndexPipe;
use mirror_clone::metadata::SnapshotMeta;
use mirror_clone::opam::{entry_package, retry_from_source, DownloadTask, OpamValue, UrlSection};
use mirror_clone::simple_diff_transfer::{generate_plan, TransferPlan};
use mirror_clone::sorting::{stable_sort, ByKey, ByPriority, ByText};
use mirror_clone::traits::echo_key;
use mirror_clone::utils::hash_string;
use std::hash::{Hash, Hasher};

fn meta(key: &str) -> SnapshotMeta {
    SnapshotMeta::new(key.to_string())
}

#[test]
fn hash_string_is_the_hash_of_the_standard_library() {
    for key in ["", "a", "https://example.org/a?b=c", "日本語"] {
        let mut hasher = std::collections::hash_map::DefaultHasher::new();
        key.hash(&mut hasher);
        assert_eq!(hash_string(key), format!("{:x}", hasher.finish()), "{:?}", key);
    }
}

#[test]
fn errors_are_written_for_the_log() {
    assert_eq!(Error::HTTPError(404).to_string(), "HTTP Error 404");
    assert_eq!(Error::Network("reset".to_string()).to_string(), "Network Error reset");
    assert_eq!(Error::NoneError.to_string(), "None Error");
    assert_eq!(
        Error::LengthMismatch { expected: 10, got: 7 }.to_string(),
        "content length mismatch: 7/10"
    );
    assert_eq!(
        Error::ModifiedMismatch { http: 2, snapshot: 1 }.to_string(),
        "mismatch modified time: http=2, snapshot=1"
    );
    assert_eq!(
        Error::ChecksumError {
            method: "sha256".to_string(),
            expected: "aa".to_string(),
            got: "bb".to_string()
        }
        .to_string(),
        "Checksum Error: method=sha256, expected=aa, got=bb"
    );
    assert_eq!(Error::NoModifiedTime.to_string(), "no modified time");
    assert_eq!(Error::UnexpectedPrefix.to_string(), "unexpected prefix");
    assert_eq!(Error::TimeoutError.to_string(), "Timeout Error");
    assert_eq!(Error::ConfigureError("x".to_string()).to_string(), "Configure Error x");
    assert_eq!(Error::ProcessError("x".to_string()).to_string(), "Process Error x");
    assert_eq!(Error::StorageError("x".to_string()).to_string(), "Storage Error x");
    assert_eq!(Error::PipeError("x".to_string()).to_string(), "Pipe Error x");
    assert_eq!(Error::IoError("x".to_string()).to_string(), "IO Error x");
    assert_eq!(Error::DecodeError("x".to_string()).to_string(), "Decode Error x");
}

#[test]
fn keys_echo_as_objects() {
    assert_eq!(echo_key(&SnapshotPath::new("a/b".to_string())).0, "a/b");
    assert_eq!(echo_key(&meta("c")).0, "c");
    assert_eq!(SnapshotConfig::default().concurrent_resolve, 64);
}

#[test]
fn sort_is_stable_and_complete() {
    let items: Vec<SnapshotMeta> = [("b", 1), ("a", 2), ("b", 3), ("a", 4), ("c", 5), ("", 6), ("b", 7)]
        .iter()
        .map(|(k, s)| SnapshotMeta { size: Some(*s), ..meta(k) })
        .collect();
    let sorted = stable_sort(items, &ByKey);
    let got: Vec<(&str, u64)> = sorted.iter().map(|x| (x.key.as_str(), x.size.unwrap())).collect();
    assert_eq!(
        got,
        vec![("", 6), ("a", 2), ("a", 4), ("b", 1), ("b", 3), ("b", 7), ("c", 5)]
    );
    assert!(stable_sort(Vec::<SnapshotMeta>::new(), &ByKey).is_empty());
    assert_eq!(stable_sort(vec![meta("x")], &ByKey)[0].key, "x");
    let mut texts: Vec<String> = (0..200).map(|i| format!("{}", (i * 7919) % 1000)).collect();
    let sorted = stable_sort(texts.clone(), &ByText);
    texts.sort();
    assert_eq!(sorted, texts);
    let by_priority = stable_sort(
        vec![
            SnapshotMeta::force("i1".to_string()),
            meta("a"),
            SnapshotMeta::force("i2".to_string()),
            meta("b"),
        ],
        &ByPriority,
    );
    let order: Vec<&str> = by_priority.iter().map(|x| x.key.as_str()).collect();
    assert_eq!(order, vec!["a", "b", "i1", "i2"]);
}

#[test]
fn plan_counts_repeated_keys() {
    let report = generate_plan(
        vec![meta("a"), meta("b"), meta("a"), meta("a")],
        vec![meta("c"), meta("c")],
        false,
    );
    assert_eq!(report.source_duplicates, 2);
    assert_eq!(report.target_duplicates, 1);
    assert_eq!(report.plan.add.len(), 2);
    assert_eq!(report.plan.delete.len(), 1);
}

#[test]
fn plan_updates_every_common_key_where_all_is_forced() {
    let source = || vec![meta("a"), meta("b")];
    let target = || vec![meta("b"), meta("c")];
    let calm = generate_plan(source(), target(), false);
    assert!(calm.plan.update.is_empty());
    let forced = generate_plan(source(), target(), true);
    assert_eq!(forced.plan.add.len(), 1);
    assert_eq!(forced.plan.update.len(), 1);
    assert_eq!(forced.plan.update[0].key, "b");
    assert_eq!(forced.plan.delete[0].key, "c");
}

#[test]
fn plan_previews_its_first_lines() {
    let plan = TransferPlan {
        add: vec![meta("a"), meta("b")],
        update: vec![meta("c")],
        delete: vec![meta("d"), meta("e")],
    };
    assert_eq!(plan.preview(0), Vec::<String>::new());
    assert_eq!(plan.preview(1), vec!["+ a"]);
    assert_eq!(plan.preview(4), vec!["+ a", "+ b", "= c", "- d"]);
    assert_eq!(plan.preview(9), vec!["+ a", "+ b", "= c", "- d", "- e"]);
}

#[test]
fn index_pipe_adds_forced_items_to_a_snapshot() {
    let mut pipe = IndexPipe::new((), "buf".to_string(), "base".to_string(), 999);
    let items = pipe.snapshot(vec![
        SnapshotMeta { size: Some(5), ..meta("a") },
        meta("b/c"),
    ]);
    let keys: Vec<&str> = items.iter().map(|x| x.key.as_str()).collect();
    assert_eq!(keys, vec!["a", "b/c", "mirror_clone_list.html", "b/mirror_clone_list.html"]);
    assert_eq!(items[0].size, Some(5));
    assert!(!items[0].flags.force && !items[1].flags.force_last);
    assert!(items[2..].iter().all(|x| x.flags.force && x.flags.force_last));
    let mut paths = IndexPipe::new((), "buf".to_string(), "base".to_string(), 1);
    let items = paths.snapshot_paths(vec![
        SnapshotPath::new("x/y/z".to_string()),
        SnapshotPath::force("w".to_string()),
    ]);
    let got: Vec<(&str, bool)> = items.iter().map(|x| (x.0.as_str(), x.1)).collect();
    assert_eq!(
        got,
        vec![
            ("x/y/z", false),
            ("w", true),
            ("mirror_clone_list.html", true),
            ("x/mirror_clone_list.html", true),
        ]
    );
    let empty = IndexPipe::new((), "b".to_string(), "b".to_string(), 9).snapshot(vec![]);
    assert_eq!(empty.len(), 1);
    assert_eq!(empty[0].key, "mirror_clone_list.html");
}

fn section(fields: Vec<(&str, OpamValue)>) -> UrlSection {
    UrlSection {
        fields: fields.into_iter().map(|(k, v)| (k.to_string(), v)).collect(),
    }
}

fn text(s: &str) -> OpamValue {
    OpamValue::Text(s.to_string())
}

#[test]
fn opam_sections_name_source_and_digests() {
    let s = section(vec![
        ("archive", text("https://old/x.tgz")),
        ("src", text("https://new/x.tgz")),
        ("checksum", OpamValue::List(vec![Some("md5=aa".to_string()), None, Some("bb".to_string())])),
    ]);
    assert_eq!(s.source().as_deref(), Some("https://new/x.tgz"));
    assert_eq!(
        s.checksums(),
        vec![("md5".to_string(), "aa".to_string()), ("md5".to_string(), "bb".to_string())]
    );
    let task = s.task("pkg.1".to_string()).unwrap();
    assert_eq!(task.name, "pkg.1");
    assert_eq!(task.src, "https://new/x.tgz");
    assert_eq!(task.hashes.len(), 2);
    let single = section(vec![("http", text("u")), ("checksum", text("sha512=cc"))]);
    assert_eq!(single.source().as_deref(), Some("u"));
    assert_eq!(single.checksums(), vec![("sha512".to_string(), "cc".to_string())]);
    let other = section(vec![("src", OpamValue::Other), ("archive", text("a"))]);
    assert_eq!(other.source().as_deref(), Some("a"));
    assert!(other.task("p".to_string()).is_none());
    assert!(section(vec![("checksum", text("aa"))]).task("p".to_string()).is_none());
    assert!(section(vec![("src", text("u")), ("checksum", OpamValue::List(vec![None]))])
        .task("p".to_string())
        .is_none());
    assert!(section(vec![("src", text("u")), ("checksum", OpamValue::Other)])
        .task("p".to_string())
        .is_none());
}

#[test]
fn opam_retries_failed_packages_from_their_source() {
    let task = |name: &str| DownloadTask {
        name: name.to_string(),
        url: format!("https://src/{}", name),
        path: "p".to_string(),
        hash_type: "md5".to_string(),
        hash: "aa".to_string(),
    };
    let again = retry_from_source(
        vec![task("a"), task("b"), task("c"), task("b")],
        &vec!["b".to_string(), "z".to_string()],
    );
    let names: Vec<&str> = again.iter().map(|t| t.name.as_str()).collect();
    assert_eq!(names, vec!["b", "b"]);
    assert!(retry_from_source(vec![task("a")], &vec![]).is_empty());
}

#[test]
fn opam_entries_name_their_package_by_the_third_part() {
    assert_eq!(
        entry_package("packages/0ad/0ad.0.0.26/opam"),
        Some("0ad.0.0.26".to_string())
    );
    assert_eq!(entry_package("packages/foo/opam"), Some("opam".to_string()));
    assert_eq!(entry_package("a//opam"), Some("opam".to_string()));
    assert_eq!(entry_package("a/b//opam"), Some("".to_string()));
    assert_eq!(entry_package("foo/opam"), None);
    assert_eq!(entry_package("/opam"), None);
    assert_eq!(entry_package("opam"), None);
    assert_eq!(entry_package("packages/foo/foo.1/files/fix.patch"), None);
    assert_eq!(entry_package("packages/foo/foo.1/xopam"), None);
}
