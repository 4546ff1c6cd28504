use mirror_clone::checksum_pipe::ChecksumPipe;
use mirror_clone::common::SnapshotConfig;
use mirror_clone::error::Error;
use mirror_clone::index_pipe::{IndexPipe, IndexRoute};
use mirror_clone::metadata::SnapshotMeta;
use mirror_clone::overlay::{is_tmp_file, OverlayDirectory};
use mirror_clone::scheduler::{Action, Transfer};
use mirror_clone::simple_diff_transfer::{SimpleDiffTransfer, SimpleDiffTransferConfig};
use mirror_clone::stream_pipe::check_status;
use mirror_clone::utils::checksum::calc_checksum;
use mirror_clone::utils::retry::{IoHandler, RetryPolicy};

fn meta(key: &str) -> SnapshotMeta {
    SnapshotMeta::new(key.to_string())
}

fn engine(no_delete: bool) -> SimpleDiffTransfer<(), ()> {
    SimpleDiffTransfer::new(
        (),
        (),
        SimpleDiffTransferConfig {
            progress: false,
            concurrent_transfer: 8,
            no_delete,
            dry_run: false,
            force_all: false,
            snapshot_config: SnapshotConfig { concurrent_resolve: 64 },
            print_plan: 10,
        },
    )
}

/// Carries every job out at once and returns them in the order in which
/// they began.
fn run(transfer: &mut Transfer<SnapshotMeta>) -> Vec<(String, bool)> {
    let mut order = vec![];
    let mut in_flight = vec![];
    loop {
        match transfer.scheduler.next_action() {
            Action::Start(i) => {
                let job = transfer.scheduler.job(i).unwrap();
                order.push((job.item.key.clone(), job.deleting));
                in_flight.push(i);
            }
            Action::Wait => {
                let i = in_flight.pop().expect("a job is in flight");
                assert!(transfer.scheduler.complete(i, true));
            }
            Action::Finished => return order,
        }
    }
}

#[test]
fn an_empty_target_gets_every_file_and_the_listings() {
    let mut pipe = IndexPipe::new((), "/buf".to_string(), "Root".to_string(), 999);
    let source = pipe.snapshot(vec![meta("a"), meta("b/c")]);
    let mut transfer = engine(false).plan(source, vec![]).unwrap();
    assert_eq!((transfer.added, transfer.updated, transfer.deleted), (4, 0, 0));
    assert_eq!(
        transfer.preview,
        vec!["+ a", "+ b/c", "+ b/mirror_clone_list.html", "+ mirror_clone_list.html"]
    );
    let order = run(&mut transfer);
    assert_eq!(
        order,
        vec![
            ("a".to_string(), false),
            ("b/c".to_string(), false),
            ("b/mirror_clone_list.html".to_string(), false),
            ("mirror_clone_list.html".to_string(), false),
        ]
    );
    match pipe.route("mirror_clone_list.html", "now", 30, 40) {
        IndexRoute::Listing { content, .. } => {
            assert!(content.contains(r#"<a href="a">a</a>"#));
            assert!(content.contains(r#"<a href="b/mirror_clone_list.html">b/</a>"#));
        }
        _ => panic!("the root has a listing"),
    }
    match pipe.route("b/mirror_clone_list.html", "now", 30, 40) {
        IndexRoute::Listing { content, .. } => {
            assert!(content.contains(r#"<a href="c">c</a>"#));
            assert!(content.contains(r#"<a href="../mirror_clone_list.html">..</a>"#));
            assert!(content.contains(r#"<a href="../mirror_clone_list.html">Root</a>"#));
        }
        _ => panic!("the directory has a listing"),
    }
    assert!(matches!(pipe.route("a", "now", 30, 40), IndexRoute::Delegate));
    let mut overlay =
        OverlayDirectory::open("/base".to_string(), "RUN00001".to_string(), vec![]).directory;
    for (key, _) in &order {
        let file = overlay.create_file_for_write(key);
        assert!(is_tmp_file(&file.tmp_path) && !is_tmp_file(&file.path));
        overlay.fuse(file);
    }
    assert!(overlay.commit().is_empty());
    assert!(overlay.fused_files.iter().all(|f| !is_tmp_file(&f.path)));
}

#[test]
fn a_stale_file_stays_only_where_nothing_is_deleted() {
    let source = || vec![SnapshotMeta { size: Some(5), ..meta("a") }];
    let target = || {
        vec![
            SnapshotMeta { size: Some(5), ..meta("a") },
            SnapshotMeta { size: Some(1), ..meta("stale") },
        ]
    };
    let mut kept = engine(true).plan(source(), target()).unwrap();
    assert_eq!((kept.added, kept.updated, kept.deleted), (0, 0, 1));
    assert!(run(&mut kept).is_empty());
    let mut swept = engine(false).plan(source(), target()).unwrap();
    assert_eq!(run(&mut swept), vec![("stale".to_string(), true)]);
}

#[test]
fn a_file_appears_only_with_the_declared_digest() {
    let content = b"package";
    let digest = calc_checksum(content, "sha256").unwrap();
    let declared = |checksum: &str| SnapshotMeta {
        checksum_method: Some("sha256".to_string()),
        checksum: Some(checksum.to_string()),
        ..meta("pkg.tar")
    };
    let pipe = ChecksumPipe::new(());
    assert!(pipe.verify(&declared(&digest), content).is_ok());
    let other = calc_checksum(b"other", "sha256").unwrap();
    match pipe.verify(&declared(&other), content) {
        Err(Error::ChecksumError { expected, got, .. }) => {
            assert_eq!(expected, other);
            assert_eq!(got, digest);
        }
        _ => panic!("the digest is not the declared one"),
    }
}

#[test]
fn a_file_that_goes_last_begins_after_the_others_are_over() {
    let index = SnapshotMeta {
        flags: mirror_clone::metadata::SnapshotMetaFlag { force: false, force_last: true },
        ..meta("index.json")
    };
    let mut transfer = engine(false).plan(vec![index, meta("pkg.tar")], vec![]).unwrap();
    assert_eq!(transfer.scheduler.next_action(), Action::Start(0));
    assert_eq!(transfer.scheduler.job(0).unwrap().item.key, "pkg.tar");
    assert_eq!(transfer.scheduler.next_action(), Action::Wait);
    assert!(transfer.scheduler.complete(0, true));
    assert_eq!(transfer.scheduler.next_action(), Action::Start(1));
    assert_eq!(transfer.scheduler.job(1).unwrap().item.key, "index.json");
    assert!(transfer.scheduler.complete(1, true));
    assert_eq!(transfer.scheduler.next_action(), Action::Finished);
}

#[test]
fn one_failed_fetch_leaves_the_other_items_alone() {
    let source: Vec<SnapshotMeta> = (0..10).map(|i| meta(&format!("item-{}", i))).collect();
    let mut transfer = engine(false).plan(source, vec![]).unwrap();
    let mut transferred = 0;
    let mut warnings = 0;
    loop {
        match transfer.scheduler.next_action() {
            Action::Start(i) => {
                let status = if i == 3 { 404 } else { 200 };
                let fetched = check_status(status);
                let succeeded = fetched.is_ok();
                match fetched {
                    Ok(()) => transferred += 1,
                    Err(err) => {
                        assert!(matches!(
                            IoHandler::new(5, "item").handle(1, err),
                            RetryPolicy::ForwardError(Error::HTTPError(404))
                        ));
                        warnings += 1;
                    }
                }
                assert!(transfer.scheduler.complete(i, succeeded));
            }
            Action::Wait => panic!("nothing is in flight"),
            Action::Finished => break,
        }
    }
    assert_eq!((transferred, warnings), (9, 1));
    assert_eq!(transfer.scheduler.failures(), 1);
    for i in 0..10 {
        assert_eq!(transfer.scheduler.has_failed(i), i == 3);
        assert!(!transfer.scheduler.is_running(i));
    }
}

#[test]
fn a_failed_enumeration_ends_the_run_before_any_plan() {
    let failed = engine(false).plan_from(Err(Error::HTTPError(500)), Ok(vec![meta("kept")]));
    assert!(matches!(failed, Err(Error::HTTPError(500))));
    let failed = engine(false).plan_from(Ok(vec![meta("a")]), Err(Error::NoneError));
    assert!(matches!(failed, Err(Error::NoneError)));
    let failed: Result<Transfer<SnapshotMeta>, Error> =
        engine(false).plan_from(Err(Error::HTTPError(500)), Err(Error::NoneError));
    assert!(matches!(failed, Err(Error::HTTPError(500))));
    let mut planned = engine(false).plan_from(Ok(vec![meta("a")]), Ok(vec![meta("b")])).unwrap();
    assert_eq!(run(&mut planned), vec![("a".to_string(), false), ("b".to_string(), true)]);
    assert!(planned.scheduler.deletes("b"));
    assert!(!planned.scheduler.deletes("a"));
    assert_eq!(planned.scheduler.failures(), 0);
}

#[test]
fn a_dry_run_stops_after_the_plan_whatever_the_bound() {
    for bound in [0, 1, 8] {
        for no_delete in [false, true] {
            let mut dry = engine(no_delete);
            dry.config.dry_run = true;
            dry.config.concurrent_transfer = bound;
            let mut transfer = dry.plan(vec![meta("a")], vec![meta("b")]).unwrap();
            assert_eq!((transfer.added, transfer.deleted), (1, 1));
            assert_eq!(transfer.scheduler.len(), 0);
            assert_eq!(transfer.scheduler.next_action(), Action::Finished);
            assert!(!transfer.scheduler.deletes("b"));
        }
    }
}

#[test]
fn a_run_without_room_for_a_transfer_is_refused() {
    let mut refused = engine(false);
    refused.config.concurrent_transfer = 0;
    assert!(matches!(
        refused.plan(vec![meta("a")], vec![]),
        Err(Error::ConfigureError(_))
    ));
    let mut dry = engine(false);
    dry.config.dry_run = true;
    let mut transfer = dry.plan(vec![meta("a")], vec![meta("b")]).unwrap();
    assert_eq!((transfer.added, transfer.deleted), (1, 1));
    assert_eq!(transfer.preview, vec!["+ a", "- b"]);
    assert!(run(&mut transfer).is_empty());
}
