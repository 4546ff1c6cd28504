use mirror_clone::common::SnapshotPath;
use mirror_clone::error::Error;
use mirror_clone::filter_pipe::{keep_unmarked, FilterPipe};
use mirror_clone::merge_pipe::{dispatch, MergePipe, MergeRoute, NilPipe};
use mirror_clone::metadata::{meta_as_path, MetaAsPath, SnapshotMeta};
use mirror_clone::rewrite_pipe::{fn_regex_rewrite, regex_rewrite, RewritePipe, Rewritten};
use mirror_clone::common::TransferURL;
use mirror_clone::stream_pipe::{
    check_length, check_status, count_chunk, http_modified, ByteStreamPipe, FetchPhase, FetchStep,
};
use mirror_clone::utils::hash_string;
use mirror_clone::traits::Key;

fn meta(key: &str) -> SnapshotMeta {
    SnapshotMeta::new(key.to_string())
}

fn keys(items: &[SnapshotMeta]) -> Vec<&str> {
    items.iter().map(|x| x.key.as_str()).collect()
}

#[test]
fn merge_pipe_closes_its_prefix_with_a_slash() {
    assert_eq!(MergePipe::new("packages", (), ()).prefix, "packages/");
    assert_eq!(MergePipe::new("packages/", (), ()).prefix, "packages/");
    assert_eq!(MergePipe::new("", (), ()).prefix, "/");
}

#[test]
fn merge_pipe_prefixes_the_first_source() {
    let pipe = MergePipe::new("hls", (), ());
    let forced = SnapshotMeta::force("x".to_string());
    let merged = pipe.snapshot(vec![meta("a/b"), forced], vec![meta("c")]);
    assert_eq!(keys(&merged), vec!["hls/a/b", "hls/x", "c"]);
    assert!(merged[1].flags.force && merged[1].flags.force_last);
    assert!(!merged[0].flags.force);
}

#[test]
fn merge_pipe_routes_by_prefix() {
    let pipe = MergePipe::new("hls", (), ());
    match pipe.route(SnapshotMeta { size: Some(3), ..meta("hls/a/b") }) {
        MergeRoute::First(item) => {
            assert_eq!(item.key, "a/b");
            assert_eq!(item.size, Some(3));
        }
        MergeRoute::Second(_) => panic!("the key starts with the prefix"),
    }
    match pipe.route(meta("hlsx/a")) {
        MergeRoute::Second(item) => assert_eq!(item.key, "hlsx/a"),
        MergeRoute::First(_) => panic!("the key does not start with the prefix"),
    }
    match pipe.route(SnapshotPath::force("hls/".to_string())) {
        MergeRoute::First(item) => {
            assert_eq!(item.key(), "");
            assert!(item.1);
        }
        MergeRoute::Second(_) => panic!("the key is the prefix"),
    }
}

#[test]
fn merge_chain_dispatches_to_the_one_source() {
    let prefixes: Vec<String> = ["packages/", "hls/", "stack/"]
        .iter()
        .map(|x| x.to_string())
        .collect();
    assert_eq!(dispatch(&prefixes, "hls/1.0/a.tar").unwrap(), (1, "1.0/a.tar".to_string()));
    assert_eq!(dispatch(&prefixes, "packages/").unwrap(), (0, "".to_string()));
    assert!(matches!(dispatch(&prefixes, "other/x"), Err(Error::UnexpectedPrefix)));
    assert!(matches!(dispatch(&prefixes, "hls"), Err(Error::UnexpectedPrefix)));
    assert!(matches!(
        NilPipe.get_object(&meta("x")),
        Err(Error::UnexpectedPrefix)
    ));
    assert!(NilPipe.snapshot::<SnapshotMeta>().is_empty());
}

#[test]
fn filter_pipe_drops_what_a_pattern_matches() {
    let pipe = FilterPipe::new((), vec![r"\.sig$".to_string(), "^tmp/".to_string()]);
    let kept = pipe
        .snapshot(vec![meta("a.tar"), meta("a.tar.sig"), meta("tmp/x"), meta("x/tmp/y")])
        .unwrap();
    assert_eq!(keys(&kept), vec!["a.tar", "x/tmp/y"]);
    assert_eq!(pipe.excludes("b.sig").unwrap(), true);
    assert_eq!(pipe.excludes("b.sig").unwrap(), true);
    assert_eq!(pipe.excludes("b.sign").unwrap(), false);
    let all = FilterPipe::new((), vec![]);
    assert_eq!(all.snapshot(vec![meta("a")]).unwrap().len(), 1);
}

#[test]
fn filter_pipe_refuses_a_broken_pattern() {
    let pipe = FilterPipe::new((), vec!["(".to_string()]);
    assert!(matches!(pipe.excludes("a"), Err(Error::ConfigureError(_))));
    assert!(matches!(
        pipe.snapshot(vec![meta("a")]),
        Err(Error::ConfigureError(_))
    ));
    assert!(pipe.snapshot(Vec::<SnapshotMeta>::new()).unwrap().is_empty());
    assert_eq!(keep_unmarked(vec![1, 2, 3], &vec![true, false, true]), vec![2]);
}

#[test]
fn rewrite_pipe_rewrites_small_texts() {
    let pipe = RewritePipe::new(
        (),
        "buf".to_string(),
        |text: String| Ok(text.replace("upstream", "mirror")),
        32,
    );
    match pipe.rewrite(19, b"get upstream/x.tar\n".to_vec()) {
        Rewritten::Replaced { content, length } => {
            assert_eq!(content, b"get mirror/x.tar\n");
            assert_eq!(length, 17);
        }
        Rewritten::Unchanged => panic!("the text is small enough"),
    }
    assert!(pipe.within_ceiling(32));
    assert!(!pipe.within_ceiling(33));
}

#[test]
fn rewrite_pipe_passes_what_it_cannot_rewrite() {
    let pipe = RewritePipe::new(
        (),
        "buf".to_string(),
        |text: String| {
            if text.is_empty() {
                Err(Error::PipeError("empty".to_string()))
            } else {
                Ok(text)
            }
        },
        4,
    );
    assert!(matches!(pipe.rewrite(5, b"abcde".to_vec()), Rewritten::Unchanged));
    assert!(matches!(pipe.rewrite(2, vec![0xff, 0xfe]), Rewritten::Unchanged));
    assert!(matches!(pipe.rewrite(0, vec![]), Rewritten::Unchanged));
    assert!(matches!(pipe.rewrite(2, b"ab".to_vec()), Rewritten::Replaced { .. }));
}

#[test]
fn regex_rewrite_replaces_every_match() {
    assert_eq!(
        regex_rewrite(
            "https://downloads.haskell.org",
            "https://mirror/packages",
            "a https://downloads.haskell.org/x b https://downloads.haskell.org/y".to_string()
        )
        .unwrap(),
        "a https://mirror/packages/x b https://mirror/packages/y"
    );
    assert!(matches!(
        regex_rewrite("(", "x", "text".to_string()),
        Err(Error::ConfigureError(_))
    ));
}

#[test]
fn rewrite_pipe_takes_a_regex_rewrite() {
    let pipe = RewritePipe::new(
        (),
        "buf".to_string(),
        fn_regex_rewrite("v(\\d+)".to_string(), "version-$1".to_string()),
        100,
    );
    match pipe.rewrite(5, b"v1 v22".to_vec()) {
        Rewritten::Replaced { content, length } => {
            assert_eq!(content, b"version-1 version-22");
            assert_eq!(length, 20);
        }
        Rewritten::Unchanged => panic!("the text matches"),
    }
    let broken = RewritePipe::new((), "buf".to_string(), fn_regex_rewrite("(".to_string(), "x".to_string()), 100);
    assert!(matches!(broken.rewrite(1, b"a".to_vec()), Rewritten::Unchanged));
}

#[test]
fn stream_pipe_names_its_scratch_files() {
    let pipe = ByteStreamPipe::new((), "/buf".to_string(), false);
    assert_eq!(
        pipe.buffer_file_name("1f2e", 1600000000123),
        "/buf/1f2e.1600000000123.buffer"
    );
    assert_eq!(pipe.buffer_file_name("0", 0), "/buf/0.0.buffer");
}

#[test]
fn stream_pipe_checks_status_and_length() {
    assert!(check_status(200).is_ok());
    assert!(check_status(299).is_ok());
    assert!(matches!(check_status(199), Err(Error::HTTPError(199))));
    assert!(matches!(check_status(300), Err(Error::HTTPError(300))));
    assert!(matches!(check_status(404), Err(Error::HTTPError(404))));
    assert!(matches!(check_status(500), Err(Error::HTTPError(500))));
    assert!(check_length(None, 7).is_ok());
    assert!(check_length(Some(7), 7).is_ok());
    assert!(matches!(
        check_length(Some(8), 7),
        Err(Error::LengthMismatch { expected: 8, got: 7 })
    ));
    assert_eq!(count_chunk(5, 7), Some(12));
    assert_eq!(count_chunk(u64::MAX, 1), None);
    assert_eq!(count_chunk(u64::MAX - 1, 1), Some(u64::MAX));
}

#[test]
fn stream_pipe_settles_the_modification_time() {
    let http = ByteStreamPipe::new((), "/buf".to_string(), false);
    let snap = ByteStreamPipe::new((), "/buf".to_string(), true);
    assert_eq!(http.effective_modified(None, Some(5)).unwrap(), 5);
    assert_eq!(http.effective_modified(Some(5), Some(5)).unwrap(), 5);
    assert_eq!(snap.effective_modified(Some(6), None).unwrap(), 6);
    assert_eq!(snap.effective_modified(Some(6), Some(6)).unwrap(), 6);
    assert!(matches!(http.effective_modified(Some(5), None), Err(Error::NoModifiedTime)));
    assert!(matches!(http.effective_modified(None, None), Err(Error::NoModifiedTime)));
    assert!(matches!(snap.effective_modified(None, Some(5)), Err(Error::NoModifiedTime)));
    assert!(matches!(
        http.effective_modified(Some(5), Some(6)),
        Err(Error::ModifiedMismatch { http: 6, snapshot: 5 })
    ));
    assert!(matches!(
        snap.effective_modified(Some(5), Some(6)),
        Err(Error::ModifiedMismatch { http: 6, snapshot: 5 })
    ));
}

#[test]
fn stream_pipe_reads_the_time_of_a_response() {
    assert_eq!(http_modified(Some("Wed, 21 Oct 2015 07:28:00 GMT")), Some(1445412480));
    assert_eq!(http_modified(Some("Thu, 01 Jan 1970 00:00:00 +0000")), Some(0));
    assert_eq!(http_modified(Some("Thu, 01 Jan 1970 01:00:00 +0100")), Some(0));
    assert_eq!(http_modified(Some("yesterday")), None);
    assert_eq!(http_modified(Some("")), None);
    assert_eq!(http_modified(None), None);
}

#[test]
fn stream_pipe_concludes_a_fetch() {
    let pipe = ByteStreamPipe::new((), "/buf".to_string(), false);
    let item = SnapshotMeta { last_modified: Some(9), ..meta("a") };
    let object = pipe
        .conclude(&item, "/buf/x.1.buffer".to_string(), Some(3), 3, Some(9))
        .unwrap();
    assert_eq!(object.path, "/buf/x.1.buffer");
    assert_eq!(object.length, 3);
    assert_eq!(object.modified_at, 9);
    assert!(object.content_type.is_none());
    assert!(matches!(
        pipe.conclude(&item, "p".to_string(), Some(4), 3, Some(8)),
        Err(Error::LengthMismatch { expected: 4, got: 3 })
    ));
    assert!(matches!(
        pipe.conclude(&item, "p".to_string(), None, 3, Some(8)),
        Err(Error::ModifiedMismatch { http: 8, snapshot: 9 })
    ));
    assert!(matches!(
        pipe.conclude(&item, "p".to_string(), None, 3, None),
        Err(Error::NoModifiedTime)
    ));
}

fn url() -> TransferURL {
    TransferURL("https://host/a".to_string())
}

#[test]
fn fetch_delivers_a_complete_body() {
    let pipe = ByteStreamPipe::new((), "/buf".to_string(), false);
    let mut fetch = pipe.begin(&meta("a"), &url(), 7);
    assert_eq!(fetch.scratch, format!("/buf/{}.7.buffer", hash_string("https://host/a")));
    assert_eq!(fetch.phase, FetchPhase::Requesting);
    assert!(matches!(
        fetch.responded(200, Some(5), Some("Thu, 01 Jan 1970 00:00:09 +0000")),
        FetchStep::Receive
    ));
    assert!(matches!(fetch.chunk(2), FetchStep::Receive));
    assert!(matches!(fetch.chunk(3), FetchStep::Receive));
    match fetch.finished() {
        FetchStep::Deliver(object) => {
            assert_eq!(object.path, fetch.scratch);
            assert_eq!(object.length, 5);
            assert_eq!(object.modified_at, 9);
        }
        other => panic!("{:?}", other),
    }
    assert_eq!(fetch.phase, FetchPhase::Over);
    assert!(matches!(
        fetch.failed(Error::TimeoutError),
        FetchStep::Abandon { remove: None, error: Error::TimeoutError }
    ));
}

#[test]
fn fetch_gives_its_scratch_file_up_on_every_failure() {
    let pipe = ByteStreamPipe::new((), "/buf".to_string(), true);
    let item = SnapshotMeta { last_modified: Some(9), ..meta("a") };
    let scratch = pipe.begin(&item, &url(), 7).scratch;
    let gives_up = |step: FetchStep| match step {
        FetchStep::Abandon { remove, error } => {
            assert_eq!(remove.as_deref(), Some(scratch.as_str()));
            error
        }
        other => panic!("{:?}", other),
    };
    let mut fetch = pipe.begin(&item, &url(), 7);
    assert!(matches!(gives_up(fetch.responded(404, None, None)), Error::HTTPError(404)));
    assert_eq!(fetch.phase, FetchPhase::Over);
    let mut fetch = pipe.begin(&item, &url(), 7);
    assert!(matches!(gives_up(fetch.failed(Error::Network("reset".to_string()))), Error::Network(_)));
    let mut fetch = pipe.begin(&item, &url(), 7);
    assert!(matches!(gives_up(fetch.chunk(1)), Error::PipeError(_)));
    let mut fetch = pipe.begin(&item, &url(), 7);
    assert!(matches!(gives_up(fetch.finished()), Error::PipeError(_)));
    let mut fetch = pipe.begin(&item, &url(), 7);
    fetch.responded(200, Some(4), None);
    fetch.chunk(3);
    assert!(matches!(
        gives_up(fetch.finished()),
        Error::LengthMismatch { expected: 4, got: 3 }
    ));
    let mut fetch = pipe.begin(&item, &url(), 7);
    fetch.responded(200, None, Some("Thu, 01 Jan 1970 00:00:08 +0000"));
    assert!(matches!(
        gives_up(fetch.finished()),
        Error::ModifiedMismatch { http: 8, snapshot: 9 }
    ));
    let mut fetch = pipe.begin(&meta("a"), &url(), 7);
    fetch.responded(200, None, Some("Thu, 01 Jan 1970 00:00:08 +0000"));
    assert!(matches!(gives_up(fetch.finished()), Error::NoModifiedTime));
    let mut fetch = pipe.begin(&item, &url(), 7);
    fetch.responded(200, None, None);
    assert!(matches!(gives_up(fetch.responded(200, None, None)), Error::PipeError(_)));
    let mut fetch = pipe.begin(&item, &url(), 7);
    fetch.responded(200, None, None);
    fetch.chunk(usize::MAX);
    fetch.chunk(usize::MAX);
    match fetch.phase {
        FetchPhase::Over => {}
        _ => assert!(matches!(fetch.finished(), FetchStep::Deliver(_))),
    }
}

#[test]
fn items_reduce_to_their_keys() {
    let paths = meta_as_path(vec![SnapshotMeta::force("a".to_string()), meta("b")]);
    assert_eq!(paths.len(), 2);
    assert_eq!(paths[0].0, "a");
    assert!(!paths[0].1);
    assert_eq!(paths[1].0, "b");
    let pipe = MetaAsPath::new(());
    assert_eq!(pipe.snapshot(vec![meta("c")])[0].0, "c");
}

#[test]
fn a_fetch_begins_only_where_the_address_was_resolved() {
    let pipe = ByteStreamPipe::new((), "/buf".to_string(), true);
    let (address, fetch) = pipe.get_object(&meta("a"), Ok(url()), 1600000000123456789).unwrap();
    assert_eq!(address.0, "https://host/a");
    assert_eq!(
        fetch.scratch,
        format!("/buf/{}.1600000000123456789.buffer", hash_string("https://host/a"))
    );
    assert_eq!(fetch.phase, FetchPhase::Requesting);
    assert_eq!(fetch.received, 0);
    assert!(matches!(
        pipe.get_object(&meta("a"), Err(Error::HTTPError(500)), 1),
        Err(Error::HTTPError(500))
    ));
}

#[test]
fn a_fetch_names_its_scratch_file_once() {
    let pipe = ByteStreamPipe::new((), "/buf".to_string(), true);
    let mut fetch = pipe.begin(&meta("a"), &url(), 7);
    let scratch = fetch.scratch.clone();
    assert!(matches!(fetch.responded(200, None, None), FetchStep::Receive));
    assert!(matches!(fetch.chunk(1), FetchStep::Receive));
    match fetch.failed(Error::Network("reset".to_string())) {
        FetchStep::Abandon { remove, error } => {
            assert_eq!(remove, Some(scratch));
            assert!(matches!(error, Error::Network(_)));
        }
        other => panic!("{:?}", other),
    }
    for step in [fetch.chunk(1), fetch.finished(), fetch.failed(Error::NoneError)] {
        assert!(matches!(step, FetchStep::Abandon { remove: None, .. }));
    }
    assert!(matches!(fetch.responded(200, None, None), FetchStep::Abandon { remove: None, .. }));
}
