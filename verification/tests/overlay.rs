use mirror_clone::overlay::{
    is_tmp_file, join_path, new_run_id, OverlayDirectory, OverlayFile,
};

fn strings(items: &[&str]) -> Vec<String> {
    items.iter().map(|x| x.to_string()).collect()
}

#[test]
fn temporary_name_without_a_run_id() {
    let file = OverlayFile::create("dir/test.bin".to_string(), "".to_string());
    assert_eq!(file.tmp_path, "dir/test.bin.tmp");
    assert_eq!(file.path, "dir/test.bin");
}

#[test]
fn temporary_name_with_a_run_id() {
    let file = OverlayFile::create("dir/test.bin".to_string(), "2333".to_string());
    assert_eq!(file.tmp_path, "dir/test.bin.2333.tmp");
    assert_eq!(file.run_id, "2333");
}

#[test]
fn run_ids_are_eight_letters_or_digits() {
    let mut seen = vec![];
    for _ in 0..50 {
        let id = new_run_id();
        assert_eq!(id.len(), 8);
        assert!(id.chars().all(|c| c.is_ascii_alphanumeric()));
        seen.push(id);
    }
    seen.sort();
    seen.dedup();
    assert!(seen.len() > 1);
}

#[test]
fn two_runs_write_under_two_names() {
    let a = OverlayFile::create("base/f".to_string(), "AAAAAAAA".to_string());
    let b = OverlayFile::create("base/f".to_string(), "AAAAAAAB".to_string());
    assert_ne!(a.tmp_path, b.tmp_path);
    let c = OverlayFile::create("base/f.AAAAAAAA".to_string(), "BBBBBBBB".to_string());
    assert_ne!(a.tmp_path, c.tmp_path);
}

#[test]
fn paths_join_as_on_the_file_system() {
    assert_eq!(join_path("base", "a/b"), "base/a/b");
    assert_eq!(join_path("base/", "a/b"), "base/a/b");
    assert_eq!(join_path("", "a"), "a");
    assert_eq!(join_path("base", "/abs"), "/abs");
    assert_eq!(join_path("base", ""), "base/");
}

#[test]
fn temporary_files_are_told_by_their_suffix() {
    assert!(is_tmp_file("a.tmp"));
    assert!(is_tmp_file("a.b.2333.tmp"));
    assert!(is_tmp_file(".tmp"));
    assert!(!is_tmp_file("tmp"));
    assert!(!is_tmp_file("a.tmp.bin"));
    assert!(!is_tmp_file("a.TMP"));
}

#[test]
fn opening_finds_the_stale_files() {
    let opened = OverlayDirectory::open(
        "base".to_string(),
        "RUN00001".to_string(),
        strings(&["base/a", "base/b.tmp", "base/c.OLD12345.tmp", "base/d/e", "base/a"]),
    );
    assert_eq!(opened.stale, vec!["base/b.tmp", "base/c.OLD12345.tmp"]);
    let known: Vec<&str> = opened.directory.fused_files.iter().map(|f| f.path.as_str()).collect();
    assert_eq!(known, vec!["base/a", "base/d/e"]);
    assert!(opened.directory.fused_files.iter().all(|f| !f.fused));
    assert_eq!(opened.directory.run_id, "RUN00001");
    assert_eq!(opened.directory.commit(), vec!["base/a", "base/d/e"]);
}

#[test]
fn sweep_removes_what_no_run_confirmed() {
    let mut dir = OverlayDirectory::open(
        "base".to_string(),
        "RUN00001".to_string(),
        strings(&["base/kept", "base/stale", "base/rewritten"]),
    )
    .directory;
    assert_eq!(dir.try_fuse("kept").unwrap(), true);
    assert_eq!(dir.try_fuse("unknown").unwrap(), false);
    assert!(dir.try_fuse("kept").is_err());
    let file = dir.create_file_for_write("rewritten");
    assert_eq!(file.tmp_path, "base/rewritten.RUN00001.tmp");
    dir.fuse(file);
    let fresh = dir.create_file_for_write("233/2333/233333.zip");
    assert_eq!(fresh.path, "base/233/2333/233333.zip");
    dir.fuse(fresh);
    assert_eq!(dir.commit(), vec!["base/stale"]);
    assert!(dir.try_fuse("233/2333/233333.zip").is_err());
}

#[test]
fn a_file_that_was_never_completed_is_swept() {
    let mut dir =
        OverlayDirectory::open("base".to_string(), "".to_string(), strings(&["base/old"])).directory;
    let file = dir.create_file_for_write("new");
    assert_eq!(file.tmp_path, "base/new.tmp");
    let reopened = OverlayDirectory::open(
        "base".to_string(),
        "".to_string(),
        strings(&["base/old", "base/new.tmp"]),
    );
    assert_eq!(reopened.stale, vec!["base/new.tmp"]);
    assert_eq!(dir.try_fuse("new").unwrap(), false);
    assert_eq!(dir.commit(), vec!["base/old"]);
}
