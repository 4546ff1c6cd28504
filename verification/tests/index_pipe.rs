use mirror_clone::common::SnapshotPath;
use mirror_clone::index_pipe::{
    generate_index, is_listing_file, IndexPipe, IndexRoute, LIST_CONTENT_TYPE, LIST_URL,
};
use mirror_clone::metadata::SnapshotMeta;
use mirror_clone::utils::hash_string;

fn strings(items: &[&str]) -> Vec<String> {
    items.iter().map(|x| x.to_string()).collect()
}

#[test]
fn test_simple() {
    let mut source = strings(&["a", "b", "c"]);
    source.sort();
    assert_eq!(
        generate_index(&source, 999).snapshot("", "list.html"),
        vec!["list.html"]
    );
}

#[test]
fn test_dir() {
    let mut source = strings(&["a", "b", "c/a", "c/b", "c/c", "d"]);
    source.sort();
    assert_eq!(
        generate_index(&source, 999).snapshot("", "list.html"),
        vec!["list.html", "c/list.html"]
    );
}

#[test]
fn test_dir_more() {
    let mut source = strings(&["a", "b", "c/a/b/c/d/e"]);
    source.sort();
    assert_eq!(
        generate_index(&source, 999).snapshot("", "list.html"),
        vec![
            "list.html",
            "c/list.html",
            "c/a/list.html",
            "c/a/b/list.html",
            "c/a/b/c/list.html",
            "c/a/b/c/d/list.html"
        ]
    );
}

#[test]
fn test_dir_more_depth() {
    let mut source = strings(&["a", "b", "c/a/b/c/d/e"]);
    source.sort();
    let index = generate_index(&source, 2);
    assert_eq!(
        index.snapshot("", "list.html"),
        vec!["list.html", "c/list.html", "c/a/list.html"]
    );
}

#[test]
fn index_keeps_directories_in_name_order() {
    let source = strings(&["z/1", "b/2", "m/3", "b/1", "a"]);
    let index = generate_index(&source, 999);
    assert_eq!(
        index.snapshot("p/", "l"),
        vec!["p/l", "p/b/l", "p/m/l", "p/z/l"]
    );
    assert_eq!(index.objects, vec!["a"]);
    assert_eq!(index.prefixes[0].name, "b");
    assert_eq!(index.prefixes[0].index.objects, vec!["1", "2"]);
}

#[test]
fn index_counts_a_repeated_key_once() {
    let source = strings(&["c/a", "c/a", "c/a"]);
    let index = generate_index(&source, 999);
    assert_eq!(index.prefixes.len(), 1);
    assert_eq!(index.prefixes[0].index.objects, vec!["a"]);
}

#[test]
fn index_flattens_below_the_depth() {
    let source = strings(&["c/a/b/c/d/e"]);
    let index = generate_index(&source, 2);
    let deepest = &index.prefixes[0].index.prefixes[0].index;
    assert_eq!(deepest.objects, vec!["b/c/d/e"]);
    assert!(deepest.prefixes.is_empty());
    let flat = generate_index(&source, 0);
    assert_eq!(flat.objects, vec!["c/a/b/c/d/e"]);
}

#[test]
fn index_takes_empty_components() {
    let source = strings(&["a//b", "/x"]);
    let index = generate_index(&source, 999);
    assert_eq!(
        index.snapshot("", "l"),
        vec!["l", "/l", "a/l", "a//l"]
    );
}

#[test]
fn pipe_lists_every_directory_once() {
    let mut pipe = IndexPipe::new((), "buf".to_string(), "base".to_string(), 999);
    let keys = pipe.snapshot_index_keys(strings(&["b/c", "a", "b/c", "b/d/e"]));
    assert_eq!(
        keys,
        vec![
            "mirror_clone_list.html",
            "b/mirror_clone_list.html",
            "b/d/mirror_clone_list.html"
        ]
    );
    let mut seen = keys.clone();
    seen.sort();
    seen.dedup();
    assert_eq!(seen.len(), keys.len());
}

#[test]
fn pipe_routes_by_the_listing_name() {
    let mut pipe = IndexPipe::new((), "buf".to_string(), "base".to_string(), 999);
    pipe.snapshot_index_keys(strings(&["a", "b/c"]));
    assert!(matches!(pipe.route("a", "now", 30, 40), IndexRoute::Delegate));
    assert!(matches!(pipe.route("b/c", "now", 30, 40), IndexRoute::Delegate));
    assert!(matches!(
        pipe.route("x/mirror_clone_list.html", "now", 30, 40),
        IndexRoute::NoSuchDirectory
    ));
    assert!(matches!(
        pipe.route("bmirror_clone_list.html", "now", 30, 40),
        IndexRoute::NoSuchDirectory
    ));
    match pipe.route("b/mirror_clone_list.html", "now", 30, 40) {
        IndexRoute::Listing { content, object } => {
            assert_eq!(object.length, content.len() as u64);
            assert_eq!(object.modified_at, 30);
            assert_eq!(object.content_type.as_deref(), Some("text/html"));
            assert_eq!(LIST_CONTENT_TYPE, "text/html");
            assert_eq!(
                object.path,
                format!("buf/{}.40.buffer", hash_string("b/mirror_clone_list.html"))
            );
            assert!(content.contains("<title>b - SJTUG Mirror Index</title>"));
            assert!(content.contains(r#"<tr><td><a href="c">c</a></td></tr>"#));
        }
        _ => panic!("the listing of b/ is missing"),
    }
    assert_eq!(LIST_URL, "mirror_clone_list.html");
}

#[test]
fn page_escapes_names() {
    let source = strings(&["a&b/x y", "<k>"]);
    let index = generate_index(&source, 999);
    let crumbs = vec!["R&D".to_string()];
    let page = index.index_for("", &crumbs, "list.html", "Thu, 1 Jan 1970 00:00:00 +0000").unwrap();
    assert!(page.contains(r#"<tr><td><a href="../list.html">..</a></td></tr>"#));
    assert!(page.contains(r#"<tr><td><a href="a%26b/list.html">a&amp;b/</a></td></tr>"#));
    assert!(page.contains(r#"<tr><td><a href="%3Ck%3E">&lt;k&gt;</a></td></tr>"#));
    assert!(page.contains("<title>R&amp;D - SJTUG Mirror Index</title>"));
    assert!(page.contains(r#"<li class="breadcrumb-item active" aria-current="page">R&amp;D</li>"#));
    assert!(page.contains("生成于 Thu, 1 Jan 1970 00:00:00 +0000</p>"));
    let sub = index.index_for("a&b/", &crumbs, "list.html", "t").unwrap();
    assert!(sub.contains(r#"<li class="breadcrumb-item"><a href="../list.html">R&amp;D</a></li>"#));
    assert!(sub.contains(r#"<li class="breadcrumb-item active" aria-current="page">a&amp;b</li>"#));
    assert!(sub.contains(r#"<tr><td><a href="x%20y">x y</a></td></tr>"#));
    assert!(index.index_for("missing/", &crumbs, "list.html", "t").is_none());
    assert!(index.index_for("a&b", &crumbs, "list.html", "t").is_none());
}

#[test]
fn page_without_breadcrumb_is_the_root() {
    let index = generate_index(&strings(&["a"]), 999);
    let page = index.index_for("", &vec![], "l", "t").unwrap();
    assert!(page.starts_with("\n<!doctype html>\n<html>\n"));
    assert!(page.ends_with("</body>\n\n</html>"));
    assert!(page.contains("<title>Root - SJTUG Mirror Index</title>"));
    assert_eq!(
        index.generate_navbar(&strings(&["x", "y", "z"]), "l"),
        "\n<nav aria-label=\"breadcrumb\">\n    <ol class=\"breadcrumb\">\n        <li class=\"breadcrumb-item\"><a href=\"../../l\">x</a></li>\n<li class=\"breadcrumb-item\"><a href=\"../l\">y</a></li>\n<li class=\"breadcrumb-item active\" aria-current=\"page\">z</li>\n    </ol>\n</nav>\n        "
    );
}

#[test]
fn a_source_item_under_the_key_of_a_listing_gives_way() {
    let meta = |key: &str| SnapshotMeta { size: Some(1), ..SnapshotMeta::new(key.to_string()) };
    let mut pipe = IndexPipe::new((), "buf".to_string(), "base".to_string(), 999);
    let items = pipe.snapshot(vec![
        meta("mirror_clone_list.html"),
        meta("a"),
        meta("b/mirror_clone_list.html"),
        meta("b/c"),
        meta("x-mirror_clone_list.html"),
        meta("q/r/mirror_clone_list.html"),
    ]);
    let keys: Vec<&str> = items.iter().map(|x| x.key.as_str()).collect();
    assert_eq!(
        keys,
        vec![
            "a",
            "b/c",
            "x-mirror_clone_list.html",
            "mirror_clone_list.html",
            "b/mirror_clone_list.html",
            "q/mirror_clone_list.html",
            "q/r/mirror_clone_list.html",
        ]
    );
    let mut seen = keys.clone();
    seen.sort();
    seen.dedup();
    assert_eq!(seen.len(), keys.len());
    assert!(items[..3].iter().all(|x| x.size == Some(1) && !x.flags.force));
    assert!(items[3..].iter().all(|x| x.size.is_none() && x.flags.force && x.flags.force_last));
    assert!(matches!(
        pipe.route("q/r/mirror_clone_list.html", "now", 1, 2),
        IndexRoute::Listing { .. }
    ));

    let mut shallow = IndexPipe::new((), "buf".to_string(), "base".to_string(), 1);
    let items = shallow.snapshot_paths(vec![
        SnapshotPath::new("d/e/mirror_clone_list.html".to_string()),
        SnapshotPath::new("d/mirror_clone_list.html".to_string()),
        SnapshotPath::new("mirror_clone_list.html".to_string()),
    ]);
    let got: Vec<(&str, bool)> = items.iter().map(|x| (x.0.as_str(), x.1)).collect();
    assert_eq!(
        got,
        vec![
            ("d/e/mirror_clone_list.html", false),
            ("mirror_clone_list.html", true),
            ("d/mirror_clone_list.html", true),
        ]
    );
    assert!(is_listing_file("d/e/mirror_clone_list.html"));
    assert!(is_listing_file("mirror_clone_list.html"));
    assert!(!is_listing_file("mirror_clone_list.htm"));
    assert!(!is_listing_file("list.html"));
}
