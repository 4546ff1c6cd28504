use mirror_clone::python_version::{PreRelease, Version};
use mirror_clone::text::KeyOrder;
use std::cmp::Ordering;

fn order(a: &Version, b: &Version) -> Ordering {
    match a.compare(b) {
        KeyOrder::Before => Ordering::Less,
        KeyOrder::Same => Ordering::Equal,
        KeyOrder::After => Ordering::Greater,
    }
}

#[test]
fn test_ord() {
    let versions = [
        "1!1.0",
        "0.1",
        "0.2",
        "1.0",
        "1.0.1",
        "1.0.1.1",
        "1.0.2",
        "1.0.2.1",
        "1.0a1",
        "1.0rc1.post1",
        "1.0b1",
        "1.0b1.dev2",
        "1.0rc1",
        "1.0.post1",
        "1.0.post1.dev2",
        "1.0+ubuntu-1",
        "1.0b2+ubuntu-1",
    ];
    let mut versions: Vec<_> = versions
        .iter()
        .map(|s| Version::parse(s).unwrap())
        .collect();
    versions.sort_by(order);
    let versions: Vec<_> = versions.into_iter().map(|v| v.to_string()).collect();
    assert_eq!(
        versions,
        vec![
            "0.1",
            "0.2",
            "1a1",
            "1b1.dev2",
            "1b1",
            "1b2+ubuntu.1",
            "1rc1",
            "1rc1.post1",
            "1",
            "1+ubuntu.1",
            "1.post1.dev2",
            "1.post1",
            "1.0.1",
            "1.0.1.1",
            "1.0.2",
            "1.0.2.1",
            "1!1",
        ]
    );
}

fn parts(input: &str) -> (u32, Vec<u32>, Option<PreRelease>, Option<u32>, Option<u32>, Option<String>) {
    let v = Version::parse(input).unwrap();
    (v.epoch, v.chunks, v.pre, v.post, v.dev, v.local)
}

#[test]
fn parse_reads_release_numbers() {
    assert_eq!(parts("0"), (0, vec![0], None, None, None, None));
    assert_eq!(parts("0.9"), (0, vec![0, 9], None, None, None, None));
    assert_eq!(parts("0.009"), (0, vec![0, 9], None, None, None, None));
    assert_eq!(parts("0.9.0.0"), (0, vec![0, 9], None, None, None, None));
    assert_eq!(parts("0.0"), (0, vec![0, 0], None, None, None, None));
    assert_eq!(parts("1.0.15"), (0, vec![1, 0, 15], None, None, None, None));
    assert_eq!(parts("1!1.0"), (1, vec![1], None, None, None, None));
    assert_eq!(parts(" \tv1.0 \n "), (0, vec![1], None, None, None, None));
}

#[test]
fn parse_reads_pre_releases() {
    let rc1 = Some(PreRelease::RC(1));
    let a1 = Some(PreRelease::Alpha(1));
    assert_eq!(parts("1.1RC1"), (0, vec![1, 1], rc1, None, None, None));
    assert_eq!(parts("1.1rc1"), (0, vec![1, 1], rc1, None, None, None));
    for text in ["1.1a1", "1.1a.1", "1.1.a1", "1.1-a1", "1.1_a1", "1.1alpha1"] {
        assert_eq!(parts(text), (0, vec![1, 1], a1, None, None, None));
    }
    assert_eq!(parts("1.1b1"), (0, vec![1, 1], Some(PreRelease::Beta(1)), None, None, None));
    assert_eq!(parts("1.1beta2"), (0, vec![1, 1], Some(PreRelease::Beta(2)), None, None, None));
    for text in ["1.1c3", "1.1pre3", "1.1preview3"] {
        assert_eq!(parts(text), (0, vec![1, 1], Some(PreRelease::RC(3)), None, None, None));
    }
    assert_eq!(parts("1.2a"), (0, vec![1, 2], Some(PreRelease::Alpha(0)), None, None, None));
    assert_eq!(parts("1.0a12"), (0, vec![1], Some(PreRelease::Alpha(12)), None, None, None));
}

#[test]
fn parse_reads_post_releases() {
    for text in ["1.2.post2", "1.2-post2", "1.2_post2", "1.2post2", "1.2-post-2"] {
        assert_eq!(parts(text), (0, vec![1, 2], None, Some(2), None, None));
    }
    assert_eq!(parts("1.0-r4"), (0, vec![1], None, Some(4), None, None));
    assert_eq!(parts("1.0-rev4"), (0, vec![1], None, Some(4), None, None));
    assert_eq!(parts("1.0-1"), (0, vec![1], None, Some(1), None, None));
    assert_eq!(parts("1.0.post456"), (0, vec![1], None, Some(456), None, None));
    assert_eq!(
        parts("1.0pre-1-1"),
        (0, vec![1], Some(PreRelease::RC(1)), Some(1), None, None)
    );
    assert_eq!(
        parts("1.0b2.post345"),
        (0, vec![1], Some(PreRelease::Beta(2)), Some(345), None, None)
    );
}

#[test]
fn parse_reads_development_releases_and_local_parts() {
    assert_eq!(parts("1.dev0"), (0, vec![1], None, None, Some(0), None));
    assert_eq!(parts("1.0.dev456"), (0, vec![1], None, None, Some(456), None));
    assert_eq!(parts("1.1.dev1"), (0, vec![1, 1], None, None, Some(1), None));
    assert_eq!(
        parts("1.0a2.dev456"),
        (0, vec![1], Some(PreRelease::Alpha(2)), None, Some(456), None)
    );
    assert_eq!(
        parts("1.0b2.post345.dev456"),
        (0, vec![1], Some(PreRelease::Beta(2)), Some(345), Some(456), None)
    );
    assert_eq!(
        parts("1.0.post456.dev34"),
        (0, vec![1], None, Some(456), Some(34), None)
    );
    assert_eq!(parts("1.0+abc.5"), (0, vec![1], None, None, None, Some("abc.5".to_string())));
    assert_eq!(parts("1.0+5"), (0, vec![1], None, None, None, Some("5".to_string())));
    assert_eq!(
        parts("1.0+ubuntu-1_x"),
        (0, vec![1], None, None, None, Some("ubuntu.1.x".to_string()))
    );
}

#[test]
fn parse_refuses_what_is_no_version() {
    for text in ["", "v", "a1", "1.0-", "1.0_1", "1..0", "1.0+", "1.0 x", "1.0+a b", "99999999999", "1.0.", "V1.0"] {
        assert!(Version::parse(text).is_none(), "{:?}", text);
    }
    assert_eq!(parts("4294967295").1, vec![4294967295]);
    assert!(Version::parse("4294967296").is_none());
    assert!(Version::parse("4294967296!1").is_none());
    assert_eq!(parts("4294967295!1").0, 4294967295);
}

#[test]
fn stable_versions_have_no_pre_and_no_dev_part() {
    for (input, expect) in [
        ("1.0", true),
        ("1.0a1", false),
        ("1.0.dev1", false),
        ("1.0a1.post1", false),
        ("1.0.post1.dev1", false),
        ("1.0.post1", true),
        ("1.0+ubuntu-1", true),
    ] {
        assert_eq!(Version::parse(input).unwrap().is_stable(), expect, "{}", input);
    }
}

#[test]
fn versions_are_written_in_normal_form() {
    for (input, text) in [
        ("1!2.3.0", "1!2.3"),
        ("v1.0.0RC2", "1rc2"),
        ("1.0-post", "1.post0"),
        ("2.1_dev", "2.1.dev0"),
        ("0.0.0", "0.0.0"),
        ("1.2alpha3-4.dev5+L-o_c.al", "1.2a3.post4.dev5+L.o.c.al"),
    ] {
        assert_eq!(Version::parse(input).unwrap().to_string(), text);
    }
    assert_eq!(PreRelease::Beta(7).to_string(), "b7");
}

#[test]
fn order_of_versions_is_that_of_their_parts() {
    let v = |s: &str| Version::parse(s).unwrap();
    assert_eq!(v("1.0").compare(&v("1.0.0")), KeyOrder::Same);
    assert_eq!(v("1.0").compare(&v("1.0.1")), KeyOrder::Before);
    assert_eq!(v("2").compare(&v("1!1")), KeyOrder::Before);
    assert_eq!(v("1.0a9").compare(&v("1.0b1")), KeyOrder::Before);
    assert_eq!(v("1.0rc1").compare(&v("1.0")), KeyOrder::Before);
    assert_eq!(v("1.0.post1").compare(&v("1.0")), KeyOrder::After);
    assert_eq!(v("1.0.dev1").compare(&v("1.0")), KeyOrder::Before);
    assert_eq!(v("1.0+a").compare(&v("1.0+b")), KeyOrder::Before);
    assert_eq!(v("1.0+b").compare(&v("1.0")), KeyOrder::After);
}
