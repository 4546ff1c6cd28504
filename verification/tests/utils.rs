use mirror_clone::error::Error;
use mirror_clone::opts::Target;
use mirror_clone::text::{
    compare_str, contains, replace_all, starts_with, strip_prefix, to_decimal, KeyOrder,
};
use mirror_clone::timeout::{Elapsed, TryTimeoutExt};
use mirror_clone::utils::retry::{IoHandler, RetryPolicy};
use mirror_clone::utils::{
    generate_s3_url_encode_map, generate_s3_url_reverse_encode_map, hash_string,
    rewrite_url_string, snapshot_string_to_meta, snapshot_string_to_path, unix_time,
    user_agent_for, CommaSplitVecString,
};

#[test]
fn encode_map_lists_the_special_characters() {
    let map = generate_s3_url_encode_map();
    assert_eq!(map.len(), 16);
    assert_eq!(map[0], ("+", "%2B"));
    assert_eq!(map[2], ("\"", "%22"));
    assert_eq!(map[9], ("*", "%2A"));
    assert_eq!(map[15], ("@", "%40"));
    let back = generate_s3_url_reverse_encode_map();
    assert_eq!(back.len(), 16);
    for (forward, reverse) in map.iter().zip(back.iter()) {
        assert_eq!((forward.1, forward.0), *reverse);
    }
}

#[test]
fn url_strings_are_rewritten_pair_by_pair() {
    let map = generate_s3_url_encode_map();
    assert_eq!(
        rewrite_url_string(&map, "go@1.10-1.10.8.catalina.bottle.2.tar.gz"),
        "go%401.10-1.10.8.catalina.bottle.2.tar.gz"
    );
    assert_eq!(rewrite_url_string(&map, "a+b c++"), "a%2Bb c%2B%2B");
    let back = generate_s3_url_reverse_encode_map();
    assert_eq!(rewrite_url_string(&back, "gcc%4010%2Bx"), "gcc@10+x");
    assert_eq!(rewrite_url_string(&[], "a+b"), "a+b");
    assert_eq!(rewrite_url_string(&[("a", "b"), ("b", "c")], "ab"), "cc");
}

#[test]
fn replace_follows_the_standard_library() {
    for (s, from, to) in [
        ("aaaa", "aa", "b"),
        ("abcabc", "bc", ""),
        ("abc", "", "-"),
        ("", "", "x"),
        ("", "a", "x"),
        ("aXbXc", "X", "XX"),
        ("../../packages/ab/cd", "../../packages/", ""),
        ("héllo wörld", "ö", "oe"),
        ("aab", "ab", "c"),
    ] {
        assert_eq!(replace_all(s, from, to), s.replace(from, to), "{:?}", (s, from, to));
    }
}

#[test]
fn strings_compare_as_the_standard_library_compares_them() {
    let samples = ["", "a", "A", "ab", "a/", "a-", "b", "é", "z", "日本", "a\u{10000}", "a\u{ffff}"];
    for x in samples {
        for y in samples {
            let expected = match x.cmp(y) {
                std::cmp::Ordering::Less => KeyOrder::Before,
                std::cmp::Ordering::Equal => KeyOrder::Same,
                std::cmp::Ordering::Greater => KeyOrder::After,
            };
            assert_eq!(compare_str(x, y), expected, "{:?}", (x, y));
        }
    }
}

#[test]
fn text_helpers_agree_with_the_standard_library() {
    assert!(starts_with("abc", "ab"));
    assert!(starts_with("abc", ""));
    assert!(!starts_with("ab", "abc"));
    assert_eq!(strip_prefix("abc", "ab"), Some("c".to_string()));
    assert_eq!(strip_prefix("abc", "b"), None);
    assert!(contains("xjcloudy", "jcloud"));
    assert!(contains("x", ""));
    assert!(contains("", ""));
    assert!(!contains("jclou", "jcloud"));
    assert_eq!(to_decimal(0), "0");
    assert_eq!(to_decimal(1234567890), "1234567890");
    assert_eq!(to_decimal(u64::MAX), "18446744073709551615");
}

#[test]
fn hash_of_a_string_is_a_hex_number() {
    let h = hash_string("https://example.org/a");
    assert!(!h.is_empty() && h.len() <= 16);
    assert!(h.chars().all(|c| c.is_ascii_digit() || ('a'..='f').contains(&c)));
    assert!(h == "0" || !h.starts_with('0'));
    assert_eq!(h, hash_string("https://example.org/a"));
    assert_ne!(h, hash_string("https://example.org/b"));
    assert!(unix_time() > 1_600_000_000);
}

#[test]
fn snapshot_strings_become_items() {
    let paths = snapshot_string_to_path(vec!["a".to_string(), "b/c".to_string()]);
    assert_eq!(paths.len(), 2);
    assert_eq!((paths[1].0.as_str(), paths[1].1), ("b/c", false));
    let metas = snapshot_string_to_meta(vec!["a".to_string()]);
    assert_eq!(metas[0].key, "a");
    assert!(metas[0].size.is_none() && metas[0].checksum.is_none());
    assert!(!metas[0].flags.force && !metas[0].flags.force_last);
}

#[test]
fn user_agent_names_version_and_site() {
    assert_eq!(user_agent_for("2.0", "sjtug"), "mirror-clone / 2.0 (sjtug)");
}

#[test]
fn comma_lists_are_split_and_trimmed() {
    assert_eq!(
        CommaSplitVecString::from_str(" a, b ,c,, d e ").into_vec(),
        vec!["a", "b", "c", "", "d e"]
    );
    assert_eq!(CommaSplitVecString::from_str("").into_vec(), vec![""]);
    assert_eq!(CommaSplitVecString::from_str(",").into_vec(), vec!["", ""]);
    assert_eq!(CommaSplitVecString::from_str("\ta\u{3000}").into_vec(), vec!["a"]);
}

#[test]
fn retry_policy_follows_the_kind_of_failure() {
    let mut handler = IoHandler::new(3, "item");
    assert_eq!(handler.calculate_wait_duration(), 1000);
    assert!(matches!(
        handler.handle(1, Error::Network("reset".to_string())),
        RetryPolicy::WaitRetry(1000)
    ));
    assert!(matches!(
        handler.handle(3, Error::LengthMismatch { expected: 2, got: 1 }),
        RetryPolicy::WaitRetry(1000)
    ));
    assert!(matches!(
        handler.handle(4, Error::Network("reset".to_string())),
        RetryPolicy::ForwardError(Error::Network(_))
    ));
    assert!(matches!(
        handler.handle(9, Error::HTTPError(429)),
        RetryPolicy::WaitRetry(30000)
    ));
    assert!(matches!(
        handler.handle(9, Error::HTTPError(503)),
        RetryPolicy::WaitRetry(60000)
    ));
    assert!(matches!(
        handler.handle(1, Error::HTTPError(404)),
        RetryPolicy::ForwardError(Error::HTTPError(404))
    ));
    assert!(matches!(
        handler.handle(1, Error::NoModifiedTime),
        RetryPolicy::ForwardError(Error::NoModifiedTime)
    ));
    assert!(matches!(
        handler.handle(
            1,
            Error::ChecksumError {
                method: "md5".to_string(),
                expected: "a".to_string(),
                got: "b".to_string()
            }
        ),
        RetryPolicy::WaitRetry(1000)
    ));
}

#[test]
fn timeouts_become_errors() {
    let in_time: Result<Result<u8, Error>, Elapsed> = Ok(Ok(7));
    assert_eq!(in_time.into_result().unwrap(), 7);
    let failed: Result<Result<u8, Error>, Elapsed> = Ok(Err(Error::NoneError));
    assert!(matches!(failed.into_result(), Err(Error::NoneError)));
    let late: Result<Result<u8, Error>, Elapsed> = Err(Elapsed);
    assert!(matches!(late.into_result(), Err(Error::TimeoutError)));
}

#[test]
fn targets_are_named() {
    assert_eq!(Target::from_str("s3").unwrap(), Target::S3);
    assert_eq!(Target::from_str("file").unwrap(), Target::File);
    assert!(matches!(Target::from_str("ftp"), Err(Error::ConfigureError(_))));
    assert!(matches!(Target::from_str("S3"), Err(Error::ConfigureError(_))));
}
