use md5::Digest;
use mirror_clone::checksum_pipe::ChecksumPipe;
use mirror_clone::error::Error;
use mirror_clone::metadata::SnapshotMeta;
use mirror_clone::utils::checksum::{calc_checksum, to_hex, verify_checksum};

fn sample() -> Vec<u8> {
    "23333333333".repeat(100).as_bytes().to_vec()
}

#[test]
fn test_md5() {
    let data = sample();
    let expected_digest = md5::Md5::digest(&data);
    assert_eq!(
        calc_checksum(&data, "md5").unwrap(),
        format!("{:x}", expected_digest)
    );
}

#[test]
fn test_sha1() {
    let data = sample();
    let expected_digest = sha1::Sha1::digest(&data);
    assert_eq!(
        calc_checksum(&data, "sha1").unwrap(),
        format!("{:x}", expected_digest)
    );
}

#[test]
fn test_sha256() {
    let data = sample();
    let expected_digest = sha2::Sha256::digest(&data);
    assert_eq!(
        calc_checksum(&data, "sha256").unwrap(),
        format!("{:x}", expected_digest)
    );
}

#[test]
fn test_sha512() {
    let data = sample();
    let expected_digest = sha2::Sha512::digest(&data);
    assert_eq!(
        calc_checksum(&data, "sha512").unwrap(),
        format!("{:x}", expected_digest)
    );
}

#[test]
fn digests_of_a_known_text() {
    let data = b"hello";
    assert_eq!(
        calc_checksum(data, "md5").unwrap(),
        "5d41402abc4b2a76b9719d911017c592"
    );
    assert_eq!(
        calc_checksum(data, "sha1").unwrap(),
        "aaf4c61ddcc5e8a2dabede0f3b482cd9aea9434d"
    );
    assert_eq!(
        calc_checksum(data, "sha256").unwrap(),
        "2cf24dba5fb0a30e26e83b2ac5b9e29e1b161e5c1fa7425e73043362938b9824"
    );
    assert_eq!(
        calc_checksum(data, "sha512").unwrap(),
        "9b71d224bd62f3785d96d46ad3ea3d73319bfbc2890caadae2dff72519673ca72323c3d99ba5c11d7c7acc6e14b8c5da0c4663475c2e5c3adef46f73bcdec043"
    );
    assert!(calc_checksum(data, "crc32").is_none());
    assert!(calc_checksum(data, "SHA256").is_none());
}

#[test]
fn hex_is_lower_case_with_two_digits_a_byte() {
    assert_eq!(to_hex(&[]), "");
    assert_eq!(to_hex(&[0x00, 0x0f, 0xa0, 0xff, 0x09, 0x10]), "000fa0ff0910");
}

#[test]
fn verify_checksum_tells_match_from_mismatch() {
    let data = b"hello";
    assert!(verify_checksum(data, "md5", "5d41402abc4b2a76b9719d911017c592").is_ok());
    match verify_checksum(data, "md5", "00") {
        Err(Error::ChecksumError { method, expected, got }) => {
            assert_eq!(method, "md5");
            assert_eq!(expected, "00");
            assert_eq!(got, "5d41402abc4b2a76b9719d911017c592");
        }
        other => panic!("{:?}", other),
    }
    assert!(matches!(
        verify_checksum(data, "whirlpool", "00"),
        Err(Error::PipeError(_))
    ));
}

fn item(method: Option<&str>, checksum: Option<&str>) -> SnapshotMeta {
    SnapshotMeta {
        checksum_method: method.map(str::to_string),
        checksum: checksum.map(str::to_string),
        ..SnapshotMeta::new("pkg.tar".to_string())
    }
}

#[test]
fn checksum_pipe_passes_the_declared_digest() {
    let pipe = ChecksumPipe::new(());
    let good = "2cf24dba5fb0a30e26e83b2ac5b9e29e1b161e5c1fa7425e73043362938b9824";
    assert!(pipe.verify(&item(Some("sha256"), Some(good)), b"hello").is_ok());
}

#[test]
fn checksum_pipe_refuses_another_digest() {
    let pipe = ChecksumPipe::new(());
    let good = "2cf24dba5fb0a30e26e83b2ac5b9e29e1b161e5c1fa7425e73043362938b9824";
    match pipe.verify(&item(Some("sha256"), Some(good)), b"hellp") {
        Err(Error::ChecksumError { method, expected, got }) => {
            assert_eq!(method, "sha256");
            assert_eq!(expected, good);
            assert_ne!(got, good);
            assert_eq!(got.len(), 64);
        }
        other => panic!("{:?}", other),
    }
    let upper = good.to_uppercase();
    assert!(matches!(
        pipe.verify(&item(Some("sha256"), Some(&upper)), b"hello"),
        Err(Error::ChecksumError { .. })
    ));
}

#[test]
fn checksum_pipe_asks_nothing_without_both_fields() {
    let pipe = ChecksumPipe::new(());
    assert!(pipe.verify(&item(None, None), b"x").is_ok());
    assert!(pipe.verify(&item(Some("sha256"), None), b"x").is_ok());
    assert!(pipe.verify(&item(None, Some("00")), b"x").is_ok());
    assert!(matches!(
        pipe.verify(&item(Some("crc32"), Some("00")), b"x"),
        Err(Error::IoError(_))
    ));
}

#[test]
fn checksum_pipe_hands_on_what_passes_and_what_the_source_refused() {
    let pipe = ChecksumPipe::new(());
    let good = "2cf24dba5fb0a30e26e83b2ac5b9e29e1b161e5c1fa7425e73043362938b9824";
    let declared = item(Some("sha256"), Some(good));
    assert!(pipe.checks(&declared));
    assert!(!pipe.checks(&item(Some("sha256"), None)));
    assert!(!pipe.checks(&item(None, Some(good))));
    assert_eq!(pipe.get_object(&declared, Ok("object"), b"hello").unwrap(), "object");
    match pipe.get_object(&declared, Ok("object"), b"hellp") {
        Err(Error::ChecksumError { method, expected, got }) => {
            assert_eq!(method, "sha256");
            assert_eq!(expected, good);
            assert_eq!(got, to_hex(&sha2::Sha256::digest(b"hellp")));
        }
        other => panic!("{:?}", other),
    }
    let refused: Result<&str, Error> = Err(Error::HTTPError(404));
    assert!(matches!(
        pipe.get_object(&declared, refused, b""),
        Err(Error::HTTPError(404))
    ));
    assert_eq!(pipe.get_object(&item(None, None), Ok(7), b"anything").unwrap(), 7);
}
