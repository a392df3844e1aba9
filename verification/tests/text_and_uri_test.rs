use iceberg_actions::text::{
    chars_of, decimal_text, eq_ignore_ascii_case, join, signed_decimal_text,
};
use iceberg_actions::time::Timestamp;
use iceberg_actions::uri::{
    canonical_uri, extract_scheme_authority, normalize_uri, split_at_scheme, split_authority, trim_end_slashes,
    Aliases,
};

#[test]
fn decimal_numbers() {
    assert_eq!(decimal_text(0), "0");
    assert_eq!(decimal_text(1_234_567_890), "1234567890");
    assert_eq!(decimal_text(u64::MAX), "18446744073709551615");
    assert_eq!(signed_decimal_text(-1), "-1");
    assert_eq!(signed_decimal_text(i64::MIN), "-9223372036854775808");
    assert_eq!(signed_decimal_text(i64::MAX), "9223372036854775807");
}

#[test]
fn texts_are_joined() {
    assert_eq!(join(&vec![], ", "), "");
    assert_eq!(join(&vec!["a".to_string()], ", "), "a");
    assert_eq!(join(&vec!["a".to_string(), "".to_string(), "c".to_string()], ", "), "a, , c");
}

#[test]
fn characters_and_ascii_case() {
    assert_eq!(chars_of("aß/"), vec!['a', 'ß', '/']);
    assert!(eq_ignore_ascii_case("FaLsE", "false"));
    assert!(!eq_ignore_ascii_case("fals", "false"));
    assert!(!eq_ignore_ascii_case("Ä", "ä"));
    assert!(!eq_ignore_ascii_case("@", "`"));
}

#[test]
fn uris_are_split() {
    assert_eq!(split_at_scheme("s3://b/k"), Some(("s3", "b/k")));
    assert_eq!(split_at_scheme("a://b://c"), Some(("a", "b://c")));
    assert_eq!(split_at_scheme("/tmp/foo"), None);
    assert_eq!(split_at_scheme("://"), Some(("", "")));
    assert_eq!(split_authority("bucket/key/x"), ("bucket", "/key/x"));
    assert_eq!(split_authority("bucket"), ("bucket", ""));
    assert_eq!(split_authority("/key"), ("", "/key"));
    assert_eq!(trim_end_slashes("a/b//"), "a/b");
    assert_eq!(trim_end_slashes("///"), "");
}

#[test]
fn prefixes_are_extracted() {
    assert_eq!(extract_scheme_authority("S3A://Bucket/k"), Some("s3a://Bucket".to_string()));
    assert_eq!(extract_scheme_authority("file:///tmp/x"), Some("file://".to_string()));
    assert_eq!(extract_scheme_authority("/tmp/foo"), None);
}

#[test]
fn uris_are_normalized() {
    assert_eq!(normalize_uri("S3://Bucket/Path//"), "s3://Bucket/Path");
    assert_eq!(normalize_uri("/tmp/foo/"), "/tmp/foo");
    assert_eq!(normalize_uri("s3://"), "s3://");
    assert_eq!(normalize_uri("ÄB://x/"), "äb://x");
    for uri in ["S3://Bucket/Path//", "/tmp/foo/", "a://b://c/"] {
        let once = normalize_uri(uri);
        assert_eq!(normalize_uri(&once), once);
        assert_eq!(extract_scheme_authority(&once), extract_scheme_authority(uri));
    }
}

#[test]
fn equivalent_texts_are_resolved() {
    let mut schemes = Aliases::new();
    assert!(schemes.is_empty());
    schemes.declare("a", "b");
    schemes.declare("c", "d");
    schemes.declare("b", "c");
    assert!(!schemes.is_empty());
    for text in ["a", "b", "c", "d"] {
        assert_eq!(schemes.resolve(text), "d");
    }
    assert_eq!(schemes.resolve("e"), "e");
    assert_eq!(canonical_uri(&schemes, &Aliases::new(), "A://x/y/"), "d://x/y/");
}

#[test]
fn milliseconds_and_earlier_times() {
    assert_eq!(Timestamp { nanos: 1_999_999 }.unix_millis(), 1);
    assert_eq!(Timestamp { nanos: -1_999_999 }.unix_millis(), 0);
    assert_eq!(Timestamp { nanos: 10 }.minus(3), Timestamp { nanos: 7 });
    assert_eq!(Timestamp { nanos: i128::MIN + 1 }.minus(2), Timestamp { nanos: 0 });
}

#[test]
fn readings_of_the_clock() {
    assert_eq!(Timestamp::of_reading(Ok(5)), Timestamp { nanos: 5 });
    assert_eq!(Timestamp::of_reading(Err(5)), Timestamp { nanos: -5 });
    assert_eq!(Timestamp::of_reading(Ok(u128::MAX)), Timestamp { nanos: i128::MAX });
    assert_eq!(Timestamp::of_reading(Err(u128::MAX)), Timestamp { nanos: i128::MIN });
}
