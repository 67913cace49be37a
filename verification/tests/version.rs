use zygiskd::apatch::{
    classify, get_apatch, parse_version, shell_output_is_apatch, Version, MAX_APATCH_VERSION,
    MIN_APATCH_VERSION,
};
use zygiskd::text::parse_i32;

#[test]
fn classify_thresholds() {
    assert_eq!(classify(0), Some(Version::Abnormal));
    assert_eq!(classify(1), Some(Version::TooOld));
    assert_eq!(classify(MIN_APATCH_VERSION - 1), Some(Version::TooOld));
    assert_eq!(classify(MIN_APATCH_VERSION), Some(Version::Supported));
    assert_eq!(classify(MAX_APATCH_VERSION), Some(Version::Supported));
    assert_eq!(classify(MAX_APATCH_VERSION + 1), None);
    assert_eq!(classify(-5), None);
}

#[test]
fn parse_version_takes_last_token_of_first_parseable_line() {
    assert_eq!(parse_version(b"version 10655"), 10655);
    assert_eq!(parse_version(b"APatch v1.2\nsomething 42"), 42);
    assert_eq!(parse_version(b"a 1\nb 2"), 1);
    assert_eq!(parse_version(b"  7  "), 7);
    assert_eq!(parse_version(b"x -7"), -7);
}

#[test]
fn parse_version_without_integer_is_zero() {
    assert_eq!(parse_version(b"abc"), 0);
    assert_eq!(parse_version(b""), 0);
    assert_eq!(parse_version(b"  \n\t \n"), 0);
    assert_eq!(parse_version(b"v 99999999999"), 0);
}

#[test]
fn no_integer_anywhere_classifies_abnormal() {
    let v = parse_version(b"abc");
    assert_eq!(v, 0);
    assert_eq!(classify(v), Some(Version::Abnormal));
}

#[test]
fn out_of_range_helper_version_means_absent() {
    let shell: &[u8] = b"APatch v1.2\nsomething 42";
    let helper: &[u8] = b"999999999";
    assert_eq!(get_apatch(Some(shell), Some(helper)), None);
}

#[test]
fn detection_chain() {
    let shell: &[u8] = b"APatch 27";
    assert_eq!(get_apatch(None, Some(b"10655")), None);
    assert_eq!(get_apatch(Some(b"some other su"), Some(b"10655")), None);
    assert_eq!(get_apatch(Some(shell), None), None);
    assert_eq!(get_apatch(Some(shell), Some(b"10655")), Some(Version::Supported));
    assert_eq!(get_apatch(Some(shell), Some(b"123")), Some(Version::TooOld));
    assert_eq!(get_apatch(Some(shell), Some(b"abc")), Some(Version::Abnormal));
    assert_eq!(get_apatch(Some(shell), Some(b"0")), Some(Version::Abnormal));
}

#[test]
fn marker_detection() {
    assert!(shell_output_is_apatch(b"APatch"));
    assert!(shell_output_is_apatch(b"xxAPatchyy"));
    assert!(shell_output_is_apatch(b"su from APatch"));
    assert!(!shell_output_is_apatch(b"APatc"));
    assert!(!shell_output_is_apatch(b""));
    assert!(!shell_output_is_apatch(b"apatch"));
}

#[test]
fn parse_i32_accepts_plain_decimal_integers() {
    assert_eq!(parse_i32(b"42"), Some(42));
    assert_eq!(parse_i32(b"+42"), Some(42));
    assert_eq!(parse_i32(b"-42"), Some(-42));
    assert_eq!(parse_i32(b"0042"), Some(42));
    assert_eq!(parse_i32(b"0"), Some(0));
    assert_eq!(parse_i32(b"2147483647"), Some(i32::MAX));
    assert_eq!(parse_i32(b"-2147483648"), Some(i32::MIN));
}

#[test]
fn parse_i32_rejects_everything_else() {
    assert_eq!(parse_i32(b""), None);
    assert_eq!(parse_i32(b"-"), None);
    assert_eq!(parse_i32(b"+"), None);
    assert_eq!(parse_i32(b"4 2"), None);
    assert_eq!(parse_i32(b"12a"), None);
    assert_eq!(parse_i32(b" 12"), None);
    assert_eq!(parse_i32(b"2147483648"), None);
    assert_eq!(parse_i32(b"-2147483649"), None);
    assert_eq!(parse_i32(b"99999999999999999999"), None);
}
