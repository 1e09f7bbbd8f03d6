use wutag::error::{Error, KeyError};
use wutag::number::{parse_decimal, push_decimal};
use wutag::order::name_less;
use wutag::tag::{key_in_namespace, Tag, WUTAG_NAMESPACE};

fn decode(key: &str, value: &str) -> Result<Tag, Error> {
    Tag::decode(key, value)
}

#[test]
fn encode_gives_namespaced_key_and_name() {
    let tag = Tag::with_timestamp("vacation".to_string(), 1_600_000_000);
    let (key, value) = tag.encode();
    assert_eq!(key, "user.wutag.1600000000");
    assert_eq!(value, "vacation");
    assert_eq!(tag.xattr_name(), "user.wutag.1600000000");
    assert!(key.starts_with(WUTAG_NAMESPACE));
}

#[test]
fn round_trip_keeps_name_and_timestamp() {
    for ts in [0i64, 7, 1_600_000_000, -5, i64::MAX, i64::MIN] {
        let tag = Tag::with_timestamp("beach".to_string(), ts);
        let (key, value) = tag.encode();
        let back = decode(&key, &value).unwrap();
        assert_eq!(back.name(), "beach");
        assert_eq!(back.timestamp(), ts);
        assert!(back == tag);
    }
}

#[test]
fn tags_compare_by_name_only() {
    let a = Tag::with_timestamp("x".to_string(), 1);
    let b = Tag::with_timestamp("x".to_string(), 2);
    let c = Tag::with_timestamp("y".to_string(), 1);
    assert!(a == b);
    assert!(a != c);
}

#[test]
fn decode_reports_each_malformed_segment() {
    assert_eq!(decode("", "n").unwrap_err(), Error::InvalidTagKey(KeyError::MissingNamespace));
    assert_eq!(decode("trusted.wutag.1", "n").unwrap_err(), Error::InvalidTagKey(KeyError::InvalidNamespace));
    assert_eq!(decode("users.wutag.1", "n").unwrap_err(), Error::InvalidTagKey(KeyError::InvalidNamespace));
    assert_eq!(decode("user", "n").unwrap_err(), Error::InvalidTagKey(KeyError::MissingToolNamespace));
    assert_eq!(decode("user.other.1", "n").unwrap_err(), Error::InvalidTagKey(KeyError::InvalidToolNamespace));
    assert_eq!(decode("user.wutagx.1", "n").unwrap_err(), Error::InvalidTagKey(KeyError::InvalidToolNamespace));
    assert_eq!(decode("user.wutag", "n").unwrap_err(), Error::InvalidTagKey(KeyError::MissingTimestamp));
    assert_eq!(decode("user.wutag.", "n").unwrap_err(), Error::InvalidTagKey(KeyError::InvalidTimestamp));
    assert_eq!(decode("user.wutag.12a", "n").unwrap_err(), Error::InvalidTagKey(KeyError::InvalidTimestamp));
    assert_eq!(decode("user.wutag.1.2", "n").unwrap_err(), Error::InvalidTagKey(KeyError::InvalidTimestamp));
    assert_eq!(
        decode("user.wutag.9223372036854775808", "n").unwrap_err(),
        Error::InvalidTagKey(KeyError::InvalidTimestamp)
    );
}

#[test]
fn decode_accepts_signed_timestamps() {
    assert_eq!(decode("user.wutag.+12", "n").unwrap().timestamp(), 12);
    assert_eq!(decode("user.wutag.-12", "n").unwrap().timestamp(), -12);
    assert_eq!(decode("user.wutag.007", "n").unwrap().timestamp(), 7);
    assert_eq!(decode("user.wutag.-9223372036854775808", "n").unwrap().timestamp(), i64::MIN);
}

#[test]
fn decimal_text_and_back() {
    let mut s = String::from("t=");
    push_decimal(-120, &mut s);
    assert_eq!(s, "t=-120");
    let mut z = String::new();
    push_decimal(0, &mut z);
    assert_eq!(z, "0");
    assert_eq!(parse_decimal("9223372036854775807"), Some(i64::MAX));
    assert_eq!(parse_decimal("-"), None);
    assert_eq!(parse_decimal("+"), None);
    assert_eq!(parse_decimal(""), None);
    assert_eq!(parse_decimal("1 "), None);
}

#[test]
fn namespace_membership() {
    assert!(key_in_namespace("user.wutag"));
    assert!(key_in_namespace("user.wutag.12"));
    assert!(!key_in_namespace("user.wutagger.12"));
    assert!(!key_in_namespace("user.other.12"));
    assert!(!key_in_namespace("security.selinux"));
}

#[test]
fn names_order_lexicographically() {
    assert!(name_less("a", "b"));
    assert!(name_less("ab", "abc"));
    assert!(!name_less("abc", "ab"));
    assert!(!name_less("same", "same"));
    assert!(name_less("", "a"));
    assert!(name_less("B", "a"));
}

#[test]
fn new_tag_has_name_and_current_time() {
    let tag = Tag::new("now".to_string());
    assert_eq!(tag.name(), "now");
    assert!(tag.timestamp() > 1_500_000_000);
}
