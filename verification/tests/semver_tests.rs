use cargo_audit::bytes::Order;
use cargo_audit::parse::parse_version;
use cargo_audit::semver::{PreIdent, Version};

fn ver(s: &str) -> Version {
    let bytes: Vec<u8> = s.as_bytes().to_vec();
    let n = bytes.len();
    parse_version(&bytes, 0, n).expect("version must parse")
}

#[test]
fn parses_plain_version() {
    let v = ver("1.2.3");
    assert_eq!(v.major, 1);
    assert_eq!(v.minor, 2);
    assert_eq!(v.patch, 3);
    assert_eq!(v.pre.len(), 0);
}

#[test]
fn parses_pre_release_version() {
    let v = ver("1.0.0-alpha.1");
    assert_eq!(v.major, 1);
    assert_eq!(v.pre.len(), 2);
    match &v.pre[0] {
        PreIdent::Alpha(s) => assert_eq!(s.as_slice(), b"alpha"),
        PreIdent::Num(_) => panic!("first identifier must be alphanumeric"),
    }
    match &v.pre[1] {
        PreIdent::Num(n) => assert_eq!(*n, 1),
        PreIdent::Alpha(_) => panic!("second identifier must be numeric"),
    }
}

#[test]
fn rejects_malformed_versions() {
    for bad in ["1.2", "1.2.3.4", "", "a.b.c", "1.2.x", "1.2.3-", "1..3"] {
        let bytes: Vec<u8> = bad.as_bytes().to_vec();
        let n = bytes.len();
        assert!(parse_version(&bytes, 0, n).is_none(), "{bad:?} must be rejected");
    }
}

#[test]
fn rejects_numeric_overflow() {
    let bytes: Vec<u8> = b"99999999999999999999.0.0".to_vec();
    let n = bytes.len();
    assert!(parse_version(&bytes, 0, n).is_none());
}

#[test]
fn numeric_components_compare_by_value() {
    assert_eq!(ver("1.2.3").compare(&ver("1.2.10")), Order::Less);
    assert_eq!(ver("1.10.0").compare(&ver("1.9.9")), Order::Greater);
    assert_eq!(ver("2.0.0").compare(&ver("2.0.0")), Order::Equal);
}

#[test]
fn pre_release_precedes_release() {
    assert_eq!(ver("1.0.0-alpha").compare(&ver("1.0.0")), Order::Less);
    assert_eq!(ver("1.0.0").compare(&ver("1.0.0-rc.1")), Order::Greater);
}

#[test]
fn pre_release_tails_order_by_identifier() {
    assert_eq!(ver("1.0.0-alpha").compare(&ver("1.0.0-alpha.1")), Order::Less);
    assert_eq!(ver("1.0.0-alpha.1").compare(&ver("1.0.0-beta")), Order::Less);
    assert_eq!(ver("1.0.0-1").compare(&ver("1.0.0-alpha")), Order::Less);
    assert_eq!(ver("1.0.0-2").compare(&ver("1.0.0-10")), Order::Less);
}

#[test]
fn built_version_equals_parsed_version() {
    let built = Version::new_pre(1, 0, 0, vec![PreIdent::Alpha(b"alpha".to_vec()), PreIdent::Num(1)]);
    assert!(built.same_as(&ver("1.0.0-alpha.1")));
    assert!(Version::new(1, 2, 3).same_as(&ver("1.2.3")));
    assert_eq!(built.duplicate().compare(&built), Order::Equal);
}

#[test]
fn equality_by_precedence() {
    assert!(ver("1.2.3").same_as(&ver("1.2.3")));
    assert!(!ver("1.2.3").same_as(&ver("1.2.4")));
}
