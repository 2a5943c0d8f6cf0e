use emanate::error::Error;
use emanate::text::{IntError, Order};
use emanate::version::{Change, Version};

#[test]
fn parses_plain_version() {
    let v = Version::parse("1.2.3").unwrap();
    assert_eq!((v.major, v.minor, v.patch), (1, 2, 3));
    assert!(v.suffix.is_none());
}

#[test]
fn parses_version_with_suffix() {
    let v = Version::parse("1.2.3-rc1").unwrap();
    assert_eq!((v.major, v.minor, v.patch), (1, 2, 3));
    assert_eq!(v.suffix.as_deref(), Some("rc1"));
}

#[test]
fn suffix_is_taken_only_with_a_single_dash() {
    let v = Version::parse("1.2.3-rc-1").unwrap();
    assert_eq!((v.major, v.minor, v.patch), (1, 2, 3));
    assert!(v.suffix.is_none());
}

#[test]
fn asterisk_is_refused() {
    assert!(matches!(Version::parse("*"), Err(Error::VersionAsterisk)));
}

#[test]
fn partial_version_is_refused() {
    match Version::parse("1.2") {
        Err(Error::NonFixedVersion(s)) => assert_eq!(s, "1.2"),
        other => panic!("{:?}", other),
    }
    assert!(matches!(Version::parse("1.2.3.4"), Err(Error::NonFixedVersion(_))));
    assert!(matches!(Version::parse(""), Err(Error::NonFixedVersion(_))));
}

#[test]
fn component_that_is_no_number_is_refused() {
    assert!(matches!(
        Version::parse("1.x.3"),
        Err(Error::ParseIntError(IntError::InvalidDigit))
    ));
    assert!(matches!(Version::parse("1..3"), Err(Error::ParseIntError(IntError::Empty))));
    assert!(matches!(
        Version::parse("1.2.4294967296"),
        Err(Error::ParseIntError(IntError::Overflow))
    ));
}

#[test]
fn new_has_no_suffix() {
    let v = Version::new(4, 5, 6).unwrap();
    assert_eq!((v.major, v.minor, v.patch), (4, 5, 6));
    assert!(v.suffix.is_none());
}

#[test]
fn patch_change_yields_next_patch() {
    let mut v = Version::parse("1.2.0").unwrap();
    assert!(v.can_change(&Change::Patch));
    v.change(&Change::Patch);
    assert_eq!(v.to_string(), "1.2.1");
}

#[test]
fn minor_change_resets_patch() {
    let mut v = Version::parse("1.2.3").unwrap();
    v.change(&Change::Minor);
    assert_eq!(v.to_string(), "1.3.0");
}

#[test]
fn major_change_resets_minor_and_patch() {
    let mut v = Version::parse("1.2.3-beta").unwrap();
    v.change(&Change::Major);
    assert_eq!(v.to_string(), "2.0.0-beta");
}

#[test]
fn custom_change_sets_the_version_and_is_idempotent() {
    let target = Change::Custom(Version::parse("2.0.0").unwrap());
    let mut v = Version::parse("1.2.3-rc1").unwrap();
    v.change(&target);
    assert_eq!(v.to_string(), "2.0.0");
    v.change(&target);
    assert_eq!(v.to_string(), "2.0.0");
}

#[test]
fn change_at_the_limit_is_told_beforehand() {
    let v = Version::new(u32::MAX, u32::MAX, 7).unwrap();
    assert!(!v.can_change(&Change::Major));
    assert!(!v.can_change(&Change::Minor));
    assert!(v.can_change(&Change::Patch));
    assert!(v.can_change(&Change::Custom(Version::new(0, 0, 0).unwrap())));
}

#[test]
fn to_string_writes_numbers_and_suffix() {
    assert_eq!(Version::new(0, 10, 200).unwrap().to_string(), "0.10.200");
    assert_eq!(Version::parse("3.2.1-alpha").unwrap().to_string(), "3.2.1-alpha");
}

#[test]
fn release_is_greater_than_its_prerelease() {
    let release = Version::parse("1.2.3").unwrap();
    let candidate = Version::parse("1.2.3-rc1").unwrap();
    assert_eq!(release.compare(&candidate), Order::Greater);
    assert_eq!(candidate.compare(&release), Order::Less);
    assert!(release > candidate);
}

#[test]
fn versions_are_ordered_by_their_numbers() {
    let a = Version::parse("1.9.9").unwrap();
    let b = Version::parse("1.10.0").unwrap();
    let c = Version::parse("2.0.0").unwrap();
    assert_eq!(a.compare(&b), Order::Less);
    assert_eq!(b.compare(&c), Order::Less);
    assert_eq!(c.compare(&a), Order::Greater);
    assert_eq!(a.compare(&a), Order::Equal);
    assert!(a < b && b < c);
}

#[test]
fn suffixes_are_compared_in_reverse() {
    let a = Version::parse("1.0.0-a").unwrap();
    let b = Version::parse("1.0.0-b").unwrap();
    assert_eq!(a.compare(&b), Order::Greater);
    assert_eq!(b.compare(&a), Order::Less);
}

#[test]
fn equality_takes_the_suffix_into_account() {
    assert!(Version::parse("1.2.3").unwrap() == Version::new(1, 2, 3).unwrap());
    assert!(Version::parse("1.2.3-x").unwrap() != Version::new(1, 2, 3).unwrap());
    assert!(Version::parse("1.2.3-x").unwrap().same(&Version::parse("1.2.3-x").unwrap()));
    assert!(!Version::parse("1.2.4").unwrap().same(&Version::parse("1.2.3").unwrap()));
}

#[test]
fn clone_keeps_the_version() {
    let v = Version::parse("7.8.9-pre").unwrap();
    assert!(v.clone() == v);
}

#[test]
fn change_is_read_from_a_word_or_a_version() {
    assert!(matches!(Change::parse("major"), Ok(Change::Major)));
    assert!(matches!(Change::parse("minor"), Ok(Change::Minor)));
    assert!(matches!(Change::parse("patch"), Ok(Change::Patch)));
    match Change::parse("2.0.0") {
        Ok(Change::Custom(v)) => assert_eq!(v.to_string(), "2.0.0"),
        other => panic!("{:?}", other),
    }
    assert!(matches!(Change::parse("Major"), Err(Error::NonFixedVersion(_))));
    assert!(matches!(Change::parse("*"), Err(Error::VersionAsterisk)));
}

#[test]
fn error_messages() {
    assert_eq!(Error::VersionAsterisk.message(), "versions containing \"*\" are not allowed");
    assert_eq!(
        Error::NonFixedVersion("1.2".to_string()).message(),
        "detected partial version `1.2`"
    );
    assert_eq!(Error::InvalidVersion("x".to_string()).to_string(), "invalid version x");
    assert_eq!(
        Error::ParseIntError(IntError::InvalidDigit).message(),
        "ParseIntError: invalid digit found in string"
    );
    assert_eq!(
        Error::ParseIntError(IntError::Empty).message(),
        "ParseIntError: cannot parse integer from empty string"
    );
    assert_eq!(
        Error::ParseIntError(IntError::Overflow).message(),
        "ParseIntError: number too large to fit in target type"
    );
    assert_eq!(Error::WorkspaceCrate.message(), "this appears to be a workspace crate");
    assert_eq!(Error::RelativeCrate.message(), "relative crate");
    assert_eq!(Error::String("plain".to_string()).message(), "plain");
    assert_eq!(Error::Toml("bad".to_string()).message(), "bad");
    assert_eq!(
        Error::CycleDetected("x".to_string()).message(),
        "dependency cycle detected at package `x`"
    );
    assert_eq!(
        Error::MissingVersion("x".to_string()).message(),
        "no version can be resolved for dependency `x`"
    );
}

#[test]
fn text_of_a_version_is_read_back() {
    for text in ["0.0.0", "1.2.3", "10.20.30-rc1", "4294967295.0.1", "1.0.0-rc.1", "1.0.0-"] {
        let v = Version::parse(text).unwrap();
        assert_eq!(v.to_string(), text);
        assert!(Version::parse(&v.to_string()).unwrap() == v);
    }
}
