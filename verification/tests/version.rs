use dottor::version::{Version, VersionSpecifier};

fn parse_ok(text: &str) -> Version {
    match Version::parse(text) {
        Ok(v) => v,
        Err(e) => panic!("'{}' should parse, got error: {}", text, e.message()),
    }
}

fn triple(v: &Version) -> (u32, u32, u32) {
    (v.major, v.minor, v.patch)
}

#[test]
fn parse_plain_triple() {
    let v = parse_ok("1.2.3");
    assert!(matches!(v.specifier, VersionSpecifier::Unspecified));
    assert_eq!(triple(&v), (1, 2, 3));
}

#[test]
fn parse_wildcard() {
    let v = parse_ok("*");
    assert!(matches!(v.specifier, VersionSpecifier::Any));
    assert_eq!(triple(&v), (0, 0, 0));
}

#[test]
fn parse_specifiers() {
    assert!(matches!(parse_ok("=1.0.0").specifier, VersionSpecifier::Equals));
    assert!(matches!(parse_ok(">=1.0.0").specifier, VersionSpecifier::GreaterEquals));
    assert!(matches!(parse_ok(">1.0.0").specifier, VersionSpecifier::GreaterThan));
    assert!(matches!(parse_ok("<=1.0.0").specifier, VersionSpecifier::LessEquals));
    assert!(matches!(parse_ok("<1.0.0").specifier, VersionSpecifier::LessThan));
    assert!(matches!(parse_ok("~1.0.0").specifier, VersionSpecifier::MatchMinor));
    assert!(matches!(parse_ok("^1.0.0").specifier, VersionSpecifier::MatchMajor));
}

#[test]
fn parse_accepts_semver_suffixes() {
    let v = parse_ok("1.2.3-alpha.1");
    assert_eq!(triple(&v), (1, 2, 3));
    let v = parse_ok("1.2.3+build.5");
    assert_eq!(triple(&v), (1, 2, 3));
    let v = parse_ok(">=10.20.30-rc.1+linux-x86.64");
    assert!(matches!(v.specifier, VersionSpecifier::GreaterEquals));
    assert_eq!(triple(&v), (10, 20, 30));
    // a pre-release piece with a non-digit may start with a zero
    parse_ok("1.2.3-0x1");
    // the largest value that still fits
    let v = parse_ok("4294967295.0.0");
    assert_eq!(v.major, u32::MAX);
}

#[test]
fn parse_rejects_malformed() {
    for text in [
        "", "1", "1.2", "1.2.3.4", "01.2.3", "1.02.3", "1.2.03", "v1.2.3", "=>1.2.3", " 1.2.3",
        "1.2.3 ", "1..3", "1.2.", ".1.2", "**", "*1.2.3", "1.2.3-", "1.2.3+", "1.2.3-.x",
        "1.2.3-x.", "1.2.3-a..b", "1.2.3-01", "1.2.3+x_y", "1.2.3-é", "4294967296.0.0",
    ] {
        let r = Version::parse(text);
        assert!(r.is_err(), "'{}' should be rejected", text);
        assert_eq!(r.unwrap_err().message(), "could not parse version");
    }
}

#[test]
fn serialize_writes_specifier_and_triple() {
    assert_eq!(Version::new(VersionSpecifier::Unspecified, 1, 2, 3).to_version_string(), "1.2.3");
    assert_eq!(Version::new(VersionSpecifier::Equals, 0, 0, 0).to_version_string(), "=0.0.0");
    assert_eq!(
        Version::new(VersionSpecifier::GreaterEquals, 12, 34, 56).to_version_string(),
        ">=12.34.56"
    );
    assert_eq!(Version::new(VersionSpecifier::GreaterThan, 1, 0, 0).to_version_string(), ">1.0.0");
    assert_eq!(Version::new(VersionSpecifier::LessEquals, 1, 0, 0).to_version_string(), "<=1.0.0");
    assert_eq!(Version::new(VersionSpecifier::LessThan, 1, 0, 0).to_version_string(), "<1.0.0");
    assert_eq!(Version::new(VersionSpecifier::MatchMinor, 1, 2, 0).to_version_string(), "~1.2.0");
    assert_eq!(Version::new(VersionSpecifier::MatchMajor, 2, 0, 0).to_version_string(), "^2.0.0");
    assert_eq!(Version::new(VersionSpecifier::Any, 9, 9, 9).to_version_string(), "*");
}

#[test]
fn parse_serialize_round_trips() {
    // parse, write back, parse again: the specifier and triple survive
    for text in ["1.2.3", "=1.2.3", ">=0.1.0", ">4.5.6", "<=7.8.9", "<1.0.0", "~1.2.3", "^2.0.1",
        "*", "1.2.3-alpha+build"] {
        let v = parse_ok(text);
        let again = parse_ok(&v.to_version_string());
        assert_eq!(v.specifier, again.specifier, "specifier of '{}' did not survive", text);
        assert_eq!(triple(&v), triple(&again), "triple of '{}' did not survive", text);
    }
    // the bare wildcard always comes back as the wildcard
    assert_eq!(parse_ok("*").to_version_string(), "*");
}

#[test]
fn compatible_equals_is_reflexive_and_any_takes_all() {
    let v = Version::new(VersionSpecifier::Equals, 3, 1, 4);
    assert!(v.compatible(&v));
    let any = Version::any();
    assert!(any.compatible(&Version::new(VersionSpecifier::Unspecified, 0, 0, 0)));
    assert!(any.compatible(&Version::new(VersionSpecifier::Unspecified, 17, 2, 9)));
}

#[test]
fn compatible_follows_the_specifier() {
    let cand = |ma: u32, mi: u32, pa: u32| Version::new(VersionSpecifier::Unspecified, ma, mi, pa);
    // no specifier, and `^`: the major version alone must agree
    let req = Version::new(VersionSpecifier::Unspecified, 1, 2, 3);
    assert!(req.compatible(&cand(1, 9, 9)));
    assert!(!req.compatible(&cand(2, 2, 3)));
    let req = Version::new(VersionSpecifier::MatchMajor, 1, 2, 3);
    assert!(req.compatible(&cand(1, 0, 0)));
    assert!(!req.compatible(&cand(0, 2, 3)));
    // `~`: major and minor must agree
    let req = Version::new(VersionSpecifier::MatchMinor, 1, 2, 3);
    assert!(req.compatible(&cand(1, 2, 9)));
    assert!(!req.compatible(&cand(1, 3, 3)));
    // `=`: the whole triple must agree
    let req = Version::new(VersionSpecifier::Equals, 1, 2, 3);
    assert!(req.compatible(&cand(1, 2, 3)));
    assert!(!req.compatible(&cand(1, 2, 4)));
    // the inequalities compare the requirement against the candidate
    let req = Version::new(VersionSpecifier::GreaterEquals, 2, 0, 0);
    assert!(req.compatible(&cand(1, 9, 9)));
    assert!(req.compatible(&cand(2, 0, 0)));
    assert!(!req.compatible(&cand(2, 0, 1)));
    let req = Version::new(VersionSpecifier::GreaterThan, 2, 0, 0);
    assert!(req.compatible(&cand(1, 9, 9)));
    assert!(!req.compatible(&cand(2, 0, 0)));
    let req = Version::new(VersionSpecifier::LessEquals, 2, 0, 0);
    assert!(req.compatible(&cand(2, 0, 1)));
    assert!(req.compatible(&cand(2, 0, 0)));
    assert!(!req.compatible(&cand(1, 9, 9)));
    let req = Version::new(VersionSpecifier::LessThan, 2, 0, 0);
    assert!(req.compatible(&cand(2, 0, 1)));
    assert!(!req.compatible(&cand(2, 0, 0)));
}

#[test]
fn versions_order_lexicographically_and_equal_by_triple() {
    let v = |ma: u32, mi: u32, pa: u32| Version::new(VersionSpecifier::Unspecified, ma, mi, pa);
    assert!(v(1, 2, 3) == Version::new(VersionSpecifier::Equals, 1, 2, 3));
    assert!(v(1, 2, 3) != v(1, 2, 4));
    assert!(v(1, 2, 3) < v(1, 2, 4));
    assert!(v(1, 2, 3) < v(1, 3, 0));
    assert!(v(1, 9, 9) < v(2, 0, 0));
    assert!(v(2, 0, 0) > v(1, 9, 9));
    assert!(v(1, 2, 3) <= v(1, 2, 3));
    assert!(v(1, 2, 3) >= v(1, 2, 3));
}
