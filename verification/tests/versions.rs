use baryon::requirement::{ChainLink, PackageRequirement, PackageVersion};
use baryon::version::{digit_text, write_decimal, write_marked, ParseError, Version};

fn version(text: &str) -> Version {
    Version::parse(text).ok().unwrap()
}

#[test]
fn parse_reads_every_field() {
    let v = version("1.2.3-alpha.1+build.5");
    assert_eq!(v.major, 1);
    assert_eq!(v.minor, 2);
    assert_eq!(v.patch, 3);
    assert_eq!(v.pre, "alpha.1");
    assert_eq!(v.build, "build.5");
    let plain = version("10.20.30");
    assert_eq!((plain.major, plain.minor, plain.patch), (10, 20, 30));
    assert_eq!(plain.pre, "");
    assert_eq!(plain.build, "");
}

#[test]
fn parse_hands_back_the_offending_text() {
    match Version::parse("1.2") {
        Err(ParseError::InvalidVersion(text)) => assert_eq!(text, "1.2"),
        _ => panic!("1.2 is no version"),
    }
    assert!(matches!(Version::parse("not a version"), Err(ParseError::InvalidVersion(_))));
    assert!(matches!(Version::parse(""), Err(ParseError::InvalidVersion(_))));
    assert!(matches!(Version::parse("01.0.0"), Err(ParseError::InvalidVersion(_))));
}

#[test]
fn text_round_trips() {
    for text in ["1.0.0", "0.9.0", "1.0.0-rc1", "1.2.3-alpha.1+build.5", "2.0.0+exp"] {
        assert_eq!(version(text).to_text(), text);
    }
}

#[test]
fn rank_follows_precedence() {
    assert_eq!(version("1.0.0").rank(&version("2.0.0")), -1);
    assert_eq!(version("2.0.0").rank(&version("1.0.0")), 1);
    assert_eq!(version("1.0.0").rank(&version("1.0.0")), 0);
    assert_eq!(version("1.2.0").rank(&version("1.10.0")), -1);
    assert_eq!(version("1.0.9").rank(&version("1.0.10")), -1);
    // A pre-release comes before the release of the same triple.
    assert_eq!(version("1.0.0-rc1").rank(&version("1.0.0")), -1);
    assert_eq!(version("1.0.0").rank(&version("1.0.0-rc1")), 1);
    assert_eq!(version("0.9.0").rank(&version("1.0.0-rc1")), -1);
    // Identifiers: numeric ones by number, before alphanumeric ones; a longer
    // list after its prefix.
    assert_eq!(version("1.0.0-alpha").rank(&version("1.0.0-alpha.1")), -1);
    assert_eq!(version("1.0.0-alpha.1").rank(&version("1.0.0-alpha.beta")), -1);
    assert_eq!(version("1.0.0-alpha.beta").rank(&version("1.0.0-beta")), -1);
    assert_eq!(version("1.0.0-beta.2").rank(&version("1.0.0-beta.11")), -1);
    assert_eq!(version("1.0.0-beta.11").rank(&version("1.0.0-rc.1")), -1);
    // Build metadata breaks ties.
    assert_eq!(version("1.0.0+a").rank(&version("1.0.0+b")), -1);
    assert_eq!(version("1.0.0+a").rank(&version("1.0.0+a")), 0);
}

#[test]
fn rank_is_antisymmetric_and_transitive_on_samples() {
    let texts = ["0.9.0", "1.0.0-alpha", "1.0.0-rc1", "1.0.0", "1.0.0+b", "1.0.1", "2.0.0"];
    for (i, a) in texts.iter().enumerate() {
        for (j, b) in texts.iter().enumerate() {
            let r = version(a).rank(&version(b));
            assert_eq!(r, -version(b).rank(&version(a)));
            assert_eq!(r, if i < j { -1 } else if i == j { 0 } else { 1 });
        }
    }
}

#[test]
fn same_as_compares_every_field() {
    assert!(version("1.0.0").same_as(&version("1.0.0")));
    assert!(!version("1.0.0").same_as(&version("1.0.1")));
    assert!(!version("1.0.0").same_as(&version("1.0.0-rc1")));
    assert!(!version("1.0.0+a").same_as(&version("1.0.0+b")));
    assert!(version("1.0.0-rc1+a").same_as(&version("1.0.0-rc1+a")));
}

#[test]
fn is_prerelease_tells_the_tag() {
    assert!(version("1.0.0-rc1").is_prerelease());
    assert!(!version("1.0.0").is_prerelease());
    assert!(!version("1.0.0+build").is_prerelease());
}

#[test]
fn clone_keeps_the_version() {
    let v = version("1.2.3-alpha.1+build.5");
    let w = v.clone();
    assert!(v.same_as(&w));
}

#[test]
fn requirement_new_checks_the_range() {
    let r = PackageRequirement::new("A".to_string(), ">=1, <2".to_string()).ok().unwrap();
    assert_eq!(r.name, "A");
    assert_eq!(r.spec, ">=1, <2");
    assert!(r.required_by.is_empty());
    match PackageRequirement::new("A".to_string(), "not a range".to_string()) {
        Err(ParseError::InvalidRequirement(text)) => assert_eq!(text, "not a range"),
        _ => panic!("the text is no range"),
    }
    assert!(PackageRequirement::new("A".to_string(), ">>1".to_string()).is_err());
}

#[test]
fn matches_follows_range_semantics() {
    let req = |spec: &str| PackageRequirement::new("A".to_string(), spec.to_string()).ok().unwrap();
    assert!(req("^1.2").matches(&version("1.2.0")));
    assert!(req("^1.2").matches(&version("1.9.3")));
    assert!(!req("^1.2").matches(&version("1.1.9")));
    assert!(!req("^1.2").matches(&version("2.0.0")));
    assert!(req(">=1, <2").matches(&version("1.5.0")));
    assert!(!req(">=1, <2").matches(&version("2.0.0")));
    assert!(req("=1.0.0").matches(&version("1.0.0")));
    assert!(!req("=1.0.0").matches(&version("1.0.1")));
    assert!(req("1.0.0").matches(&version("1.0.5")));
    assert!(req("~1.2.3").matches(&version("1.2.9")));
    assert!(!req("~1.2.3").matches(&version("1.3.0")));
    assert!(req("*").matches(&version("0.0.1")));
    // A pre-release is admitted only by a range that names one of its triple.
    assert!(!req("*").matches(&version("1.0.0-rc1")));
    assert!(!req(">=0.9").matches(&version("1.0.0-rc1")));
    assert!(req(">=1.0.0-alpha").matches(&version("1.0.0-rc1")));
    assert!(!req(">=1.0.0-alpha").matches(&version("1.0.1-rc1")));
}

#[test]
fn chains_and_parents() {
    let top = PackageRequirement::new("A".to_string(), "^1".to_string()).ok().unwrap();
    assert!(top.parent().is_none());
    let below = top.chain_below();
    assert_eq!(below.len(), 1);
    assert_eq!((below[0].name.as_str(), below[0].spec.as_str()), ("A", "^1"));
    let child = PackageRequirement {
        name: "B".to_string(),
        spec: "^2".to_string(),
        required_by: below,
    };
    let grandchild = PackageRequirement {
        name: "C".to_string(),
        spec: "*".to_string(),
        required_by: child.chain_below(),
    };
    assert_eq!(grandchild.required_by.len(), 2);
    let parent = grandchild.parent().unwrap();
    assert_eq!((parent.name.as_str(), parent.spec.as_str()), ("B", "^2"));
    assert_eq!(parent.required_by.len(), 1);
    let grandparent = parent.parent().unwrap();
    assert_eq!((grandparent.name.as_str(), grandparent.spec.as_str()), ("A", "^1"));
    assert!(grandparent.required_by.is_empty());
    let link: ChainLink = grandchild.link();
    assert_eq!((link.name.as_str(), link.spec.as_str()), ("C", "*"));
    let copy = grandchild.clone();
    assert_eq!(copy.required_by.len(), 2);
    assert_eq!(copy.required_by[1].name, "B");
}

#[test]
fn package_version_new_parses() {
    let v = PackageVersion::new("A", "1.2.3").ok().unwrap();
    assert_eq!(v.name, "A");
    assert_eq!(v.version.to_text(), "1.2.3");
    assert!(v.required_by.is_empty());
    assert!(matches!(PackageVersion::new("A", "1"), Err(ParseError::InvalidVersion(_))));
}

#[test]
fn decimal_writing() {
    let shown = |n: u64| {
        let mut out = String::from("v");
        write_decimal(&mut out, n);
        out
    };
    assert_eq!(shown(0), "v0");
    assert_eq!(shown(7), "v7");
    assert_eq!(shown(10), "v10");
    assert_eq!(shown(1234567890), "v1234567890");
    assert_eq!(shown(u64::MAX), "v18446744073709551615");
    for d in 0..10u64 {
        assert_eq!(digit_text(d), d.to_string());
    }
}

#[test]
fn tags_are_marked_where_present() {
    let mut out = String::from("1.0.0");
    write_marked(&mut out, "-", &"".to_string());
    assert_eq!(out, "1.0.0");
    write_marked(&mut out, "-", &"rc.1".to_string());
    assert_eq!(out, "1.0.0-rc.1");
    write_marked(&mut out, "+", &"build".to_string());
    assert_eq!(out, "1.0.0-rc.1+build");
}

#[test]
fn text_of_large_numbers() {
    let v = Version {
        major: u64::MAX,
        minor: 0,
        patch: 1000,
        pre: String::new(),
        build: "b".to_string(),
    };
    assert_eq!(v.to_text(), "18446744073709551615.0.1000+b");
    assert!(Version::parse(&v.to_text()).ok().unwrap().same_as(&v));
}
