use baryon::index::{Dependency, Package, PackageEntry, Release, ReleaseEntry, Repository};
use baryon::requirement::{ChainLink, PackageVersion};
use baryon::version::{ParseError, Version};

fn rel(version: &str, dependencies: &[(&str, &str)]) -> Release {
    Release {
        version: version.to_string(),
        dependencies: dependencies
            .iter()
            .map(|d| Dependency { name: d.0.to_string(), spec: d.1.to_string() })
            .collect(),
    }
}

fn pkg(name: &str, releases: Vec<Release>) -> Package {
    Package { name: name.to_string(), releases }
}

fn build(packages: &[Package]) -> Result<Repository, ParseError> {
    Repository::new(packages.iter().collect())
}

fn texts(versions: &[PackageVersion]) -> Vec<String> {
    versions.iter().map(|v| v.version.to_text()).collect()
}

#[test]
fn index_answers_both_queries() {
    let catalog = vec![
        pkg("A", vec![rel("2.0.0", &[("B", "^2"), ("C", "*")]), rel("1.0.0", &[("B", "^1")])]),
        pkg("B", vec![rel("1.0.0", &[])]),
    ];
    let index = build(&catalog).ok().unwrap();
    let versions = index.get_versions("A");
    assert_eq!(texts(&versions), vec!["2.0.0", "1.0.0"]);
    assert!(versions.iter().all(|v| v.name == "A" && v.required_by.is_empty()));
    let deps = index.get_dependencies(&versions[0]);
    let listed: Vec<(&str, &str)> =
        deps.iter().map(|d| (d.name.as_str(), d.spec.as_str())).collect();
    assert_eq!(listed, vec![("B", "^2"), ("C", "*")]);
    assert!(deps.iter().all(|d| d.required_by.is_empty()));
    assert_eq!(index.get_dependencies(&versions[1]).len(), 1);
}

#[test]
fn unknown_names_and_versions_yield_nothing() {
    let catalog = vec![pkg("A", vec![rel("1.0.0", &[("B", "^1")])])];
    let index = build(&catalog).ok().unwrap();
    assert!(index.get_versions("Z").is_empty());
    assert!(index.get_dependencies(&PackageVersion::new("Z", "1.0.0").ok().unwrap()).is_empty());
    assert!(index.get_dependencies(&PackageVersion::new("A", "9.9.9").ok().unwrap()).is_empty());
    assert!(build(&[]).ok().unwrap().get_versions("A").is_empty());
}

#[test]
fn a_version_that_does_not_parse_ends_construction() {
    let catalog = vec![
        pkg("A", vec![rel("1.0.0", &[])]),
        pkg("B", vec![rel("one", &[("A", "also bad")])]),
        pkg("C", vec![rel("two", &[])]),
    ];
    match build(&catalog) {
        Err(ParseError::InvalidVersion(text)) => assert_eq!(text, "one"),
        _ => panic!("the catalog holds a bad version"),
    }
}

#[test]
fn a_range_that_does_not_parse_ends_construction() {
    let catalog = vec![pkg(
        "A",
        vec![rel("1.0.0", &[("B", "^1"), ("C", "bad one"), ("D", "bad two")])],
    )];
    match build(&catalog) {
        Err(ParseError::InvalidRequirement(text)) => assert_eq!(text, "bad one"),
        _ => panic!("the catalog holds a bad range"),
    }
}

#[test]
fn a_later_entry_replaces_an_earlier_one() {
    let catalog = vec![
        pkg("A", vec![rel("1.0.0", &[("B", "^1")]), rel("1.0.0", &[("C", "^1")])]),
        pkg("B", vec![rel("1.0.0", &[])]),
        pkg("B", vec![rel("2.0.0", &[]), rel("3.0.0", &[])]),
    ];
    let index = build(&catalog).ok().unwrap();
    assert_eq!(index.data.len(), 2);
    let a = index.get_versions("A");
    assert_eq!(texts(&a), vec!["1.0.0"]);
    let deps = index.get_dependencies(&a[0]);
    assert_eq!(deps.len(), 1);
    assert_eq!(deps[0].name, "C");
    assert_eq!(texts(&index.get_versions("B")), vec!["2.0.0", "3.0.0"]);
}

#[test]
fn packages_can_be_added_by_hand() {
    let mut index = Repository { data: Vec::new() };
    let entry = |version: &str| ReleaseEntry {
        version: Version::parse(version).ok().unwrap(),
        dependencies: vec![ChainLink { name: "B".to_string(), spec: "*".to_string() }],
    };
    index.add_package(PackageEntry { name: "A".to_string(), releases: vec![entry("1.0.0")] });
    index.add_package(PackageEntry { name: "B".to_string(), releases: Vec::new() });
    index.add_package(PackageEntry {
        name: "A".to_string(),
        releases: vec![entry("2.0.0"), entry("3.0.0")],
    });
    assert_eq!(index.data.len(), 2);
    assert_eq!(index.find_package(&"A".to_string()), Some(0));
    assert_eq!(index.find_package(&"B".to_string()), Some(1));
    assert_eq!(index.find_package(&"C".to_string()), None);
    assert_eq!(texts(&index.get_versions("A")), vec!["2.0.0", "3.0.0"]);
}
