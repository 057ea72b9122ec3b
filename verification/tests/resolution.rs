use baryon::index::{Dependency, Package, Release, Repository};
use baryon::requirement::{PackageRequirement, PackageVersion};
use baryon::resolver::{FailedRequirement, PackageResolver};
use baryon::search::Reason;
use baryon::strategy::Strategy;
use baryon::version::Version;

fn release(version: &str, dependencies: &[(&str, &str)]) -> Release {
    Release {
        version: version.to_string(),
        dependencies: dependencies
            .iter()
            .map(|d| Dependency { name: d.0.to_string(), spec: d.1.to_string() })
            .collect(),
    }
}

fn package(name: &str, releases: Vec<Release>) -> Package {
    Package { name: name.to_string(), releases }
}

fn index(packages: &[Package]) -> Repository {
    Repository::new(packages.iter().collect()).unwrap()
}

fn req(name: &str, spec: &str) -> PackageRequirement {
    PackageRequirement::new(name.to_string(), spec.to_string()).unwrap()
}

fn resolve(
    packages: &[Package],
    requirements: Vec<PackageRequirement>,
    strategy: Strategy,
) -> Result<Vec<PackageVersion>, FailedRequirement> {
    let mut resolver = PackageResolver::new(requirements, index(packages), strategy);
    resolver.resolve()
}

fn picked(selected: &[PackageVersion]) -> Vec<(String, String)> {
    let mut out: Vec<(String, String)> = selected
        .iter()
        .map(|v| (v.name.clone(), v.version.to_text()))
        .collect();
    out.sort();
    out
}

fn pairs(expected: &[(&str, &str)]) -> Vec<(String, String)> {
    expected.iter().map(|p| (p.0.to_string(), p.1.to_string())).collect()
}

fn chain(v: &PackageVersion) -> Vec<(String, String)> {
    v.required_by.iter().map(|l| (l.name.clone(), l.spec.clone())).collect()
}

fn mock_catalog() -> Vec<Package> {
    vec![
        package(
            "package1",
            vec![release("1.0.0", &[("package2", "^1.0"), ("package3", "^1.0")])],
        ),
        package("package2", vec![release("1.0.0", &[("package3", ">=1.0.0")])]),
        package("package3", vec![release("1.0.0", &[]), release("1.1.0", &[])]),
    ]
}

#[test]
fn can_load_repository() {
    let catalog = mock_catalog();
    let mut package_names = catalog.iter().map(|p| p.name.clone()).collect::<Vec<String>>();
    package_names.sort();
    assert_eq!(package_names, vec!["package1", "package2", "package3"]);
    let repo = index(&catalog);
    assert_eq!(repo.data.len(), 3);
}

#[test]
fn can_get_individual_packages() {
    let catalog = mock_catalog();
    let repo = index(&catalog);
    let package1 = repo.find_package(&"package1".to_string()).unwrap();
    assert_eq!(repo.data[package1].name, "package1");
    let package3 = repo.find_package(&"package3".to_string()).unwrap();
    assert_eq!(repo.data[package3].name, "package3");
    assert!(repo.find_package(&"package4".to_string()).is_none());
}

#[test]
fn can_get_depedencies() {
    let catalog = mock_catalog();
    let repo = index(&catalog);
    let version1 = PackageVersion::new("package1", "1.0.0").unwrap();
    let mut dep_names = repo
        .get_dependencies(&version1)
        .iter()
        .map(|dep| dep.name.to_string())
        .collect::<Vec<String>>();
    dep_names.sort();
    assert_eq!(dep_names, vec!["package2", "package3"]);
}

#[test]
fn test_package_resolution() {
    let catalog = mock_catalog();
    let repo = index(&catalog);
    let strategy = Strategy::new();
    let requirements =
        vec![PackageRequirement::new("package1".to_string(), "1.0.0".to_string()).unwrap()];
    let mut resolver = PackageResolver::new(requirements, repo, strategy);
    let resolution = resolver.resolve();
    assert!(resolution.is_ok());
    let resolved_packages = resolution.ok().unwrap();
    assert_eq!(resolved_packages.len(), 3);
    for version in resolved_packages.iter() {
        println!("   Package: {} -> {}", version.name, version.version.to_text());
    }
}

#[test]
fn trivial_resolution() {
    let catalog = vec![package("A", vec![release("1.0.0", &[])])];
    let selected = resolve(&catalog, vec![req("A", "^1")], Strategy::new()).ok().unwrap();
    assert_eq!(picked(&selected), pairs(&[("A", "1.0.0")]));
    assert_eq!(chain(&selected[0]), pairs(&[("A", "^1")]));
}

#[test]
fn linear_dependency() {
    let catalog = vec![
        package("A", vec![release("1.0.0", &[("B", "^1")])]),
        package("B", vec![release("1.0.0", &[])]),
    ];
    let selected = resolve(&catalog, vec![req("A", "^1")], Strategy::new()).ok().unwrap();
    assert_eq!(picked(&selected), pairs(&[("A", "1.0.0"), ("B", "1.0.0")]));
    let b = selected.iter().find(|v| v.name == "B").unwrap();
    assert_eq!(chain(b), pairs(&[("A", "^1"), ("B", "^1")]));
}

#[test]
fn backtrack_once() {
    let catalog = vec![
        package("A", vec![release("2.0.0", &[("B", "^2")]), release("1.0.0", &[("B", "^1")])]),
        package("B", vec![release("1.0.0", &[])]),
    ];
    let strategy = Strategy { conservative: true, avoid_prerelease: false };
    let selected =
        resolve(&catalog, vec![req("A", "*"), req("B", "^1")], strategy).ok().unwrap();
    assert_eq!(picked(&selected), pairs(&[("A", "1.0.0"), ("B", "1.0.0")]));
}

#[test]
fn backtrack_steps() {
    let catalog = vec![
        package("A", vec![release("2.0.0", &[("B", "^2")]), release("1.0.0", &[("B", "^1")])]),
        package("B", vec![release("1.0.0", &[])]),
    ];
    let strategy = Strategy { conservative: true, avoid_prerelease: false };
    let mut resolver =
        PackageResolver::new(vec![req("A", "*"), req("B", "^1")], index(&catalog), strategy);
    // B ^1 is taken first, then A *, for which the newest release is tried.
    assert!(resolver.step().is_ok());
    assert!(resolver.step().is_ok());
    assert_eq!(picked(resolver.selected()), pairs(&[("A", "2.0.0"), ("B", "1.0.0")]));
    // B ^2 stands against B 1.0.0: the search goes back to A and tries 1.0.0.
    assert!(resolver.step().is_ok());
    assert_eq!(picked(resolver.selected()), pairs(&[("A", "1.0.0"), ("B", "1.0.0")]));
    assert_eq!(resolver.pending().len(), 1);
    assert!(resolver.step().is_ok());
    assert_eq!(resolver.pending().len(), 0);
}

#[test]
fn diamond() {
    let catalog = vec![
        package("A", vec![release("1.0.0", &[("C", "^1")])]),
        package("B", vec![release("1.0.0", &[("C", "^1")])]),
        package("C", vec![release("1.0.0", &[])]),
    ];
    let selected =
        resolve(&catalog, vec![req("A", "*"), req("B", "*")], Strategy::new()).ok().unwrap();
    assert_eq!(picked(&selected), pairs(&[("A", "1.0.0"), ("B", "1.0.0"), ("C", "1.0.0")]));
    // The last top-level requirement is taken first, so B brings C in.
    let c = selected.iter().find(|v| v.name == "C").unwrap();
    assert_eq!(chain(c), pairs(&[("B", "*"), ("C", "^1")]));
}

#[test]
fn unsatisfiable_conflict() {
    let catalog = vec![
        package("A", vec![release("1.0.0", &[("C", "=1.0.0")])]),
        package("B", vec![release("1.0.0", &[("C", "=2.0.0")])]),
        package("C", vec![release("1.0.0", &[]), release("2.0.0", &[])]),
    ];
    let failure =
        resolve(&catalog, vec![req("A", "*"), req("B", "*")], Strategy::new()).err().unwrap();
    assert_eq!(failure.package_name, "C");
    assert_eq!(failure.reason, Reason::Conflict);
    assert_eq!(failure.diagnostics.len(), 1);
    let note = &failure.diagnostics[0];
    assert_eq!(note.name, "C");
    assert_eq!(note.selected_version.as_ref().unwrap().to_text(), "2.0.0");
    assert_eq!(note.failing_spec, "=1.0.0");
}

#[test]
fn prerelease_avoided() {
    let catalog = vec![package("A", vec![release("1.0.0-rc1", &[]), release("0.9.0", &[])])];
    let avoiding = Strategy { conservative: true, avoid_prerelease: true };
    let selected = resolve(&catalog, vec![req("A", "*")], avoiding).ok().unwrap();
    assert_eq!(picked(&selected), pairs(&[("A", "0.9.0")]));
}

#[test]
fn prerelease_taken_where_the_range_names_one() {
    let catalog = vec![package("A", vec![release("1.0.0-rc1", &[]), release("0.9.0", &[])])];
    let range = ">=0.9.0, <=1.0.0-rc1";
    let keeping = Strategy { conservative: true, avoid_prerelease: false };
    let selected = resolve(&catalog, vec![req("A", range)], keeping).ok().unwrap();
    assert_eq!(picked(&selected), pairs(&[("A", "1.0.0-rc1")]));
    let avoiding = Strategy { conservative: true, avoid_prerelease: true };
    let selected = resolve(&catalog, vec![req("A", range)], avoiding).ok().unwrap();
    assert_eq!(picked(&selected), pairs(&[("A", "0.9.0")]));
}

#[test]
fn star_admits_no_prerelease() {
    let catalog = vec![package("A", vec![release("1.0.0-rc1", &[]), release("0.9.0", &[])])];
    let keeping = Strategy { conservative: true, avoid_prerelease: false };
    let selected = resolve(&catalog, vec![req("A", "*")], keeping).ok().unwrap();
    assert_eq!(picked(&selected), pairs(&[("A", "0.9.0")]));
    assert!(!req("A", "*").matches(&Version::parse("1.0.0-rc1").ok().unwrap()));
}

#[test]
fn oldest_first_without_conservative() {
    let catalog = vec![package(
        "A",
        vec![release("1.0.0", &[]), release("3.0.0", &[]), release("2.0.0", &[])],
    )];
    let newest = Strategy { conservative: true, avoid_prerelease: false };
    let selected = resolve(&catalog, vec![req("A", "*")], newest).ok().unwrap();
    assert_eq!(picked(&selected), pairs(&[("A", "3.0.0")]));
    let oldest = Strategy { conservative: false, avoid_prerelease: false };
    let selected = resolve(&catalog, vec![req("A", "*")], oldest).ok().unwrap();
    assert_eq!(picked(&selected), pairs(&[("A", "1.0.0")]));
}

#[test]
fn top_level_without_candidates_fails_at_once() {
    let catalog = vec![package("A", vec![release("1.0.0", &[])])];
    let failure = resolve(&catalog, vec![req("A", "^2")], Strategy::new()).err().unwrap();
    assert_eq!(failure.package_name, "A");
    assert_eq!(failure.reason, Reason::NoCandidates);
    assert_eq!(failure.diagnostics.len(), 1);
    assert!(failure.diagnostics[0].selected_version.is_none());
    assert_eq!(failure.diagnostics[0].failing_spec, "^2");
    let failure = resolve(&catalog, vec![req("Z", "*")], Strategy::new()).err().unwrap();
    assert_eq!(failure.package_name, "Z");
    assert_eq!(failure.reason, Reason::NoCandidates);
}

#[test]
fn dependency_without_candidates_fails() {
    let catalog = vec![
        package("A", vec![release("1.0.0", &[("B", "^2")])]),
        package("B", vec![release("1.0.0", &[])]),
        package("C", vec![release("1.0.0", &[])]),
    ];
    let failure =
        resolve(&catalog, vec![req("C", "*"), req("A", "*")], Strategy::new()).err().unwrap();
    assert_eq!(failure.package_name, "B");
    assert_eq!(failure.reason, Reason::NoCandidates);
}

#[test]
fn going_back_to_the_first_choice_is_a_null_state() {
    let catalog = vec![
        package("A", vec![release("2.0.0", &[("B", "^2")]), release("1.0.0", &[])]),
        package("B", vec![release("1.0.0", &[])]),
    ];
    let failure = resolve(&catalog, vec![req("A", "*")], Strategy::new()).err().unwrap();
    assert_eq!(failure.package_name, "A");
    assert_eq!(failure.reason, Reason::NullStateRestore);
}

#[test]
fn resolution_is_deterministic() {
    let catalog = mock_catalog();
    let first = resolve(&catalog, vec![req("package1", "1.0.0")], Strategy::new()).ok().unwrap();
    let second = resolve(&catalog, vec![req("package1", "1.0.0")], Strategy::new()).ok().unwrap();
    assert_eq!(picked(&first), picked(&second));
    let order = |s: &[PackageVersion]| s.iter().map(|v| v.name.clone()).collect::<Vec<_>>();
    assert_eq!(order(&first), order(&second));
    let mut resolver = PackageResolver::new(
        vec![req("package1", "1.0.0")],
        index(&catalog),
        Strategy::new(),
    );
    let again = resolver.resolve().ok().unwrap();
    let once_more = resolver.resolve().ok().unwrap();
    assert_eq!(picked(&again), picked(&once_more));
    assert_eq!(picked(&again), picked(&first));
}

#[test]
fn resolution_is_sound_and_closed() {
    let catalog = mock_catalog();
    let repo = index(&catalog);
    let top = req("package1", "1.0.0");
    let selected = resolve(&catalog, vec![req("package1", "1.0.0")], Strategy::new()).ok().unwrap();
    let find = |name: &str| selected.iter().find(|v| v.name == name);
    assert!(top.matches(&find("package1").unwrap().version));
    for v in selected.iter() {
        assert_eq!(selected.iter().filter(|w| w.name == v.name).count(), 1);
        for dep in repo.get_dependencies(v) {
            let met = find(&dep.name).unwrap();
            assert!(dep.matches(&met.version));
        }
    }
    assert_eq!(
        picked(&selected),
        pairs(&[("package1", "1.0.0"), ("package2", "1.0.0"), ("package3", "1.1.0")])
    );
}

#[test]
fn pinned_resolution_gives_the_same_versions() {
    let catalog = mock_catalog();
    let first = resolve(&catalog, vec![req("package1", "1.0.0")], Strategy::new()).ok().unwrap();
    let mut requirements = vec![req("package1", "1.0.0")];
    for v in first.iter() {
        requirements.push(req(&v.name, &format!("={}", v.version.to_text())));
    }
    let second = resolve(&catalog, requirements, Strategy::new()).ok().unwrap();
    assert_eq!(picked(&first), picked(&second));
}

#[test]
fn chains_lead_back_to_a_top_level_requirement() {
    let catalog = mock_catalog();
    let selected = resolve(&catalog, vec![req("package1", "1.0.0")], Strategy::new()).ok().unwrap();
    for v in selected.iter() {
        let links = chain(v);
        assert_eq!(links[0], ("package1".to_string(), "1.0.0".to_string()));
        assert_eq!(links.last().unwrap().0, v.name);
    }
}
