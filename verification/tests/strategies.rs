use baryon::requirement::PackageVersion;
use baryon::strategy::Strategy;

fn candidates(texts: &[&str]) -> Vec<PackageVersion> {
    texts.iter().map(|t| PackageVersion::new("A", t).ok().unwrap()).collect()
}

fn texts(versions: &[PackageVersion]) -> Vec<String> {
    versions.iter().map(|v| v.version.to_text()).collect()
}

#[test]
fn defaults() {
    let s = Strategy::new();
    assert!(s.conservative);
    assert!(!s.avoid_prerelease);
    let d = Strategy::default();
    assert!(d.conservative);
    assert!(!d.avoid_prerelease);
}

#[test]
fn filter_drops_prereleases_only_when_asked() {
    let all = ["1.0.0-rc1", "0.9.0", "1.0.0", "2.0.0-alpha.1", "2.0.0+build"];
    let keeping = Strategy { conservative: true, avoid_prerelease: false };
    assert_eq!(texts(&keeping.filter_versions(candidates(&all))), all);
    let avoiding = Strategy { conservative: true, avoid_prerelease: true };
    assert_eq!(
        texts(&avoiding.filter_versions(candidates(&all))),
        vec!["0.9.0", "1.0.0", "2.0.0+build"]
    );
    assert!(avoiding.filter_versions(candidates(&["1.0.0-rc1"])).is_empty());
    assert!(avoiding.filter_versions(Vec::new()).is_empty());
}

#[test]
fn sort_puts_the_preferred_candidate_last() {
    let all = ["1.0.0", "3.0.0", "1.0.0-rc1", "2.5.0", "0.9.0", "2.10.0"];
    let newest = Strategy { conservative: true, avoid_prerelease: false };
    assert_eq!(
        texts(&newest.sort_versions(candidates(&all))),
        vec!["0.9.0", "1.0.0-rc1", "1.0.0", "2.5.0", "2.10.0", "3.0.0"]
    );
    let oldest = Strategy { conservative: false, avoid_prerelease: false };
    assert_eq!(
        texts(&oldest.sort_versions(candidates(&all))),
        vec!["3.0.0", "2.10.0", "2.5.0", "1.0.0", "1.0.0-rc1", "0.9.0"]
    );
    assert!(newest.sort_versions(Vec::new()).is_empty());
    assert_eq!(texts(&newest.sort_versions(candidates(&["1.0.0"]))), vec!["1.0.0"]);
}

#[test]
fn sort_keeps_equal_candidates_in_order() {
    let mut all = candidates(&["1.0.0", "2.0.0", "1.0.0"]);
    all[0].name = "first".to_string();
    all[2].name = "second".to_string();
    let newest = Strategy { conservative: true, avoid_prerelease: false };
    let sorted = newest.sort_versions(all);
    let names: Vec<&str> = sorted.iter().map(|v| v.name.as_str()).collect();
    assert_eq!(names, vec!["first", "second", "A"]);
}

#[test]
fn place_of_finds_the_place() {
    let newest = Strategy { conservative: true, avoid_prerelease: false };
    let sorted = candidates(&["1.0.0", "2.0.0", "4.0.0"]);
    let place = |t: &str| newest.place_of(&sorted, &PackageVersion::new("A", t).ok().unwrap());
    assert_eq!(place("0.1.0"), 0);
    assert_eq!(place("1.0.0"), 1);
    assert_eq!(place("3.0.0"), 2);
    assert_eq!(place("5.0.0"), 3);
}

#[test]
fn rank_turns_with_the_strategy() {
    let a = PackageVersion::new("A", "1.0.0").ok().unwrap().version;
    let b = PackageVersion::new("A", "2.0.0").ok().unwrap().version;
    let newest = Strategy { conservative: true, avoid_prerelease: false };
    let oldest = Strategy { conservative: false, avoid_prerelease: false };
    assert_eq!(newest.rank(&a, &b), -1);
    assert_eq!(newest.rank(&b, &a), 1);
    assert_eq!(oldest.rank(&a, &b), 1);
    assert_eq!(oldest.rank(&b, &a), -1);
    assert_eq!(oldest.rank(&a, &a), 0);
}
