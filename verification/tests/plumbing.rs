use baryon::http::{cache_expired, last_modified, CacheSettings, Query, RemoteEndpoint};
use baryon::index::{Package, Release};
use baryon::list::{make_parameters, run, ListArgs, Parameters};
use baryon::repository::{Catalog, HTTPRepository, MockRepository, Repository};
use baryon::settings::Settings;
use std::time::{Duration, SystemTime};

fn settings() -> Settings {
    Settings {
        global_repository_path: "~/.baryon/repository".to_string(),
        repository_url: "https://example.com/repo.json".to_string(),
        cache_settings: CacheSettings {
            cache_path: "~/.baryon/cache".to_string(),
            cache_timeout: Duration::new(60, 0),
        },
    }
}

fn package(name: &str) -> Package {
    Package {
        name: name.to_string(),
        releases: vec![Release { version: "1.0.0".to_string(), dependencies: Vec::new() }],
    }
}

#[test]
fn endpoint_starts_without_a_cache() {
    let s = settings();
    let query = Query {
        url: "https://example.com".to_string(),
        method: "GET".to_string(),
        headers: vec![("Accept".to_string(), "application/json".to_string())],
    };
    let mut endpoint: RemoteEndpoint<u32> = RemoteEndpoint::new(&s.cache_settings, query);
    assert_eq!(endpoint.query.url, "https://example.com");
    assert_eq!(endpoint.query.method, "GET");
    assert_eq!(endpoint.query.headers.len(), 1);
    assert_eq!(endpoint.cache_path, "~/.baryon/cache");
    assert_eq!(endpoint.cache_timeout, Duration::new(60, 0));
    assert!(endpoint.cached().is_none());
    endpoint.store(7, SystemTime::UNIX_EPOCH);
    assert_eq!(endpoint.cached(), Some(&7));
    assert_eq!(endpoint.cache.as_ref().unwrap().time, SystemTime::UNIX_EPOCH);
    endpoint.store(8, SystemTime::UNIX_EPOCH);
    assert_eq!(endpoint.cached(), Some(&8));
    endpoint.clear();
    assert!(endpoint.cached().is_none());
    assert_eq!(endpoint.cache_path, "~/.baryon/cache");
}

#[test]
fn http_repository_starts_empty() {
    let repo = HTTPRepository::new(&settings());
    assert_eq!(repo.repo_endpoint.query.url, "https://example.com/repo.json");
    assert_eq!(repo.repo_endpoint.query.method, "POST");
    assert!(repo.repo_endpoint.query.headers.is_empty());
    assert_eq!(repo.repo_endpoint.cache_path, "~/.baryon/cache");
    assert_eq!(repo.repo_endpoint.cache_timeout, Duration::new(60, 0));
    assert!(repo.repo_endpoint.cache.is_none());
    assert!(repo.get_packages().is_empty());
    assert!(repo.get_package("package1").is_none());
}

#[test]
fn mock_repository_holds_its_packages() {
    let repo = MockRepository::from_packages(vec![
        package("package1"),
        package("package2"),
        package("package3"),
    ]);
    let names: Vec<&str> = repo.get_packages().iter().map(|p| p.name.as_str()).collect();
    assert_eq!(names, vec!["package1", "package2", "package3"]);
    assert_eq!(repo.get_package("package3").unwrap().name, "package3");
    assert!(repo.get_package("package4").is_none());
}

#[test]
fn catalog_finds_the_first_of_a_name() {
    let mut second = package("twice");
    second.releases.clear();
    let catalog = Catalog { packages: vec![package("once"), package("twice"), second] };
    assert_eq!(catalog.get("twice").unwrap().releases.len(), 1);
    assert_eq!(catalog.all().len(), 3);
    assert!(Catalog::new().all().is_empty());
    assert!(Catalog::new().get("once").is_none());
}

#[test]
fn list_runs() {
    let parameters = Parameters {
        repository_path: "path".to_string(),
        repository_url: "url".to_string(),
    };
    assert!(run(&parameters).is_ok());
}

#[test]
fn arguments_override_settings() {
    let s = settings();
    let none = ListArgs { repository_path: None, repository_url: None };
    let p = make_parameters(none, &s);
    assert_eq!(p.repository_path, "~/.baryon/repository");
    assert_eq!(p.repository_url, "https://example.com/repo.json");
    let both = ListArgs {
        repository_path: Some("here".to_string()),
        repository_url: Some("there".to_string()),
    };
    let p = make_parameters(both, &s);
    assert_eq!(p.repository_path, "here");
    assert_eq!(p.repository_url, "there");
    let one = ListArgs { repository_path: Some("here".to_string()), repository_url: None };
    let p = make_parameters(one, &s);
    assert_eq!(p.repository_path, "here");
    assert_eq!(p.repository_url, "https://example.com/repo.json");
}

#[test]
fn last_modified_reads_seconds() {
    assert_eq!(last_modified(Some("1700000000")), Some(1700000000));
    assert_eq!(last_modified(Some("0")), Some(0));
    assert_eq!(last_modified(Some("+5")), Some(5));
    assert_eq!(last_modified(Some("9223372036854775807")), Some(9223372036854775807));
    assert_eq!(last_modified(Some("-1")), Some(u64::MAX));
    assert_eq!(last_modified(Some("-9223372036854775808")), Some(9223372036854775808));
    assert_eq!(last_modified(Some("Wed, 21 Oct 2015 07:28:00 GMT")), None);
    assert_eq!(last_modified(Some("")), None);
    assert_eq!(last_modified(Some("9223372036854775808")), None);
    assert_eq!(last_modified(None), None);
}

#[test]
fn cache_expires_after_the_timeout() {
    assert!(cache_expired(None, 60));
    assert!(cache_expired(Some(61), 60));
    assert!(!cache_expired(Some(60), 60));
    assert!(!cache_expired(Some(0), 60));
    assert!(cache_expired(Some(1), 0));
    assert!(!cache_expired(Some(0), 0));
}
