//! Sources of package descriptors: the catalog, and the repositories that
//! hold one.

use vstd::prelude::*;
use crate::http::{Query, RemoteEndpoint};
use crate::index::{catalog_names, Package, PackageDescView};
use crate::lookup::{lemma_lookup_found, lookup};
use crate::settings::Settings;
use crate::views::views;

verus! {

/// A catalog: the descriptors of the packages of a repository.
pub struct Catalog {
    pub packages: Vec<Package>,
}

impl View for Catalog {
    type V = Seq<PackageDescView>;

    open spec fn view(&self) -> Seq<PackageDescView> {
        views(self.packages@)
    }
}

impl Catalog {
    /// A catalog without packages.
    pub fn new() -> (r: Self)
        ensures
            r@ == Seq::<PackageDescView>::empty(),
    {
        let r = Catalog { packages: Vec::new() };
        r
    }

    /// The first package of a name, if there is one.
    pub fn get(&self, package_name: &str) -> (r: Option<&Package>)
        ensures
            match lookup(catalog_names(self@), package_name@) {
                Some(i) => r matches Some(p) && p@ == self@[i],
                None => r is None,
            },
    {
        let name = package_name.to_owned();
        let ghost names = catalog_names(self@);
        let mut i: usize = 0;
        while i < self.packages.len()
            invariant
                i <= self.packages.len(),
                name@ == package_name@,
                names == catalog_names(self@),
                forall|j: int| 0 <= j < i ==> names[j] != name@,
            decreases self.packages.len() - i,
        {
            if self.packages[i].name == name {
                proof {
                    lemma_lookup_found(names, name@, i as int);
                }
                return Some(&self.packages[i]);
            }
            i += 1;
        }
        None
    }

    /// All packages, in the catalog's order.
    pub fn all(&self) -> (r: Vec<&Package>)
        ensures
            views(r@) == self@,
    {
        let mut out: Vec<&Package> = Vec::new();
        let mut i: usize = 0;
        while i < self.packages.len()
            invariant
                i <= self.packages.len(),
                out.len() == i,
                forall|j: int| 0 <= j < i ==> out[j]@ == self.packages[j]@,
            decreases self.packages.len() - i,
        {
            out.push(&self.packages[i]);
            i += 1;
        }
        out
    }
}

/// A source of package descriptors.
pub trait Repository {
    /// The descriptors that the repository holds, in its order.
    spec fn catalog(&self) -> Seq<PackageDescView>;

    /// All packages, in the repository's order.
    fn get_packages(&self) -> (r: Vec<&Package>)
        ensures
            views(r@) == self.catalog(),
    ;

    /// The first package of a name, if there is one.
    fn get_package(&self, package_name: &str) -> (r: Option<&Package>)
        ensures
            match lookup(catalog_names(self.catalog()), package_name@) {
                Some(i) => r matches Some(p) && p@ == self.catalog()[i],
                None => r is None,
            },
    ;
}

/// A repository behind a remote endpoint: the endpoint, and the catalog as
/// last fetched.
pub struct HTTPRepository {
    pub repo_endpoint: RemoteEndpoint<Catalog>,
    pub desc: Catalog,
}

impl HTTPRepository {
    /// A repository that posts to the settings' repository URL, without
    /// headers, caches as the settings say, and holds an empty catalog
    /// until one is fetched.
    pub fn new(settings: &Settings) -> (r: Self)
        ensures
            r.repo_endpoint.query.url@ == settings.repository_url@,
            r.repo_endpoint.query.method@ == "POST"@,
            r.repo_endpoint.query.headers@.len() == 0,
            r.repo_endpoint.cache_path@ == settings.cache_settings.cache_path@,
            r.repo_endpoint.cache_timeout == settings.cache_settings.cache_timeout,
            r.repo_endpoint.cache is None,
            r.desc@ == Seq::<PackageDescView>::empty(),
    {
        let repo_endpoint = RemoteEndpoint::new(
            &settings.cache_settings,
            Query {
                url: settings.repository_url.clone(),
                method: "POST".to_owned(),
                headers: Vec::new(),
            },
        );
        Self { repo_endpoint, desc: Catalog::new() }
    }
}

impl Repository for HTTPRepository {
    open spec fn catalog(&self) -> Seq<PackageDescView> {
        self.desc@
    }

    fn get_package(&self, package_name: &str) -> (r: Option<&Package>) {
        self.desc.get(package_name)
    }

    fn get_packages(&self) -> (r: Vec<&Package>) {
        self.desc.all()
    }
}

/// A repository that holds a catalog given to it.
pub struct MockRepository {
    pub packages: Catalog,
}

impl MockRepository {
    /// A repository that holds the given packages.
    pub fn from_packages(packages: Vec<Package>) -> (r: Self)
        ensures
            r.catalog() == views(packages@),
    {
        MockRepository { packages: Catalog { packages } }
    }
}

impl Repository for MockRepository {
    open spec fn catalog(&self) -> Seq<PackageDescView> {
        self.packages@
    }

    fn get_package(&self, package_name: &str) -> (r: Option<&Package>) {
        self.packages.get(package_name)
    }

    fn get_packages(&self) -> (r: Vec<&Package>) {
        self.packages.all()
    }
}

} // verus!
