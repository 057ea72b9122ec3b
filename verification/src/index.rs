//! The package index: every known release of every package, with its
//! dependencies. It is built once from a catalog's package descriptors and
//! only read afterwards.

use vstd::prelude::*;
use crate::lookup::{distinct, lemma_lookup_found, lemma_put_distinct, lookup};
use crate::requirement::{
    check_requirement, valid_requirement, ChainLink, LinkView, PackageRequirement, PackageVersion,
    PackageVersionView, RequirementView,
};
use crate::version::{parsed_version, ErrorView, ParseError, Version, VersionView};
use crate::views::{lemma_views_push, lemma_views_update, views};

verus! {

/// A dependency as a catalog states it: a package name and a range, as text.
#[derive(Debug)]
pub struct Dependency {
    pub name: String,
    pub spec: String,
}

impl View for Dependency {
    type V = LinkView;

    open spec fn view(&self) -> LinkView {
        LinkView { name: self.name@, spec: self.spec@ }
    }
}

/// A release as a catalog states it: its version, as text, and its
/// dependencies in the catalog's order.
#[derive(Debug)]
pub struct Release {
    pub version: String,
    pub dependencies: Vec<Dependency>,
}

/// The mathematical value of a [`Release`].
pub struct ReleaseDescView {
    pub version: Seq<char>,
    pub dependencies: Seq<LinkView>,
}

impl View for Release {
    type V = ReleaseDescView;

    open spec fn view(&self) -> ReleaseDescView {
        ReleaseDescView { version: self.version@, dependencies: views(self.dependencies@) }
    }
}

/// A package as a catalog states it: its name and its releases.
#[derive(Debug)]
pub struct Package {
    pub name: String,
    pub releases: Vec<Release>,
}

/// The mathematical value of a [`Package`].
pub struct PackageDescView {
    pub name: Seq<char>,
    pub releases: Seq<ReleaseDescView>,
}

impl View for Package {
    type V = PackageDescView;

    open spec fn view(&self) -> PackageDescView {
        PackageDescView { name: self.name@, releases: views(self.releases@) }
    }
}

/// A release in the index: a parsed version and the requirements it brings.
#[derive(Debug)]
pub struct ReleaseEntry {
    pub version: Version,
    pub dependencies: Vec<ChainLink>,
}

/// The mathematical value of a [`ReleaseEntry`].
pub struct ReleaseView {
    pub version: VersionView,
    pub dependencies: Seq<LinkView>,
}

impl View for ReleaseEntry {
    type V = ReleaseView;

    open spec fn view(&self) -> ReleaseView {
        ReleaseView { version: self.version@, dependencies: views(self.dependencies@) }
    }
}

/// A package in the index: its name and its releases.
#[derive(Debug)]
pub struct PackageEntry {
    pub name: String,
    pub releases: Vec<ReleaseEntry>,
}

/// The mathematical value of a [`PackageEntry`].
pub struct PackageView {
    pub name: Seq<char>,
    pub releases: Seq<ReleaseView>,
}

/// The versions of a list of releases, in order.
pub open spec fn release_versions(releases: Seq<ReleaseView>) -> Seq<VersionView> {
    Seq::new(releases.len(), |j: int| releases[j].version)
}

impl PackageView {
    /// The versions of the package's releases, in the index's order.
    pub open spec fn versions(self) -> Seq<VersionView> {
        release_versions(self.releases)
    }
}

impl View for PackageEntry {
    type V = PackageView;

    open spec fn view(&self) -> PackageView {
        PackageView { name: self.name@, releases: views(self.releases@) }
    }
}

/// The package index.
#[derive(Debug)]
pub struct Repository {
    pub data: Vec<PackageEntry>,
}

/// The mathematical value of a [`Repository`]: its packages in order. A
/// package is found under the first entry that bears its name, a release
/// under the first entry of that package that bears its version.
pub struct IndexView {
    pub packages: Seq<PackageView>,
}

/// A candidate for a package: one of its versions, with an empty chain.
pub open spec fn candidate(name: Seq<char>, version: VersionView) -> PackageVersionView {
    PackageVersionView { name, version, required_by: Seq::empty() }
}

/// A dependency as a requirement whose chain is still to be filled in.
pub open spec fn template(dep: LinkView) -> RequirementView {
    RequirementView { name: dep.name, spec: dep.spec, required_by: Seq::empty() }
}

impl IndexView {
    /// The names of the packages, in the index's order.
    pub open spec fn names(self) -> Seq<Seq<char>> {
        Seq::new(self.packages.len(), |i: int| self.packages[i].name)
    }

    /// All known versions of a package, in the index's order; none for an
    /// unknown name.
    pub open spec fn versions_of(self, name: Seq<char>) -> Seq<VersionView> {
        match lookup(self.names(), name) {
            Some(i) => self.packages[i].versions(),
            None => Seq::empty(),
        }
    }

    /// The dependencies of one release, in the catalog's order; none for an
    /// unknown name or version.
    pub open spec fn dependencies_of(self, name: Seq<char>, version: VersionView) -> Seq<
        LinkView,
    > {
        match lookup(self.names(), name) {
            Some(i) => match lookup(self.packages[i].versions(), version) {
                Some(j) => self.packages[i].releases[j].dependencies,
                None => Seq::empty(),
            },
            None => Seq::empty(),
        }
    }

    /// The candidates for a package: its versions under its name.
    pub open spec fn candidates_of(self, name: Seq<char>) -> Seq<PackageVersionView> {
        let versions = self.versions_of(name);
        Seq::new(versions.len(), |j: int| candidate(name, versions[j]))
    }

    /// No package occurs twice, and no version twice among the releases of
    /// one package.
    pub open spec fn unique(self) -> bool {
        &&& distinct(self.names())
        &&& forall|i: int|
            0 <= i < self.packages.len() ==> distinct((#[trigger] self.packages[i]).versions())
    }

    /// The most releases that any one package has.
    pub open spec fn widest(self) -> nat
        decreases self.packages.len(),
    {
        if self.packages.len() == 0 {
            0
        } else {
            let rest = (IndexView { packages: self.packages.drop_last() }).widest();
            if self.packages.last().releases.len() > rest {
                self.packages.last().releases.len()
            } else {
                rest
            }
        }
    }

    /// No package has more releases than `widest`.
    pub proof fn lemma_widest(self, i: int)
        requires
            0 <= i < self.packages.len(),
        ensures
            self.packages[i].releases.len() <= self.widest(),
        decreases self.packages.len(),
    {
        if i < self.packages.len() - 1 {
            let rest = IndexView { packages: self.packages.drop_last() };
            rest.lemma_widest(i);
        }
    }

    /// No package has more versions than `widest`.
    pub proof fn lemma_versions_bounded(self, name: Seq<char>)
        ensures
            self.versions_of(name).len() <= self.widest(),
            self.candidates_of(name).len() <= self.widest(),
    {
        match lookup(self.names(), name) {
            Some(i) => {
                self.lemma_widest(i);
            },
            None => {},
        }
    }
}

/// The index entry that one release descriptor gives: its version parsed,
/// its dependencies kept where each range is valid. The first text that does
/// not parse is the error: the version before the dependencies, those in order.
pub open spec fn read_release(d: ReleaseDescView) -> Result<ReleaseView, ErrorView> {
    match parsed_version(d.version) {
        None => Err(ErrorView::InvalidVersion(d.version)),
        Some(version) => match first_invalid(d.dependencies) {
            Some(k) => Err(ErrorView::InvalidRequirement(d.dependencies[k].spec)),
            None => Ok(ReleaseView { version, dependencies: d.dependencies }),
        },
    }
}

/// The first dependency whose range is no range expression, if any.
pub open spec fn first_invalid(deps: Seq<LinkView>) -> Option<int> {
    if exists|k: int| is_first_invalid(deps, k) {
        Some(choose|k: int| is_first_invalid(deps, k))
    } else {
        None
    }
}

/// `k` is the first dependency whose range is no range expression.
pub open spec fn is_first_invalid(deps: Seq<LinkView>, k: int) -> bool {
    &&& 0 <= k < deps.len()
    &&& !valid_requirement(deps[k].spec)
    &&& forall|j: int| 0 <= j < k ==> valid_requirement(#[trigger] deps[j].spec)
}

/// A release put into a package's releases: in the place of the first
/// release of the same version, or at the end.
pub open spec fn put_release(releases: Seq<ReleaseView>, release: ReleaseView) -> Seq<
    ReleaseView,
> {
    match lookup(release_versions(releases), release.version) {
        Some(j) => releases.update(j, release),
        None => releases.push(release),
    }
}

/// The releases that a package's descriptors give, read in order, a later
/// release replacing an earlier one of the same version.
pub open spec fn read_releases(ds: Seq<ReleaseDescView>) -> Result<Seq<ReleaseView>, ErrorView>
    decreases ds.len(),
{
    if ds.len() == 0 {
        Ok(Seq::empty())
    } else {
        match read_releases(ds.drop_last()) {
            Err(e) => Err(e),
            Ok(releases) => match read_release(ds.last()) {
                Err(e) => Err(e),
                Ok(release) => Ok(put_release(releases, release)),
            },
        }
    }
}

/// A package put into the index: in the place of the first package of the
/// same name, or at the end.
pub open spec fn put_package(index: IndexView, package: PackageView) -> IndexView {
    match lookup(index.names(), package.name) {
        Some(i) => IndexView { packages: index.packages.update(i, package) },
        None => IndexView { packages: index.packages.push(package) },
    }
}

/// The index that a catalog's packages give, read in order, a later package
/// replacing an earlier one of the same name. The first text that does not
/// parse is the error.
pub open spec fn read_catalog(ps: Seq<PackageDescView>) -> Result<IndexView, ErrorView>
    decreases ps.len(),
{
    if ps.len() == 0 {
        Ok(IndexView { packages: Seq::empty() })
    } else {
        match read_catalog(ps.drop_last()) {
            Err(e) => Err(e),
            Ok(index) => match read_releases(ps.last().releases) {
                Err(e) => Err(e),
                Ok(releases) => Ok(put_package(index, PackageView { name: ps.last().name, releases })),
            },
        }
    }
}

/// Releases read from descriptors hold no version twice.
pub proof fn lemma_read_releases_unique(ds: Seq<ReleaseDescView>)
    ensures
        read_releases(ds) matches Ok(releases) ==> distinct(
            release_versions(releases),
        ),
    decreases ds.len(),
{
    if ds.len() > 0 {
        lemma_read_releases_unique(ds.drop_last());
        if let Ok(releases) = read_releases(ds.drop_last()) {
            if let Ok(release) = read_release(ds.last()) {
                let before = release_versions(releases);
                let after = release_versions(put_release(releases, release));
                lemma_put_distinct(before, release.version);
                match lookup(before, release.version) {
                    Some(j) => {
                        assert(after =~= before.update(j, release.version));
                    },
                    None => {
                        assert(after =~= before.push(release.version));
                    },
                }
            }
        }
    }
}

/// An index read from a catalog holds no package twice, and no version
/// twice among the releases of one package.
pub proof fn lemma_read_catalog_unique(ps: Seq<PackageDescView>)
    ensures
        read_catalog(ps) matches Ok(index) ==> index.unique(),
    decreases ps.len(),
{
    if ps.len() > 0 {
        lemma_read_catalog_unique(ps.drop_last());
        if let Ok(index) = read_catalog(ps.drop_last()) {
            if let Ok(releases) = read_releases(ps.last().releases) {
                lemma_read_releases_unique(ps.last().releases);
                let package = PackageView { name: ps.last().name, releases };
                let after = put_package(index, package);
                lemma_put_distinct(index.names(), package.name);
                match lookup(index.names(), package.name) {
                    Some(i) => {
                        assert(after.names() =~= index.names().update(i, package.name));
                    },
                    None => {
                        assert(after.names() =~= index.names().push(package.name));
                    },
                }
            }
        }
    }
}

/// The names of a catalog's packages, in order.
pub open spec fn catalog_names(ps: Seq<PackageDescView>) -> Seq<Seq<char>> {
    Seq::new(ps.len(), |i: int| ps[i].name)
}

/// The versions that a package's release descriptors parse to, in order;
/// meant for descriptors that all parse.
pub open spec fn parsed_versions(ds: Seq<ReleaseDescView>) -> Seq<VersionView> {
    Seq::new(ds.len(), |j: int| parsed_version(ds[j].version)->Some_0)
}

/// Releases whose versions differ are read one for one: the index holds
/// each descriptor's release at the descriptor's place.
pub proof fn lemma_read_releases_faithful(ds: Seq<ReleaseDescView>)
    requires
        read_releases(ds) is Ok,
        distinct(parsed_versions(ds)),
    ensures
        read_releases(ds)->Ok_0.len() == ds.len(),
        forall|j: int|
            0 <= j < ds.len() ==> read_release(#[trigger] ds[j]) == Ok::<ReleaseView, ErrorView>(
                read_releases(ds)->Ok_0[j],
            ),
    decreases ds.len(),
{
    if ds.len() > 0 {
        let front = ds.drop_last();
        assert(distinct(parsed_versions(front))) by {
            assert forall|i: int, j: int| 0 <= i < j < front.len() implies parsed_versions(
                front,
            )[i] != parsed_versions(front)[j] by {
                assert(parsed_versions(ds)[i] != parsed_versions(ds)[j]);
            }
        }
        lemma_read_releases_faithful(front);
        let releases = read_releases(front)->Ok_0;
        let release = read_release(ds.last())->Ok_0;
        let versions = release_versions(releases);
        assert forall|j: int| 0 <= j < versions.len() implies versions[j] != release.version by {
            assert(read_release(front[j]) == Ok::<ReleaseView, ErrorView>(releases[j]));
            assert(parsed_versions(ds)[j] != parsed_versions(ds)[ds.len() - 1]);
        }
        let all = read_releases(ds)->Ok_0;
        assert forall|j: int| 0 <= j < ds.len() implies read_release(#[trigger] ds[j]) == Ok::<
            ReleaseView,
            ErrorView,
        >(all[j]) by {
            if j < front.len() {
                assert(front[j] == ds[j]);
            }
        }
    }
}

/// A catalog whose package names differ is read one for one: the index
/// holds each package at its place in the catalog, with the releases that
/// its descriptors give.
pub proof fn lemma_read_catalog_faithful(ps: Seq<PackageDescView>)
    requires
        read_catalog(ps) is Ok,
        distinct(catalog_names(ps)),
    ensures
        read_catalog(ps)->Ok_0.names() == catalog_names(ps),
        forall|i: int|
            0 <= i < ps.len() ==> read_releases((#[trigger] ps[i]).releases) == Ok::<
                Seq<ReleaseView>,
                ErrorView,
            >(read_catalog(ps)->Ok_0.packages[i].releases),
    decreases ps.len(),
{
    if ps.len() > 0 {
        let front = ps.drop_last();
        assert(distinct(catalog_names(front))) by {
            assert forall|i: int, j: int| 0 <= i < j < front.len() implies catalog_names(
                front,
            )[i] != catalog_names(front)[j] by {
                assert(catalog_names(ps)[i] != catalog_names(ps)[j]);
            }
        }
        lemma_read_catalog_faithful(front);
        let index = read_catalog(front)->Ok_0;
        let name = ps.last().name;
        assert forall|i: int| 0 <= i < index.names().len() implies index.names()[i] != name by {
            assert(catalog_names(ps)[i] != catalog_names(ps)[ps.len() - 1]);
        }
        let releases = read_releases(ps.last().releases)->Ok_0;
        assert(read_catalog(ps)->Ok_0.names() =~= catalog_names(front).push(name));
        assert forall|i: int| 0 <= i < ps.len() implies read_releases(
            (#[trigger] ps[i]).releases,
        ) == Ok::<Seq<ReleaseView>, ErrorView>(read_catalog(ps)->Ok_0.packages[i].releases) by {
            if i < front.len() {
                assert(front[i] == ps[i]);
            }
        }
    }
}

impl View for Repository {
    type V = IndexView;

    open spec fn view(&self) -> IndexView {
        IndexView { packages: views(self.data@) }
    }
}

/// The requirements that a release's dependencies stand for, chains empty.
pub open spec fn templates(deps: Seq<LinkView>) -> Seq<RequirementView> {
    Seq::new(deps.len(), |k: int| template(deps[k]))
}

/// Once a prefix of the descriptors has failed, the whole fails alike.
pub proof fn lemma_read_releases_sticky(ds: Seq<ReleaseDescView>, i: int)
    requires
        0 <= i <= ds.len(),
        read_releases(ds.take(i)) is Err,
    ensures
        read_releases(ds) == read_releases(ds.take(i)),
    decreases ds.len(),
{
    if i == ds.len() {
        assert(ds.take(i) =~= ds);
    } else {
        assert(ds.drop_last().take(i) =~= ds.take(i));
        lemma_read_releases_sticky(ds.drop_last(), i);
    }
}

/// Once a prefix of the catalog has failed, the whole fails alike.
pub proof fn lemma_read_catalog_sticky(ps: Seq<PackageDescView>, i: int)
    requires
        0 <= i <= ps.len(),
        read_catalog(ps.take(i)) is Err,
    ensures
        read_catalog(ps) == read_catalog(ps.take(i)),
    decreases ps.len(),
{
    if i == ps.len() {
        assert(ps.take(i) =~= ps);
    } else {
        assert(ps.drop_last().take(i) =~= ps.take(i));
        lemma_read_catalog_sticky(ps.drop_last(), i);
    }
}

/// Reads one release descriptor into an index entry.
pub fn read_release_entry(d: &Release) -> (r: Result<ReleaseEntry, ParseError>)
    ensures
        match r {
            Ok(entry) => read_release(d@) == Ok::<ReleaseView, ErrorView>(entry@),
            Err(e) => read_release(d@) == Err::<ReleaseView, ErrorView>(e@),
        },
{
    let version = match Version::parse(d.version.as_str()) {
        Ok(v) => v,
        Err(e) => {
            return Err(e);
        },
    };
    let ghost deps = views(d.dependencies@);
    let mut dependencies: Vec<ChainLink> = Vec::new();
    let mut k: usize = 0;
    while k < d.dependencies.len()
        invariant
            k <= d.dependencies.len(),
            deps == views(d.dependencies@),
            parsed_version(d.version@) == Some(version@),
            dependencies.len() == k,
            forall|j: int| 0 <= j < k ==> valid_requirement(#[trigger] deps[j].spec),
            forall|j: int| 0 <= j < k ==> dependencies[j]@ == deps[j],
        decreases d.dependencies.len() - k,
    {
        let dep = &d.dependencies[k];
        match check_requirement(dep.spec.as_str()) {
            Ok(_) => {},
            Err(_) => {
                proof {
                    assert(is_first_invalid(deps, k as int));
                    let c = choose|c: int| is_first_invalid(deps, c);
                    assert(c == k);
                }
                return Err(ParseError::InvalidRequirement(dep.spec.clone()));
            },
        }
        dependencies.push(ChainLink { name: dep.name.clone(), spec: dep.spec.clone() });
        k += 1;
    }
    proof {
        assert(views(dependencies@) =~= deps);
        assert(first_invalid(deps) is None) by {
            if exists|c: int| is_first_invalid(deps, c) {
                let c = choose|c: int| is_first_invalid(deps, c);
                assert(valid_requirement(deps[c].spec));
            }
        }
    }
    Ok(ReleaseEntry { version, dependencies })
}

/// Where in a package's releases a version is first found.
pub fn find_release(releases: &Vec<ReleaseEntry>, version: &Version) -> (r: Option<usize>)
    ensures
        match r {
            Some(j) => j < releases.len() && lookup(
                release_versions(views(releases@)),
                version@,
            ) == Some(j as int),
            None => lookup(
                release_versions(views(releases@)),
                version@,
            ) is None,
        },
{
    let ghost versions = release_versions(views(releases@));
    let mut j: usize = 0;
    while j < releases.len()
        invariant
            j <= releases.len(),
            versions == release_versions(views(releases@)),
            forall|k: int| 0 <= k < j ==> versions[k] != version@,
        decreases releases.len() - j,
    {
        if releases[j].version.same_as(version) {
            proof {
                lemma_lookup_found(versions, version@, j as int);
            }
            return Some(j);
        }
        j += 1;
    }
    None
}

/// Puts a release into a package's releases: in the place of the first
/// release of the same version, or at the end.
pub fn add_release(releases: &mut Vec<ReleaseEntry>, release: ReleaseEntry)
    ensures
        views(final(releases)@) == put_release(views(old(releases)@), release@),
{
    match find_release(releases, &release.version) {
        Some(j) => {
            releases.set(j, release);
        },
        None => {
            releases.push(release);
        },
    }
}

/// Reads a package's release descriptors in order.
pub fn read_release_entries(ds: &Vec<Release>) -> (r: Result<Vec<ReleaseEntry>, ParseError>)
    ensures
        match r {
            Ok(entries) => read_releases(views(ds@)) == Ok::<Seq<ReleaseView>, ErrorView>(
                views(entries@),
            ),
            Err(e) => read_releases(views(ds@)) == Err::<Seq<ReleaseView>, ErrorView>(e@),
        },
{
    let ghost all = views(ds@);
    let mut releases: Vec<ReleaseEntry> = Vec::new();
    let mut i: usize = 0;
    proof {
        assert(views(releases@) =~= Seq::<ReleaseView>::empty());
    }
    while i < ds.len()
        invariant
            i <= ds.len(),
            all == views(ds@),
            read_releases(all.take(i as int)) == Ok::<Seq<ReleaseView>, ErrorView>(
                views(releases@),
            ),
        decreases ds.len() - i,
    {
        proof {
            assert(all.take(i + 1).drop_last() =~= all.take(i as int));
        }
        match read_release_entry(&ds[i]) {
            Ok(entry) => {
                add_release(&mut releases, entry);
            },
            Err(e) => {
                proof {
                    lemma_read_releases_sticky(all, i + 1);
                }
                return Err(e);
            },
        }
        i += 1;
    }
    proof {
        assert(all.take(ds.len() as int) =~= all);
    }
    Ok(releases)
}

impl Repository {
    /// Builds the index from a catalog's packages, read in order. A later
    /// package replaces an earlier one of the same name, a later release an
    /// earlier one of the same version. The first version or range that does
    /// not parse ends the construction and is handed back.
    pub fn new(repo: Vec<&Package>) -> (r: Result<Self, ParseError>)
        ensures
            match r {
                Ok(index) => read_catalog(views(repo@)) == Ok::<IndexView, ErrorView>(index@)
                    && index@.unique(),
                Err(e) => read_catalog(views(repo@)) == Err::<IndexView, ErrorView>(e@),
            },
    {
        let ghost all = views(repo@);
        let mut index = Repository { data: Vec::new() };
        let mut i: usize = 0;
        proof {
            assert(views(index.data@) =~= Seq::<PackageView>::empty());
        }
        while i < repo.len()
            invariant
                i <= repo.len(),
                all == views(repo@),
                read_catalog(all.take(i as int)) == Ok::<IndexView, ErrorView>(index@),
            decreases repo.len() - i,
        {
            proof {
                assert(all.take(i + 1).drop_last() =~= all.take(i as int));
            }
            let package: &Package = repo[i];
            match read_release_entries(&package.releases) {
                Ok(releases) => {
                    index.add_package(PackageEntry { name: package.name.clone(), releases });
                },
                Err(e) => {
                    proof {
                        lemma_read_catalog_sticky(all, i + 1);
                    }
                    return Err(e);
                },
            }
            i += 1;
        }
        proof {
            assert(all.take(repo.len() as int) =~= all);
            lemma_read_catalog_unique(all);
        }
        Ok(index)
    }

    /// Where in the index a package name is first found.
    pub fn find_package(&self, name: &String) -> (r: Option<usize>)
        ensures
            match r {
                Some(i) => i < self.data.len() && lookup(self@.names(), name@) == Some(i as int),
                None => lookup(self@.names(), name@) is None,
            },
    {
        let mut i: usize = 0;
        while i < self.data.len()
            invariant
                i <= self.data.len(),
                forall|k: int| 0 <= k < i ==> self@.names()[k] != name@,
            decreases self.data.len() - i,
        {
            if self.data[i].name == *name {
                proof {
                    lemma_lookup_found(self@.names(), name@, i as int);
                }
                return Some(i);
            }
            i += 1;
        }
        None
    }

    /// Puts a package into the index: in the place of the first package of
    /// the same name, or at the end.
    pub fn add_package(&mut self, package: PackageEntry)
        ensures
            final(self)@ == put_package(old(self)@, package@),
    {
        let ghost before = self.data@;
        match self.find_package(&package.name) {
            Some(i) => {
                self.data.set(i, package);
                proof {
                    lemma_views_update(before, i as int, package);
                }
            },
            None => {
                self.data.push(package);
                proof {
                    lemma_views_push(before, package);
                }
            },
        }
    }

    /// All known versions of a package as candidates, in the index's order;
    /// none for an unknown name.
    pub fn get_versions(&self, package: &str) -> (r: Vec<PackageVersion>)
        ensures
            views(r@) == self@.candidates_of(package@),
    {
        let name = package.to_owned();
        let mut out: Vec<PackageVersion> = Vec::new();
        match self.find_package(&name) {
            None => {},
            Some(i) => {
                let releases = &self.data[i].releases;
                let ghost versions = self@.versions_of(package@);
                let mut j: usize = 0;
                while j < releases.len()
                    invariant
                        j <= releases.len(),
                        name@ == package@,
                        versions.len() == releases.len(),
                        forall|k: int| 0 <= k < releases.len() ==> versions[k] == releases[k].version@,
                        out.len() == j,
                        forall|k: int| 0 <= k < j ==> out[k]@ == candidate(package@, versions[k]),
                    decreases releases.len() - j,
                {
                    let c = PackageVersion {
                        name: name.clone(),
                        version: releases[j].version.clone(),
                        required_by: Vec::new(),
                    };
                    proof {
                        assert(views(c.required_by@) =~= Seq::<LinkView>::empty());
                    }
                    out.push(c);
                    j += 1;
                }
            },
        }
        out
    }

    /// The dependencies of one release as requirements with empty chains, in
    /// the catalog's order; none for an unknown name or version.
    pub fn get_dependencies(&self, package_version: &PackageVersion) -> (r: Vec<
        PackageRequirement,
    >)
        ensures
            views(r@) == templates(
                self@.dependencies_of(package_version@.name, package_version@.version),
            ),
    {
        let mut out: Vec<PackageRequirement> = Vec::new();
        let ghost deps = self@.dependencies_of(package_version@.name, package_version@.version);
        match self.find_package(&package_version.name) {
            None => {},
            Some(i) => {
                let releases = &self.data[i].releases;
                match find_release(releases, &package_version.version) {
                    None => {},
                    Some(j) => {
                        let links = &releases[j].dependencies;
                        let mut k: usize = 0;
                        while k < links.len()
                            invariant
                                k <= links.len(),
                                deps == views(links@),
                                out.len() == k,
                                forall|n: int| 0 <= n < k ==> out[n]@ == template(deps[n]),
                            decreases links.len() - k,
                        {
                            let q = PackageRequirement {
                                name: links[k].name.clone(),
                                spec: links[k].spec.clone(),
                                required_by: Vec::new(),
                            };
                            proof {
                                assert(views(q.required_by@) =~= Seq::<LinkView>::empty());
                            }
                            out.push(q);
                            k += 1;
                        }
                    },
                }
            },
        }
        out
    }
}

} // verus!
