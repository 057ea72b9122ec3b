//! What a search owes and when it is met: every top-level requirement and
//! every dependency of a selected release is either still pending or met by
//! a selected version.

use vstd::prelude::*;
use crate::index::IndexView;
use crate::lookup::{distinct, lookup};
use crate::requirement::{requirement_matches, LinkView, PackageVersionView, RequirementView};
use crate::search::{brought_in, version_names};
use crate::strategy::Strategy;

verus! {

/// What a resolution is asked: the index, the strategy and the top-level
/// requirements.
pub struct Problem {
    pub index: IndexView,
    pub strategy: Strategy,
    pub initial: Seq<RequirementView>,
}

/// A selected version meets a requirement: it is of the package that the
/// requirement names, and the requirement's range admits it.
pub open spec fn meets(v: PackageVersionView, link: LinkView) -> bool {
    v.name == link.name && requirement_matches(link.spec, v.version)
}

/// A requirement is pending in a stack of requirements.
pub open spec fn pending(queue: Seq<RequirementView>, link: LinkView) -> bool {
    exists|j: int| 0 <= j < queue.len() && #[trigger] queue[j].link() == link
}

/// A requirement is met by one of the selected versions.
pub open spec fn satisfied(selected: Seq<PackageVersionView>, link: LinkView) -> bool {
    exists|k: int| 0 <= k < selected.len() && meets(#[trigger] selected[k], link)
}

impl Problem {
    /// The release of a selected version depends on a requirement.
    pub open spec fn depends(self, v: PackageVersionView, link: LinkView) -> bool {
        self.index.dependencies_of(v.name, v.version).contains(link)
    }

    /// A requirement is one of the top-level requirements.
    pub open spec fn asks(self, link: LinkView) -> bool {
        exists|i: int| 0 <= i < self.initial.len() && #[trigger] self.initial[i].link() == link
    }

    /// A requirement is owed: it is a top-level requirement, or a dependency
    /// of the release of a selected version.
    pub open spec fn owed(self, selected: Seq<PackageVersionView>, link: LinkView) -> bool {
        self.asks(link) || exists|k: int|
            0 <= k < selected.len() && self.depends(#[trigger] selected[k], link)
    }

    /// Every requirement owed is pending or met.
    pub open spec fn closed(
        self,
        queue: Seq<RequirementView>,
        selected: Seq<PackageVersionView>,
    ) -> bool {
        forall|link: LinkView| #[trigger]
            self.owed(selected, link) ==> pending(queue, link) || satisfied(selected, link)
    }

    /// A selected version is a known release that the strategy keeps.
    pub open spec fn known(self, v: PackageVersionView) -> bool {
        &&& lookup(self.index.names(), v.name) is Some
        &&& self.index.versions_of(v.name).contains(v.version)
        &&& self.strategy.keeps(v)
    }

    /// A candidate is on offer for a requirement: a known release of the
    /// requirement's package that the requirement admits and the strategy
    /// keeps.
    pub open spec fn offers(self, req: RequirementView, c: PackageVersionView) -> bool {
        &&& req.admits(c.version)
        &&& self.index.versions_of(req.name).contains(c.version)
        &&& self.strategy.keeps(c)
    }

    /// The selected versions answer the query: no package is selected twice;
    /// every top-level requirement and every dependency of the release of a
    /// selected version is met by a selected version; and every selected
    /// version is a known release that the strategy keeps.
    pub open spec fn answered_by(self, selected: Seq<PackageVersionView>) -> bool {
        &&& distinct(version_names(selected))
        &&& forall|link: LinkView| #[trigger] self.owed(selected, link) ==> satisfied(selected, link)
        &&& forall|k: int| 0 <= k < selected.len() ==> self.known(#[trigger] selected[k])
    }

    /// With nothing selected, the top-level requirements pending are all
    /// that is owed.
    pub proof fn lemma_closed_at_start(self)
        ensures
            self.closed(self.initial, Seq::empty()),
    {
    }

    /// Taking a pending requirement that a selected version meets leaves
    /// every requirement owed pending or met.
    pub proof fn lemma_closed_after_meeting(
        self,
        queue: Seq<RequirementView>,
        selected: Seq<PackageVersionView>,
        k: int,
    )
        requires
            queue.len() > 0,
            self.closed(queue, selected),
            0 <= k < selected.len(),
            meets(selected[k], queue.last().link()),
        ensures
            self.closed(queue.drop_last(), selected),
    {
        let rest = queue.drop_last();
        assert forall|link: LinkView| #[trigger] self.owed(selected, link) implies pending(
            rest,
            link,
        ) || satisfied(selected, link) by {
            if !satisfied(selected, link) {
                let j = choose|j: int| 0 <= j < queue.len() && #[trigger] queue[j].link() == link;
                if j < queue.len() - 1 {
                    assert(rest[j].link() == link);
                }
            }
        }
    }

    /// Selecting a version that a requirement admits, for that requirement,
    /// and putting the release's dependencies on the stack in its place,
    /// leaves every requirement owed pending or met.
    pub proof fn lemma_closed_after_selecting(
        self,
        rest: Seq<RequirementView>,
        req: RequirementView,
        selected: Seq<PackageVersionView>,
        version: crate::version::VersionView,
    )
        requires
            self.closed(rest.push(req), selected),
            req.admits(version),
        ensures
            self.closed(
                rest + brought_in(self.index.dependencies_of(req.name, version), req),
                selected.push(
                    PackageVersionView { name: req.name, version, required_by: req.chain_below() },
                ),
            ),
    {
        let v = PackageVersionView { name: req.name, version, required_by: req.chain_below() };
        let deps = self.index.dependencies_of(req.name, version);
        let queue = rest + brought_in(deps, req);
        let chosen = selected.push(v);
        assert forall|link: LinkView| #[trigger] self.owed(chosen, link) implies pending(
            queue,
            link,
        ) || satisfied(chosen, link) by {
            if self.owed(selected, link) {
                if satisfied(selected, link) {
                    let k = choose|k: int| 0 <= k < selected.len() && meets(#[trigger] selected[k], link);
                    assert(meets(chosen[k], link));
                } else {
                    let before = rest.push(req);
                    let j = choose|j: int| 0 <= j < before.len() && #[trigger] before[j].link() == link;
                    if j == rest.len() {
                        assert(meets(chosen[selected.len() as int], link));
                    } else {
                        assert(queue[j].link() == link);
                    }
                }
            } else {
                let n = choose|n: int| 0 <= n < deps.len() && deps[n] == link;
                assert(queue[rest.len() + n].link() == link);
            }
        }
    }

    /// Soundness: an answer meets every top-level requirement.
    pub proof fn lemma_top_level_met(self, selected: Seq<PackageVersionView>, i: int)
        requires
            self.answered_by(selected),
            0 <= i < self.initial.len(),
        ensures
            exists|k: int|
                0 <= k < selected.len() && meets(#[trigger] selected[k], self.initial[i].link()),
    {
        assert(self.owed(selected, self.initial[i].link()));
    }

    /// Closure: an answer meets every dependency of the release of every
    /// version it selects.
    pub proof fn lemma_dependency_met(self, selected: Seq<PackageVersionView>, k: int, n: int)
        requires
            self.answered_by(selected),
            0 <= k < selected.len(),
            0 <= n < self.index.dependencies_of(selected[k].name, selected[k].version).len(),
        ensures
            exists|m: int|
                0 <= m < selected.len() && meets(
                    #[trigger] selected[m],
                    self.index.dependencies_of(selected[k].name, selected[k].version)[n],
                ),
    {
        let link = self.index.dependencies_of(selected[k].name, selected[k].version)[n];
        assert(self.owed(selected, link));
    }

    /// Single version: an answer selects no package twice.
    pub proof fn lemma_single_version(self, selected: Seq<PackageVersionView>, i: int, j: int)
        requires
            self.answered_by(selected),
            0 <= i < selected.len(),
            0 <= j < selected.len(),
            selected[i].name == selected[j].name,
        ensures
            i == j,
    {
        if i < j {
            assert(version_names(selected)[i] != version_names(selected)[j]);
        }
        if j < i {
            assert(version_names(selected)[j] != version_names(selected)[i]);
        }
    }

    /// Strategy honoring: with pre-releases avoided, an answer selects none.
    pub proof fn lemma_prereleases_avoided(self, selected: Seq<PackageVersionView>, k: int)
        requires
            self.answered_by(selected),
            self.strategy.avoid_prerelease,
            0 <= k < selected.len(),
        ensures
            selected[k].version.pre.len() == 0,
    {
    }
}

} // verus!
