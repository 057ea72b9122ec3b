//! Required-by chains: every chain leads from a top-level requirement down,
//! each step a dependency of the release selected for the step before.

use vstd::prelude::*;
use crate::closure::{meets, Problem};
use crate::lookup::lookup;
use crate::requirement::{LinkView, PackageVersionView, RequirementView};
use crate::search::{
    brought_in, candidates, find_conflict_parent, find_state, lemma_cut_is_prefix, version_names,
    Outcome, Reason, SearchView, Step,
};

verus! {

impl Problem {
    /// Every top-level requirement has an empty chain.
    pub open spec fn top_level(self) -> bool {
        forall|i: int|
            0 <= i < self.initial.len() ==> (#[trigger] self.initial[i]).required_by.len() == 0
    }

    /// A chain is rooted: it is a top-level requirement alone, or its last
    /// step is a dependency of the release of a selected version whose own
    /// chain is the chain before that step.
    pub open spec fn rooted(self, selected: Seq<PackageVersionView>, chain: Seq<LinkView>) -> bool {
        &&& chain.len() >= 1
        &&& chain.len() == 1 ==> self.asks(chain[0])
        &&& chain.len() > 1 ==> exists|k: int|
            0 <= k < selected.len() && (#[trigger] selected[k]).required_by == chain.drop_last()
                && self.depends(selected[k], chain.last())
    }

    /// The chain of a selected version ends in a requirement that the
    /// version meets, and is rooted.
    pub open spec fn well_chained(self, selected: Seq<PackageVersionView>, v: PackageVersionView) -> bool {
        &&& self.rooted(selected, v.required_by)
        &&& meets(v, v.required_by.last())
    }

    /// Every chain is rooted: that of every selected version ends in the
    /// requirement that the version was selected for, and the chain of every
    /// pending requirement, taken with the requirement itself, is rooted too.
    pub open spec fn chained(
        self,
        queue: Seq<RequirementView>,
        selected: Seq<PackageVersionView>,
    ) -> bool {
        &&& forall|k: int|
            0 <= k < selected.len() ==> self.well_chained(selected, #[trigger] selected[k])
        &&& forall|j: int|
            0 <= j < queue.len() ==> self.rooted(selected, (#[trigger] queue[j]).chain_below())
    }

    /// Every chain of a search state is rooted, in the state itself and in
    /// what each choice point remembers, its own requirement taken as
    /// pending.
    pub open spec fn all_chained(self, s: SearchView) -> bool {
        &&& self.chained(s.requirements, s.selected)
        &&& forall|t: int|
            0 <= t < s.states.len() ==> self.chained(
                (#[trigger] s.states[t]).requirements.push(s.states[t].current_requirement),
                s.states[t].selected,
            )
    }

    /// A chain rooted among some selected versions is rooted among more.
    pub proof fn lemma_rooted_grows(
        self,
        selected: Seq<PackageVersionView>,
        v: PackageVersionView,
        chain: Seq<LinkView>,
    )
        requires
            self.rooted(selected, chain),
        ensures
            self.rooted(selected.push(v), chain),
    {
        if chain.len() > 1 {
            let k = choose|k: int|
                0 <= k < selected.len() && (#[trigger] selected[k]).required_by
                    == chain.drop_last() && self.depends(selected[k], chain.last());
            assert(selected.push(v)[k] == selected[k]);
        }
    }

    /// Selecting a version that a requirement admits, for that requirement,
    /// and putting the release's dependencies on the stack in its place,
    /// keeps every chain rooted.
    pub proof fn lemma_chained_after_selecting(
        self,
        rest: Seq<RequirementView>,
        req: RequirementView,
        selected: Seq<PackageVersionView>,
        version: crate::version::VersionView,
    )
        requires
            self.chained(rest.push(req), selected),
            req.admits(version),
        ensures
            self.chained(
                rest + brought_in(self.index.dependencies_of(req.name, version), req),
                selected.push(
                    PackageVersionView { name: req.name, version, required_by: req.chain_below() },
                ),
            ),
    {
        let v = PackageVersionView { name: req.name, version, required_by: req.chain_below() };
        let deps = self.index.dependencies_of(req.name, version);
        let queue = rest + brought_in(deps, req);
        let chosen = selected.push(v);
        let before = rest.push(req);
        assert(self.rooted(selected, before[rest.len() as int].chain_below()));
        assert forall|k: int| 0 <= k < chosen.len() implies self.well_chained(
            chosen,
            #[trigger] chosen[k],
        ) by {
            if k < selected.len() {
                self.lemma_rooted_grows(selected, v, selected[k].required_by);
            } else {
                self.lemma_rooted_grows(selected, v, req.chain_below());
            }
        }
        assert forall|j: int| 0 <= j < queue.len() implies self.rooted(
            chosen,
            (#[trigger] queue[j]).chain_below(),
        ) by {
            if j < rest.len() {
                self.lemma_rooted_grows(selected, v, before[j].chain_below());
            } else {
                let n = j - rest.len();
                let d = brought_in(deps, req)[n];
                let chain = d.chain_below();
                assert(chosen[selected.len() as int].required_by == chain.drop_last());
            }
        }
    }

    /// With top-level requirements only, every chain is rooted at the start.
    pub proof fn lemma_chained_at_start(self)
        requires
            self.top_level(),
        ensures
            self.all_chained(SearchView::start(self.initial)),
    {
    }

    /// Going back to a choice point keeps every chain rooted.
    pub proof fn lemma_chained_rewind(self, s: SearchView, parent: RequirementView, reason: Reason)
        requires
            self.all_chained(s),
            s.tidy(),
            forall|t: int|
                0 <= t < s.states.len() ==> forall|i: int|
                    0 <= i < (#[trigger] s.states[t]).possibilities.len()
                        ==> s.states[t].current_requirement.admits(
                        s.states[t].possibilities[i].version,
                    ),
        ensures
            s.resolve_conflict(self.index, parent, reason) matches Step::Next(next)
                ==> self.all_chained(next),
    {
        if let Step::Next(next) = s.resolve_conflict(self.index, parent, reason) {
            let t = find_state(s.states, parent.name)->Some_0;
            let st = s.states[t];
            let req = st.current_requirement;
            let chosen = st.possibilities.last();
            self.lemma_chained_after_selecting(st.requirements, req, st.selected, chosen.version);
            lemma_cut_is_prefix(s.states, st.name);
        }
    }

    /// Every step of a search keeps every chain rooted.
    pub proof fn lemma_chained_step(self, s: SearchView)
        requires
            self.inv(s),
            self.all_chained(s),
            s.requirements.len() > 0,
        ensures
            s.step(self.index, self.strategy) matches Step::Next(next) ==> self.all_chained(next),
    {
        let req = s.requirements.last();
        let rest = SearchView { requirements: s.requirements.drop_last(), ..s };
        match lookup(version_names(s.selected), req.name) {
            Some(k) => {
                let standing = s.selected[k];
                if !req.admits(standing.version) {
                    let noted = SearchView {
                        errors: crate::search::record(
                            rest.errors,
                            crate::search::DiagnosticView {
                                name: req.name,
                                selected_version: Some(standing.version),
                                failing_spec: req.spec,
                            },
                        ),
                        ..rest
                    };
                    let other_side = if (req.parent() matches Some(p) && crate::search::retryable(
                        rest.states,
                        p.name,
                    )) {
                        None
                    } else {
                        crate::search::driver(standing)
                    };
                    match find_conflict_parent(rest.states, Some(req), other_side) {
                        Some(parent) => {
                            self.lemma_chained_rewind(noted, parent, Reason::Conflict);
                        },
                        None => {},
                    }
                }
            },
            None => {
                let cands = candidates(self.index, self.strategy, req);
                if cands.len() == 0 {
                    let noted = SearchView {
                        errors: crate::search::record(
                            rest.errors,
                            crate::search::DiagnosticView {
                                name: req.name,
                                selected_version: None,
                                failing_spec: req.spec,
                            },
                        ),
                        ..rest
                    };
                    if req.required_by.len() > 0 {
                        match find_conflict_parent(rest.states, Some(req), None) {
                            Some(parent) => {
                                self.lemma_chained_rewind(noted, parent, Reason::NoCandidates);
                            },
                            None => {},
                        }
                    }
                } else {
                    self.lemma_candidates(req);
                    let chosen = cands.last();
                    self.lemma_chained_after_selecting(
                        rest.requirements,
                        req,
                        s.selected,
                        chosen.version,
                    );
                }
            },
        }
    }

    /// Where a search from a state that holds what every state holds, every
    /// chain rooted, ends with every requirement met, the chain of every
    /// selected version is rooted among the selected versions.
    pub proof fn lemma_run_chained(self, s: SearchView, fuel: nat)
        requires
            self.inv(s),
            self.all_chained(s),
        ensures
            s.run(self.index, self.strategy, fuel) matches Some(Outcome::Resolved(selected))
                ==> self.chained(Seq::empty(), selected),
        decreases fuel,
    {
        if s.requirements.len() == 0 {
        } else if fuel > 0 {
            self.lemma_step_preserves(s);
            self.lemma_chained_step(s);
            match s.step(self.index, self.strategy) {
                Step::Next(next) => {
                    self.lemma_run_chained(next, (fuel - 1) as nat);
                },
                Step::Failed(_) => {},
            }
        }
    }

    /// A rooted chain is a path: the chain of a selected version starts at a
    /// top-level requirement, and each further step is a dependency of the
    /// release of a selected version whose own chain is the chain up to
    /// that step.
    pub proof fn lemma_chain_is_path(self, selected: Seq<PackageVersionView>, k: int, i: int)
        requires
            self.chained(Seq::empty(), selected),
            0 <= k < selected.len(),
            0 <= i < selected[k].required_by.len(),
        ensures
            i == 0 ==> self.asks(selected[k].required_by[0]),
            i > 0 ==> exists|m: int|
                0 <= m < selected.len() && (#[trigger] selected[m]).required_by
                    == selected[k].required_by.take(i) && self.depends(
                    selected[m],
                    selected[k].required_by[i],
                ),
        decreases selected[k].required_by.len(),
    {
        let chain = selected[k].required_by;
        assert(self.well_chained(selected, selected[k]));
        if chain.len() > 1 {
            let m = choose|m: int|
                0 <= m < selected.len() && (#[trigger] selected[m]).required_by
                    == chain.drop_last() && self.depends(selected[m], chain.last());
            if i == chain.len() - 1 {
                assert(chain.drop_last() =~= chain.take(i));
            } else {
                self.lemma_chain_is_path(selected, m, i);
                assert(chain.drop_last().take(i) =~= chain.take(i));
            }
        }
    }

    /// Required-by well-formedness of a resolution: with top-level
    /// requirements only, the chain of every selected version starts at a
    /// top-level requirement, each further step is a dependency of the
    /// release selected for the step before, and the last step is the
    /// requirement that the version was selected for.
    pub proof fn lemma_resolution_chained(self, fuel: nat)
        requires
            self.top_level(),
        ensures
            SearchView::start(self.initial).run(self.index, self.strategy, fuel) matches Some(
                Outcome::Resolved(selected),
            ) ==> self.chained(Seq::empty(), selected),
    {
        self.lemma_inv_at_start();
        self.lemma_chained_at_start();
        self.lemma_run_chained(SearchView::start(self.initial), fuel);
    }
}

} // verus!
