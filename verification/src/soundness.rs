//! What holds of every state of a search, and why each step keeps it.

use vstd::prelude::*;
use vstd::seq_lib::*;
use crate::closure::{meets, Problem};
use crate::index::{candidate, IndexView};
use crate::lookup::{distinct, is_first, lemma_lookup, lemma_lookup_found, lookup};
use crate::requirement::{PackageVersionView, RequirementView};
use crate::search::{
    brought_in, candidates, find_state, lemma_cut_at, version_names, Outcome, Reason, SearchView,
    StateView, Step,
};

verus! {

/// The place among the selected versions of the package that a choice point
/// chose for.
pub open spec fn place(s: SearchView, t: int) -> int {
    match lookup(version_names(s.selected), s.states[t].name) {
        Some(p) => p,
        None => -1,
    }
}

/// A choice point remembers the selections made before its own: its package
/// is selected, and what it remembers as selected is what was selected before.
pub open spec fn anchored(s: SearchView, t: int) -> bool {
    &&& 0 <= place(s, t) < s.selected.len()
    &&& s.selected[place(s, t)].name == s.states[t].name
    &&& s.states[t].selected == s.selected.take(place(s, t))
}

impl Problem {
    /// A choice point is sound: it chose for its requirement's package, which
    /// was not selected before; what it remembers owes nothing beyond what
    /// was pending with its requirement; and its candidates are on offer for
    /// its requirement, fewer than the most releases that a package has.
    pub open spec fn good_state(self, st: StateView) -> bool {
        &&& st.name == st.current_requirement.name
        &&& st.tidy()
        &&& distinct(version_names(st.selected))
        &&& self.closed(st.requirements.push(st.current_requirement), st.selected)
        &&& forall|i: int|
            0 <= i < st.possibilities.len() ==> self.offers(
                st.current_requirement,
                #[trigger] st.possibilities[i],
            )
        &&& st.possibilities.len() < self.index.widest()
    }

    /// The frame of a search state: no package is selected twice, every
    /// selected version is a known release that the strategy keeps, every
    /// choice point is sound and remembers the selections before its own,
    /// and older choice points chose earlier.
    pub open spec fn framed(self, s: SearchView) -> bool {
        &&& distinct(version_names(s.selected))
        &&& s.depth <= s.selected.len()
        &&& forall|k: int| 0 <= k < s.selected.len() ==> self.known(#[trigger] s.selected[k])
        &&& forall|t: int| 0 <= t < s.states.len() ==> self.good_state(#[trigger] s.states[t])
        &&& forall|t: int| 0 <= t < s.states.len() ==> #[trigger] anchored(s, t)
        &&& forall|t: int, u: int|
            0 <= t < u < s.states.len() ==> #[trigger] place(s, t) < #[trigger] place(s, u)
    }

    /// What holds of every state of a search: its frame, and that every
    /// requirement owed is pending or met.
    pub open spec fn inv(self, s: SearchView) -> bool {
        &&& self.framed(s)
        &&& self.closed(s.requirements, s.selected)
    }

    /// The candidates to try for a requirement are on offer for it, and are
    /// no more than the most releases that a package has.
    pub proof fn lemma_candidates(self, req: RequirementView)
        ensures
            candidates(self.index, self.strategy, req).len() <= self.index.widest(),
            forall|i: int|
                0 <= i < candidates(self.index, self.strategy, req).len() ==> self.offers(
                    req,
                    #[trigger] candidates(self.index, self.strategy, req)[i],
                ),
    {
        broadcast use {to_multiset_contains, Seq::lemma_filter_len};

        let base = self.index.candidates_of(req.name);
        let admitted = |c: PackageVersionView| req.admits(c.version);
        let kept = |v: PackageVersionView| self.strategy.keeps(v);
        let m1 = base.filter(admitted);
        let m2 = m1.filter(kept);
        let m3 = self.strategy.sorted(m2);
        self.strategy.lemma_sorted_permutes(m2);
        self.index.lemma_versions_bounded(req.name);
        assert forall|i: int| 0 <= i < m3.len() implies self.offers(req, #[trigger] m3[i]) by {
            let c = m3[i];
            assert(m3.to_multiset().count(c) > 0);
            m1.lemma_filter_contains_rev(kept, c);
            base.lemma_filter_contains_rev(admitted, c);
        }
    }

    /// The start of a search holds what every state holds.
    pub proof fn lemma_inv_at_start(self)
        ensures
            self.inv(SearchView::start(self.initial)),
    {
        self.lemma_closed_at_start();
    }

    /// Taking a pending requirement that the selected version of its
    /// package meets keeps what every state holds.
    pub proof fn lemma_inv_meet(self, s: SearchView, k: int, next: SearchView)
        requires
            self.inv(s),
            s.requirements.len() > 0,
            0 <= k < s.selected.len(),
            meets(s.selected[k], s.requirements.last().link()),
            next.requirements == s.requirements.drop_last(),
            next.selected == s.selected,
            next.states == s.states,
            next.depth == s.depth,
        ensures
            self.inv(next),
    {
        self.lemma_closed_after_meeting(s.requirements, s.selected, k);
        assert forall|t: int| 0 <= t < next.states.len() implies #[trigger] anchored(next, t) by {
            assert(anchored(s, t));
        }
        assert forall|t: int, u: int| 0 <= t < u < next.states.len() implies #[trigger] place(
            next,
            t,
        ) < #[trigger] place(next, u) by {
            assert(place(s, t) < place(s, u));
        }
    }

    /// Selecting a candidate on offer for a requirement, in a state made of
    /// the first `p` selections and the oldest `keep` choice points of a
    /// framed state, with at most one sound choice point for the requirement
    /// on top, gives a state that holds what every state holds: provided the
    /// choice points kept chose before place `p`, the requirement's package
    /// is a known one not among the first `p` selections, and those
    /// selections owe nothing beyond the requirement and what is pending
    /// with it.
    pub proof fn lemma_inv_select(
        self,
        s: SearchView,
        keep: int,
        p: int,
        rest: Seq<RequirementView>,
        req: RequirementView,
        chosen: PackageVersionView,
        extra: Seq<StateView>,
        next: SearchView,
    )
        requires
            self.framed(s),
            0 <= keep <= s.states.len(),
            0 <= p <= s.selected.len(),
            forall|t: int| 0 <= t < keep ==> #[trigger] place(s, t) < p,
            lookup(version_names(s.selected.take(p)), req.name) is None,
            lookup(self.index.names(), req.name) is Some,
            self.offers(req, chosen),
            self.closed(rest.push(req), s.selected.take(p)),
            extra.len() <= 1,
            extra.len() == 1 ==> self.good_state(extra[0]) && extra[0].name == req.name
                && extra[0].selected == s.selected.take(p),
            next.selected == s.selected.take(p).push(
                PackageVersionView {
                    name: req.name,
                    version: chosen.version,
                    required_by: req.chain_below(),
                },
            ),
            next.requirements == rest + brought_in(
                self.index.dependencies_of(req.name, chosen.version),
                req,
            ),
            next.depth <= next.selected.len(),
            next.states == s.states.take(keep) + extra,
        ensures
            self.inv(next),
            next.selected.len() == p + 1,
            forall|t: int| 0 <= t < keep ==> #[trigger] place(next, t) == place(s, t),
            extra.len() == 1 ==> place(next, keep) == p,
    {
        let base = s.selected.take(p);
        let names = version_names(s.selected);
        let next_names = version_names(next.selected);
        lemma_lookup(version_names(base), req.name);
        assert forall|j: int| 0 <= j < p implies next_names[j] == names[j] && names[j]
            != req.name by {
            assert(version_names(base)[j] == names[j]);
        }
        self.lemma_closed_after_selecting(rest, req, base, chosen.version);
        assert forall|t: int| 0 <= t < keep implies #[trigger] place(next, t) == place(s, t)
            && anchored(next, t) by {
            let q = place(s, t);
            assert(anchored(s, t));
            assert(is_first(next_names, s.states[t].name, q));
            assert(next.selected.take(q) =~= s.selected.take(q));
        }
        if extra.len() == 1 {
            lemma_lookup_found(next_names, req.name, p);
            assert(next.selected.take(p) =~= base);
        }
    }

    /// Choosing for a requirement whose package is not selected keeps what
    /// every state holds; the choice point pushed sits at the new selection.
    pub proof fn lemma_inv_choose(self, s: SearchView)
        requires
            self.inv(s),
            s.requirements.len() > 0,
            lookup(version_names(s.selected), s.requirements.last().name) is None,
        ensures
            s.step(self.index, self.strategy) matches Step::Next(next) ==> {
                ||| candidates(self.index, self.strategy, s.requirements.last()).len() == 0
                    && self.inv(next)
                ||| {
                    &&& candidates(self.index, self.strategy, s.requirements.last()).len() > 0
                    &&& self.inv(next)
                    &&& next.selected.len() == s.selected.len() + 1
                    &&& next.selected.take(s.selected.len() as int) == s.selected
                    &&& next.states.len() == s.states.len() + 1
                    &&& next.states.take(s.states.len() as int) == s.states
                    &&& place(next, s.states.len() as int) == s.selected.len()
                    &&& forall|t: int|
                        0 <= t < s.states.len() ==> #[trigger] place(next, t) == place(s, t)
                }
            },
    {
        let req = s.requirements.last();
        let rest = SearchView { requirements: s.requirements.drop_last(), ..s };
        let cands = candidates(self.index, self.strategy, req);
        if cands.len() == 0 {
            if req.required_by.len() > 0 {
                let noted = SearchView {
                    errors: crate::search::record(
                        rest.errors,
                        crate::search::DiagnosticView {
                            name: req.name,
                            selected_version: None,
                            failing_spec: req.spec,
                        },
                    ),
                    ..rest
                };
                self.lemma_framed_same(s, noted);
                match crate::search::find_conflict_parent(rest.states, Some(req), None) {
                    Some(parent) => {
                        self.lemma_inv_rewind(noted, parent, Reason::NoCandidates);
                    },
                    None => {},
                }
            }
        } else {
            self.lemma_candidates(req);
            let chosen = cands.last();
            let state = StateView {
                name: req.name,
                current_requirement: req,
                possibilities: cands.drop_last(),
                requirements: rest.requirements,
                selected: rest.selected,
                depth: rest.depth,
            };
            let on = rest.select(self.index, chosen, req);
            let next = SearchView { states: on.states.push(state), ..on };
            let p = s.selected.len() as int;
            let keep = s.states.len() as int;
            assert(s.selected.take(p) =~= s.selected);
            assert(s.states.take(keep) + seq![state] =~= s.states.push(state));
            assert(rest.requirements.push(req) =~= s.requirements);
            self.lemma_inv_select(s, keep, p, rest.requirements, req, chosen, seq![state], next);
        }
    }

    /// A state that differs from a framed one only in what is pending and
    /// in its notes is framed too.
    pub proof fn lemma_framed_same(self, s: SearchView, other: SearchView)
        requires
            self.framed(s),
            other.selected == s.selected,
            other.states == s.states,
            other.depth == s.depth,
        ensures
            self.framed(other),
            forall|t: int| 0 <= t < s.states.len() ==> #[trigger] place(other, t) == place(s, t),
    {
        assert forall|t: int| 0 <= t < other.states.len() implies #[trigger] anchored(other, t) by {
            assert(anchored(s, t));
        }
        assert forall|t: int, u: int| 0 <= t < u < other.states.len() implies #[trigger] place(
            other,
            t,
        ) < #[trigger] place(other, u) by {
            assert(place(s, t) < place(s, u));
        }
    }

    /// Going back to a choice point of a framed state gives a state that
    /// holds what every state holds: the selections before the choice
    /// point's own, then the new selection; the choice points below it, and
    /// itself with one candidate less while any is left.
    pub proof fn lemma_inv_rewind(self, s: SearchView, parent: RequirementView, reason: Reason)
        requires
            self.framed(s),
        ensures
            s.resolve_conflict(self.index, parent, reason) matches Step::Next(next) ==> {
                &&& self.inv(next)
                &&& find_state(s.states, parent.name) matches Some(t) && {
                    &&& s.states[t].possibilities.len() > 0
                    &&& next.selected.len() == place(s, t) + 1
                    &&& next.selected.take(place(s, t)) == s.selected.take(place(s, t))
                    &&& next.selected[place(s, t)].name == s.selected[place(s, t)].name
                    &&& next.states.take(t) == s.states.take(t)
                    &&& forall|u: int| 0 <= u < t ==> #[trigger] place(next, u) == place(s, u)
                    &&& if s.states[t].possibilities.len() > 1 {
                        &&& next.states.len() == t + 1
                        &&& place(next, t) == place(s, t)
                        &&& next.states[t].possibilities.len() + 1
                            == s.states[t].possibilities.len()
                    } else {
                        next.states.len() == t
                    }
                }
            },
    {
        if let Step::Next(next) = s.resolve_conflict(self.index, parent, reason) {
            let t = find_state(s.states, parent.name)->Some_0;
            let st = s.states[t];
            let p = place(s, t);
            assert(anchored(s, t));
            let req = st.current_requirement;
            let chosen = st.possibilities.last();
            let rest = st.possibilities.drop_last();
            assert forall|u: int| t < u < s.states.len() implies (#[trigger] s.states[u]).name
                != st.name by {
                assert(place(s, t) < place(s, u));
            }
            lemma_cut_at(s.states, st.name, t);
            let extra = if rest.len() > 0 {
                seq![StateView { possibilities: rest, ..st }]
            } else {
                Seq::<StateView>::empty()
            };
            assert(next.states =~= s.states.take(t) + extra);
            self.lemma_inv_select(s, t, p, st.requirements, req, chosen, extra, next);
        }
    }

    /// Every step of a search keeps what every state holds.
    pub proof fn lemma_step_preserves(self, s: SearchView)
        requires
            self.inv(s),
            s.requirements.len() > 0,
        ensures
            s.step(self.index, self.strategy) matches Step::Next(next) ==> self.inv(next),
    {
        let req = s.requirements.last();
        let rest = SearchView { requirements: s.requirements.drop_last(), ..s };
        match lookup(version_names(s.selected), req.name) {
            Some(k) => {
                let standing = s.selected[k];
                if req.admits(standing.version) {
                    let next = SearchView {
                        errors: crate::search::clear(rest.errors, req.name),
                        ..rest
                    };
                    self.lemma_inv_meet(s, k, next);
                } else {
                    let noted = SearchView {
                        errors: crate::search::record(
                            rest.errors,
                            crate::search::DiagnosticView {
                                name: req.name,
                                selected_version: Some(standing.version),
                                failing_spec: req.spec,
                            },
                        ),
                        ..rest
                    };
                    self.lemma_framed_same(s, noted);
                    let other_side = if (req.parent() matches Some(p) && crate::search::retryable(
                        rest.states,
                        p.name,
                    )) {
                        None
                    } else {
                        crate::search::driver(standing)
                    };
                    match crate::search::find_conflict_parent(rest.states, Some(req), other_side) {
                        Some(parent) => {
                            self.lemma_inv_rewind(noted, parent, Reason::Conflict);
                        },
                        None => {},
                    }
                }
            },
            None => {
                self.lemma_inv_choose(s);
            },
        }
    }

    /// A state that holds what every state holds and has nothing pending
    /// answers the query.
    pub proof fn lemma_inv_answers(self, s: SearchView)
        requires
            self.inv(s),
            s.requirements.len() == 0,
        ensures
            self.answered_by(s.selected),
    {
    }

    /// Soundness, single version and closure: where a search from a state
    /// that holds what every state holds ends with every requirement met,
    /// the selected versions answer the query.
    pub proof fn lemma_run_answers(self, s: SearchView, fuel: nat)
        requires
            self.inv(s),
        ensures
            s.run(self.index, self.strategy, fuel) matches Some(Outcome::Resolved(selected))
                ==> self.answered_by(selected),
        decreases fuel,
    {
        if s.requirements.len() == 0 {
            self.lemma_inv_answers(s);
        } else if fuel > 0 {
            self.lemma_step_preserves(s);
            match s.step(self.index, self.strategy) {
                Step::Next(next) => {
                    self.lemma_run_answers(next, (fuel - 1) as nat);
                },
                Step::Failed(_) => {},
            }
        }
    }

    /// The answer of a resolution: where the search from the start ends
    /// with every requirement met, no package is selected twice, every
    /// top-level requirement and every dependency of a selected release is
    /// met by a selected version, and every selected version is a known
    /// release that the strategy keeps.
    pub proof fn lemma_resolution_answers(self, fuel: nat)
        ensures
            SearchView::start(self.initial).run(self.index, self.strategy, fuel) matches Some(
                Outcome::Resolved(selected),
            ) ==> self.answered_by(selected),
    {
        self.lemma_inv_at_start();
        self.lemma_run_answers(SearchView::start(self.initial), fuel);
    }
}

/// An answer is stable: a search that starts with the versions of an answer
/// selected, and with top-level requirements of the query pending, takes
/// each of them off as met and ends with the same selection.
pub proof fn lemma_answer_is_stable(problem: Problem, s: SearchView)
    requires
        problem.answered_by(s.selected),
        forall|j: int|
            0 <= j < s.requirements.len() ==> problem.asks((#[trigger] s.requirements[j]).link()),
    ensures
        s.run(problem.index, problem.strategy, s.requirements.len()) == Some(
            Outcome::Resolved(s.selected),
        ),
    decreases s.requirements.len(),
{
    if s.requirements.len() > 0 {
        let req = s.requirements.last();
        let names = version_names(s.selected);
        assert(problem.owed(s.selected, req.link()));
        let k = choose|k: int|
            0 <= k < s.selected.len() && meets(#[trigger] s.selected[k], req.link());
        lemma_lookup(names, req.name);
        assert(names[k] == req.name);
        let rest = SearchView { requirements: s.requirements.drop_last(), ..s };
        let next = SearchView { errors: crate::search::clear(rest.errors, req.name), ..rest };
        lemma_answer_is_stable(problem, next);
    }
}

/// More fuel does not change how a search ends.
pub proof fn lemma_run_more_fuel(
    s: SearchView,
    index: IndexView,
    strategy: crate::strategy::Strategy,
    fuel: nat,
    more: nat,
)
    requires
        s.run(index, strategy, fuel) is Some,
        fuel <= more,
    ensures
        s.run(index, strategy, more) == s.run(index, strategy, fuel),
    decreases fuel,
{
    if s.requirements.len() > 0 && fuel > 0 {
        match s.step(index, strategy) {
            Step::Next(next) => {
                lemma_run_more_fuel(next, index, strategy, (fuel - 1) as nat, (more - 1) as nat);
            },
            Step::Failed(_) => {},
        }
    }
}

/// Determinism: a search from one state with one index and one strategy
/// ends in one way, however many steps it is given.
pub proof fn lemma_run_deterministic(
    s: SearchView,
    index: IndexView,
    strategy: crate::strategy::Strategy,
    fuel1: nat,
    fuel2: nat,
)
    requires
        s.run(index, strategy, fuel1) is Some,
        s.run(index, strategy, fuel2) is Some,
    ensures
        s.run(index, strategy, fuel1) == s.run(index, strategy, fuel2),
{
    if fuel1 <= fuel2 {
        lemma_run_more_fuel(s, index, strategy, fuel1, fuel2);
    } else {
        lemma_run_more_fuel(s, index, strategy, fuel2, fuel1);
    }
}

} // verus!
