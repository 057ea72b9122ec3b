//! Why a search ends: a number that every step lowers.
//!
//! Each selected package, in the order of selection, stands for one digit:
//! the number of candidates that its choice point has left, none where it
//! has no choice point. Packages of the index not selected yet stand for the
//! highest digit. A new selection lowers the first highest digit; going back
//! to a choice point lowers that choice point's digit and touches none
//! before it. So the number that the digits spell falls with every
//! selection, and between selections the stack of pending requirements
//! shrinks.

use vstd::prelude::*;
use vstd::seq_lib::*;
use crate::closure::Problem;
use crate::index::IndexView;
use crate::lookup::{distinct, is_first, lemma_lookup, lookup};
use crate::search::{find_state, state_names, version_names, SearchView, StateView, Step};
use crate::soundness::place;

verus! {

/// The number of candidates that a package's choice point has left; none
/// where it has no choice point.
pub open spec fn remaining(states: Seq<StateView>, name: Seq<char>) -> nat {
    match find_state(states, name) {
        Some(t) => states[t].possibilities.len(),
        None => 0,
    }
}

/// The digit of place `k`: for a selected package the candidates left to
/// it, beyond the selections the highest digit.
pub open spec fn digit(index: IndexView, s: SearchView, k: int) -> nat {
    if k < s.selected.len() {
        remaining(s.states, s.selected[k].name)
    } else {
        index.widest()
    }
}

/// The digits of a state of the search, one for each package of the index.
pub open spec fn digits(index: IndexView, s: SearchView) -> Seq<nat> {
    Seq::new(index.packages.len(), |k: int| digit(index, s, k))
}

/// The number that digits spell in a base, the first digit weighing most.
pub open spec fn weigh(d: Seq<nat>, base: nat) -> nat
    decreases d.len(),
{
    if d.len() == 0 {
        0
    } else {
        weigh(d.drop_last(), base) * base + d.last()
    }
}

/// The number that every step of a search lowers, or leaves while the stack
/// of pending requirements shrinks.
pub open spec fn potential(index: IndexView, s: SearchView) -> nat {
    weigh(digits(index, s), index.widest() + 1)
}

/// Of two numbers of equal length whose digits agree up to a place where
/// the second has the lower digit, the second is the lower.
pub proof fn lemma_weigh_less(a: Seq<nat>, b: Seq<nat>, base: nat, p: int)
    requires
        a.len() == b.len(),
        0 <= p < a.len(),
        forall|i: int| 0 <= i < p ==> a[i] == b[i],
        b[p] < a[p],
        forall|i: int| p < i < b.len() ==> b[i] < base,
    ensures
        weigh(b, base) < weigh(a, base),
    decreases a.len(),
{
    if p == a.len() - 1 {
        assert(a.drop_last() =~= b.drop_last());
    } else {
        lemma_weigh_less(a.drop_last(), b.drop_last(), base, p);
        let x = weigh(b.drop_last(), base);
        let y = weigh(a.drop_last(), base);
        assert(x * base + base <= y * base) by (nonlinear_arith)
            requires
                x + 1 <= y,
        ;
    }
}

/// No more names than a list holds can be distinct and all of the list.
pub proof fn lemma_pigeonhole(names: Seq<Seq<char>>, all: Seq<Seq<char>>)
    requires
        distinct(names),
        forall|k: int| 0 <= k < names.len() ==> all.contains(#[trigger] names[k]),
    ensures
        names.len() <= all.len(),
{
    broadcast use seq_to_set_is_finite;

    names.unique_seq_to_set();
    all.lemma_cardinality_of_set();
    vstd::set_lib::lemma_len_subset(names.to_set(), all.to_set());
}

impl Problem {
    /// No more packages are selected than the index has.
    pub proof fn lemma_selected_bounded(self, s: SearchView)
        requires
            self.framed(s),
        ensures
            s.selected.len() <= self.index.packages.len(),
    {
        let names = version_names(s.selected);
        let all = self.index.names();
        lemma_pigeonhole(names, all);
    }

    /// The digit of a selected package is that of the choice point that sits
    /// at its place, if there is one.
    pub proof fn lemma_digit(self, s: SearchView, k: int)
        requires
            self.framed(s),
            0 <= k < s.selected.len(),
        ensures
            match find_state(s.states, s.selected[k].name) {
                Some(t) => 0 <= t < s.states.len() && place(s, t) == k && digit(self.index, s, k)
                    == s.states[t].possibilities.len(),
                None => digit(self.index, s, k) == 0 && forall|t: int|
                    0 <= t < s.states.len() ==> #[trigger] place(s, t) != k,
            },
            digit(self.index, s, k) < self.index.widest() + 1,
    {
        let name = s.selected[k].name;
        let names = version_names(s.selected);
        lemma_lookup(state_names(s.states), name);
        assert(is_first(names, name, k));
        if find_state(s.states, name) is None {
            assert forall|t: int| 0 <= t < s.states.len() implies #[trigger] place(s, t) != k by {
                assert(state_names(s.states)[t] == s.states[t].name);
            }
        }
    }

    /// A state that keeps the first `p` selections of another and its oldest
    /// `keep` choice points, those that sit before place `p`, and puts at
    /// place `p` a digit lower than the other's, has the lower potential.
    pub proof fn lemma_potential_drops(self, s: SearchView, next: SearchView, keep: int, p: int)
        requires
            self.framed(s),
            self.framed(next),
            0 <= p <= s.selected.len(),
            next.selected.len() == p + 1,
            next.selected.take(p) == s.selected.take(p),
            0 <= keep <= s.states.len(),
            keep <= next.states.len() <= keep + 1,
            next.states.take(keep) == s.states.take(keep),
            forall|t: int| 0 <= t < keep ==> #[trigger] place(next, t) == place(s, t),
            forall|t: int| keep <= t < s.states.len() ==> #[trigger] place(s, t) >= p,
            next.states.len() == keep + 1 ==> place(next, keep) == p,
            digit(self.index, next, p) < digit(self.index, s, p),
        ensures
            potential(self.index, next) < potential(self.index, s),
    {
        self.lemma_selected_bounded(next);
        let a = digits(self.index, s);
        let b = digits(self.index, next);
        let base = self.index.widest() + 1;
        assert forall|k: int| 0 <= k < p implies a[k] == b[k] by {
            assert(next.selected[k] == next.selected.take(p)[k]);
            self.lemma_digit(s, k);
            self.lemma_digit(next, k);
            let name = s.selected[k].name;
            match find_state(next.states, name) {
                Some(t) => {
                    assert(next.states[t] == next.states.take(keep)[t]);
                },
                None => {
                    match find_state(s.states, name) {
                        Some(u) => {
                            assert(place(next, u) == k);
                        },
                        None => {},
                    }
                },
            }
        }
        lemma_weigh_less(a, b, base as nat, p);
    }

    /// Every step of a search lowers the potential, or leaves it and takes a
    /// requirement off the stack of pending ones.
    pub proof fn lemma_step_decreases(self, s: SearchView)
        requires
            self.inv(s),
            s.requirements.len() > 0,
        ensures
            s.step(self.index, self.strategy) matches Step::Next(next) ==> {
                ||| potential(self.index, next) < potential(self.index, s)
                ||| potential(self.index, next) == potential(self.index, s)
                    && next.requirements.len() < s.requirements.len()
            },
    {
        if let Step::Next(next) = s.step(self.index, self.strategy) {
            let req = s.requirements.last();
            let rest = SearchView { requirements: s.requirements.drop_last(), ..s };
            match lookup(version_names(s.selected), req.name) {
                Some(k) => {
                    let standing = s.selected[k];
                    if req.admits(standing.version) {
                        assert(digits(self.index, next) =~= digits(self.index, s));
                    } else {
                        let noted = SearchView {
                            errors: crate::search::record(
                                rest.errors,
                                crate::search::DiagnosticView {
                                    name: req.name,
                                    selected_version: Some(standing.version),
                                    failing_spec: req.spec,
                                },
                            ),
                            ..rest
                        };
                        let other_side = if (req.parent() matches Some(p)
                            && crate::search::retryable(rest.states, p.name)) {
                            None
                        } else {
                            crate::search::driver(standing)
                        };
                        let parent = crate::search::find_conflict_parent(
                            rest.states,
                            Some(req),
                            other_side,
                        )->Some_0;
                        self.lemma_rewind_drops(s, noted, parent, crate::search::Reason::Conflict);
                    }
                },
                None => {
                    let cands = crate::search::candidates(self.index, self.strategy, req);
                    if cands.len() == 0 {
                        let noted = SearchView {
                            errors: crate::search::record(
                                rest.errors,
                                crate::search::DiagnosticView {
                                    name: req.name,
                                    selected_version: None,
                                    failing_spec: req.spec,
                                },
                            ),
                            ..rest
                        };
                        let parent = crate::search::find_conflict_parent(
                            rest.states,
                            Some(req),
                            None,
                        )->Some_0;
                        self.lemma_rewind_drops(
                            s,
                            noted,
                            parent,
                            crate::search::Reason::NoCandidates,
                        );
                    } else {
                        self.lemma_inv_choose(s);
                        let keep = s.states.len() as int;
                        let p = s.selected.len() as int;
                        assert(s.selected.take(p) =~= s.selected);
                        assert(s.states.take(keep) =~= s.states);
                        self.lemma_potential_drops(s, next, keep, p);
                    }
                },
            }
        }
    }

    /// Going back to a choice point lowers the potential.
    pub proof fn lemma_rewind_drops(
        self,
        s: SearchView,
        noted: SearchView,
        parent: crate::requirement::RequirementView,
        reason: crate::search::Reason,
    )
        requires
            self.framed(s),
            noted.selected == s.selected,
            noted.states == s.states,
            noted.depth == s.depth,
        ensures
            noted.resolve_conflict(self.index, parent, reason) matches Step::Next(next)
                ==> potential(self.index, next) < potential(self.index, s),
    {
        if let Step::Next(next) = noted.resolve_conflict(self.index, parent, reason) {
            self.lemma_framed_same(s, noted);
            self.lemma_inv_rewind(noted, parent, reason);
            let t = find_state(s.states, parent.name)->Some_0;
            let p = place(s, t);
            self.lemma_digit(next, p);
            self.lemma_potential_drops(s, next, t, p);
        }
    }

    /// Termination: a search from a state that holds what every state holds
    /// ends, in success or in failure, within some number of steps.
    pub proof fn lemma_search_ends(self, s: SearchView)
        requires
            self.inv(s),
        ensures
            exists|fuel: nat| s.run(self.index, self.strategy, fuel) is Some,
        decreases potential(self.index, s), s.requirements.len(),
    {
        if s.requirements.len() > 0 {
            self.lemma_step_preserves(s);
            self.lemma_step_decreases(s);
            match s.step(self.index, self.strategy) {
                Step::Next(next) => {
                    self.lemma_search_ends(next);
                    let fuel = choose|fuel: nat| next.run(self.index, self.strategy, fuel) is Some;
                    assert(s.run(self.index, self.strategy, fuel + 1) == next.run(
                        self.index,
                        self.strategy,
                        fuel,
                    ));
                },
                Step::Failed(_) => {
                    assert(s.run(self.index, self.strategy, 1) is Some);
                },
            }
        }
    }

    /// Every resolution ends.
    pub proof fn lemma_resolution_ends(self)
        ensures
            exists|fuel: nat|
                SearchView::start(self.initial).run(self.index, self.strategy, fuel) is Some,
    {
        self.lemma_inv_at_start();
        self.lemma_search_ends(SearchView::start(self.initial));
    }
}

} // verus!
