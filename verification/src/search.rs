//! The resolver's search as a mathematical state machine: the state, one
//! step of the search, and a run of steps.
//!
//! The search keeps a stack of pending requirements, the versions selected
//! so far, and a stack of choice points. A step takes the last pending
//! requirement. Where its package is selected already, the selection must
//! meet it; where not, the most preferred candidate is selected and a choice
//! point remembers the rest. A requirement that cannot be met sends the
//! search back to a choice point up its chain that has candidates left.

use vstd::prelude::*;
use crate::index::{candidate, IndexView};
use crate::lookup::lookup;
use crate::requirement::{LinkView, PackageVersionView, RequirementView};
use crate::strategy::Strategy;
use crate::version::VersionView;

verus! {

/// Why a requirement could not be met.
#[derive(Debug, Clone, Copy, PartialEq, Eq, Structural)]
pub enum Reason {
    /// No version of the package passes the requirement and the strategy.
    NoCandidates,
    /// The version selected for the package does not meet the requirement.
    Conflict,
    /// The choice point to go back to was taken before anything was pending
    /// or selected: the search began with this choice, and it cannot stand.
    NullStateRestore,
}

/// A choice point: what the search looked like when a version was picked for
/// a requirement, and the candidates not tried yet, the next to try last.
pub struct StateView {
    pub name: Seq<char>,
    pub current_requirement: RequirementView,
    pub possibilities: Seq<PackageVersionView>,
    pub requirements: Seq<RequirementView>,
    pub selected: Seq<PackageVersionView>,
    pub depth: nat,
}

/// A note on a requirement that could not be met at once: the version that
/// stood against it, if one was selected, and the range that failed.
pub struct DiagnosticView {
    pub name: Seq<char>,
    pub selected_version: Option<VersionView>,
    pub failing_spec: Seq<char>,
}

/// The requirement on which the search failed, with the notes taken.
pub struct FailedView {
    pub package_name: Seq<char>,
    pub reason: Reason,
    pub diagnostics: Seq<DiagnosticView>,
}

/// The state of the search.
pub struct SearchView {
    /// The pending requirements, the next to take last.
    pub requirements: Seq<RequirementView>,
    /// The selected versions, in the order of selection.
    pub selected: Seq<PackageVersionView>,
    /// The choice points, the oldest first.
    pub states: Seq<StateView>,
    /// The notes on requirements that could not be met at once.
    pub errors: Seq<DiagnosticView>,
    /// The number of selections made on the way to this state.
    pub depth: nat,
}

/// What one step of the search leads to.
pub enum Step {
    /// The search goes on from a new state.
    Next(SearchView),
    /// The search ends in failure.
    Failed(FailedView),
}

/// How a search ends.
pub enum Outcome {
    /// Every requirement is met by the selected versions.
    Resolved(Seq<PackageVersionView>),
    /// A requirement cannot be met.
    Failed(FailedView),
}

/// The package names of a list of versions.
pub open spec fn version_names(s: Seq<PackageVersionView>) -> Seq<Seq<char>> {
    Seq::new(s.len(), |k: int| s[k].name)
}

/// The package names of a stack of choice points.
pub open spec fn state_names(s: Seq<StateView>) -> Seq<Seq<char>> {
    Seq::new(s.len(), |k: int| s[k].name)
}

/// The package names of a list of notes.
pub open spec fn note_names(s: Seq<DiagnosticView>) -> Seq<Seq<char>> {
    Seq::new(s.len(), |k: int| s[k].name)
}

/// The choice point for a package: the oldest one of that name.
pub open spec fn find_state(states: Seq<StateView>, name: Seq<char>) -> Option<int> {
    lookup(state_names(states), name)
}

/// Whether a package has a choice point with candidates left.
pub open spec fn retryable(states: Seq<StateView>, name: Seq<char>) -> bool {
    match find_state(states, name) {
        Some(t) => states[t].possibilities.len() > 0,
        None => false,
    }
}

/// The length of the way from a requirement up to the top of its chain:
/// nothing for no requirement.
pub open spec fn height(r: Option<RequirementView>) -> nat {
    match r {
        Some(q) => q.required_by.len() + 1,
        None => 0,
    }
}

/// One step up a chain: the requirement that brought this one in.
pub open spec fn step_up(r: Option<RequirementView>) -> Option<RequirementView> {
    match r {
        Some(q) => q.parent(),
        None => None,
    }
}

/// The requirement to go back to after a failure: walking up the chains of
/// the failed requirement and of the one behind the standing selection in
/// step, the first whose package has a choice point with candidates left,
/// the failed side before the standing one at each level.
pub open spec fn find_conflict_parent(
    states: Seq<StateView>,
    current: Option<RequirementView>,
    existing: Option<RequirementView>,
) -> Option<RequirementView>
    decreases height(current) + height(existing),
{
    if current is None && existing is None {
        None
    } else if current is Some && retryable(states, current->Some_0.name) {
        current
    } else if existing is Some && retryable(states, existing->Some_0.name) {
        existing
    } else {
        find_conflict_parent(states, step_up(current), step_up(existing))
    }
}

/// The requirement behind a selection: the last of its chain.
pub open spec fn driver(v: PackageVersionView) -> Option<RequirementView> {
    if v.required_by.len() == 0 {
        None
    } else {
        Some(
            RequirementView {
                name: v.required_by.last().name,
                spec: v.required_by.last().spec,
                required_by: v.required_by.drop_last(),
            },
        )
    }
}

/// The stack of choice points cut back below the newest one of a name; an
/// empty stack where none bears the name.
pub open spec fn cut(states: Seq<StateView>, name: Seq<char>) -> Seq<StateView>
    decreases states.len(),
{
    if states.len() == 0 {
        states
    } else if states.last().name == name {
        states.drop_last()
    } else {
        cut(states.drop_last(), name)
    }
}

/// Cutting the stack back leaves a prefix of it.
pub proof fn lemma_cut_is_prefix(states: Seq<StateView>, name: Seq<char>)
    ensures
        cut(states, name).len() <= states.len(),
        cut(states, name) == states.take(cut(states, name).len() as int),
    decreases states.len(),
{
    if states.len() > 0 && states.last().name != name {
        lemma_cut_is_prefix(states.drop_last(), name);
    }
}

/// Cutting the stack back below the only choice point of a name above
/// which none bears it leaves the choice points below that one.
pub proof fn lemma_cut_at(states: Seq<StateView>, name: Seq<char>, t: int)
    requires
        0 <= t < states.len(),
        states[t].name == name,
        forall|u: int| t < u < states.len() ==> (#[trigger] states[u]).name != name,
    ensures
        cut(states, name) == states.take(t),
    decreases states.len(),
{
    if t < states.len() - 1 {
        lemma_cut_at(states.drop_last(), name, t);
    }
}

/// A version put among the selected: in the place of the first of the same
/// name, or at the end.
pub open spec fn put_selected(selected: Seq<PackageVersionView>, v: PackageVersionView) -> Seq<
    PackageVersionView,
> {
    match lookup(version_names(selected), v.name) {
        Some(k) => selected.update(k, v),
        None => selected.push(v),
    }
}

/// A note put among the notes: in the place of the first of the same name,
/// or at the end.
pub open spec fn record(errors: Seq<DiagnosticView>, note: DiagnosticView) -> Seq<
    DiagnosticView,
> {
    match lookup(note_names(errors), note.name) {
        Some(k) => errors.update(k, note),
        None => errors.push(note),
    }
}

/// The notes without the first one on a package.
pub open spec fn clear(errors: Seq<DiagnosticView>, name: Seq<char>) -> Seq<DiagnosticView> {
    match lookup(note_names(errors), name) {
        Some(k) => errors.remove(k),
        None => errors,
    }
}

/// The dependencies of a release as requirements brought in by `req`.
pub open spec fn brought_in(deps: Seq<LinkView>, req: RequirementView) -> Seq<RequirementView> {
    Seq::new(
        deps.len(),
        |k: int|
            RequirementView {
                name: deps[k].name,
                spec: deps[k].spec,
                required_by: req.chain_below(),
            },
    )
}

/// The candidates that a requirement admits, in their order.
pub open spec fn matching(cands: Seq<PackageVersionView>, req: RequirementView) -> Seq<
    PackageVersionView,
> {
    cands.filter(|c: PackageVersionView| req.admits(c.version))
}

/// The candidates to try for a requirement, the most preferred last: the
/// versions of its package that it admits, filtered and sorted by the
/// strategy.
pub open spec fn candidates(index: IndexView, strategy: Strategy, req: RequirementView) -> Seq<
    PackageVersionView,
> {
    strategy.sorted(strategy.filtered(matching(index.candidates_of(req.name), req)))
}

impl StateView {
    /// The depth counts no more than the selections remembered, and the
    /// package chosen for was not selected before.
    pub open spec fn tidy(self) -> bool {
        &&& self.depth <= self.selected.len()
        &&& lookup(version_names(self.selected), self.current_requirement.name) is None
    }
}

impl SearchView {
    /// The depth counts no more than the selections made, here and at every
    /// choice point, and no choice point chose for a package selected before
    /// it. Every state of a search is so; it keeps the depth within the
    /// machine's range.
    pub open spec fn tidy(self) -> bool {
        &&& self.depth <= self.selected.len()
        &&& forall|t: int| 0 <= t < self.states.len() ==> (#[trigger] self.states[t]).tidy()
    }

    /// The state in which a search begins: the top-level requirements
    /// pending, nothing selected.
    pub open spec fn start(initial: Seq<RequirementView>) -> SearchView {
        SearchView {
            requirements: initial,
            selected: Seq::empty(),
            states: Seq::empty(),
            errors: Seq::empty(),
            depth: 0,
        }
    }

    /// The state after `chosen` was selected for `req`: the selection is
    /// recorded under the requirement's name with the chain that led to it,
    /// and the release's dependencies are pending, the last of them next.
    pub open spec fn select(
        self,
        index: IndexView,
        chosen: PackageVersionView,
        req: RequirementView,
    ) -> SearchView {
        let v = PackageVersionView {
            name: req.name,
            version: chosen.version,
            required_by: req.chain_below(),
        };
        SearchView {
            requirements: self.requirements + brought_in(
                index.dependencies_of(req.name, chosen.version),
                req,
            ),
            selected: put_selected(self.selected, v),
            depth: self.depth + 1,
            ..self
        }
    }

    /// The search sent back to the choice point of `parent`'s package: its
    /// next candidate is selected in the state that the choice point
    /// remembers, and the choice point stays while candidates are left.
    /// The search fails where there is no such choice point, where it has no
    /// candidate left, or where it remembers an empty state.
    pub open spec fn resolve_conflict(
        self,
        index: IndexView,
        parent: RequirementView,
        reason: Reason,
    ) -> Step {
        match find_state(self.states, parent.name) {
            None => Step::Failed(self.failure(parent.name, reason)),
            Some(t) => {
                let state = self.states[t];
                if state.possibilities.len() == 0 {
                    Step::Failed(self.failure(parent.name, reason))
                } else if state.requirements.len() == 0 && state.selected.len() == 0 {
                    Step::Failed(self.failure(parent.name, Reason::NullStateRestore))
                } else {
                    let rest = state.possibilities.drop_last();
                    let back = SearchView {
                        requirements: state.requirements,
                        selected: state.selected,
                        states: cut(self.states, state.name),
                        depth: state.depth,
                        ..self
                    };
                    let on = back.select(
                        index,
                        state.possibilities.last(),
                        state.current_requirement,
                    );
                    if rest.len() > 0 {
                        Step::Next(
                            SearchView {
                                states: on.states.push(StateView { possibilities: rest, ..state }),
                                ..on
                            },
                        )
                    } else {
                        Step::Next(on)
                    }
                }
            },
        }
    }

    /// The failure of the search on a package, with the notes as they stand.
    pub open spec fn failure(self, name: Seq<char>, reason: Reason) -> FailedView {
        FailedView { package_name: name, reason, diagnostics: self.errors }
    }

    /// The step for a requirement whose package is selected at place `k`.
    pub open spec fn meet(self, index: IndexView, req: RequirementView, k: int) -> Step {
        let standing = self.selected[k];
        if req.admits(standing.version) {
            Step::Next(SearchView { errors: clear(self.errors, req.name), ..self })
        } else {
            let noted = SearchView {
                errors: record(
                    self.errors,
                    DiagnosticView {
                        name: req.name,
                        selected_version: Some(standing.version),
                        failing_spec: req.spec,
                    },
                ),
                ..self
            };
            let other_side = if (req.parent() matches Some(p) && retryable(self.states, p.name)) {
                None
            } else {
                driver(standing)
            };
            match find_conflict_parent(self.states, Some(req), other_side) {
                Some(parent) => noted.resolve_conflict(index, parent, Reason::Conflict),
                None => Step::Failed(noted.failure(req.name, Reason::Conflict)),
            }
        }
    }

    /// The step for a requirement whose package is not selected yet.
    pub open spec fn choose_for(self, index: IndexView, strategy: Strategy, req: RequirementView) -> Step {
        let cands = candidates(index, strategy, req);
        if cands.len() == 0 {
            let noted = SearchView {
                errors: record(
                    self.errors,
                    DiagnosticView { name: req.name, selected_version: None, failing_spec: req.spec },
                ),
                ..self
            };
            if req.required_by.len() == 0 {
                Step::Failed(noted.failure(req.name, Reason::NoCandidates))
            } else {
                match find_conflict_parent(self.states, Some(req), None) {
                    Some(parent) => noted.resolve_conflict(index, parent, Reason::NoCandidates),
                    None => Step::Failed(noted.failure(req.name, Reason::NoCandidates)),
                }
            }
        } else {
            let state = StateView {
                name: req.name,
                current_requirement: req,
                possibilities: cands.drop_last(),
                requirements: self.requirements,
                selected: self.selected,
                depth: self.depth,
            };
            let on = self.select(index, cands.last(), req);
            Step::Next(SearchView { states: on.states.push(state), ..on })
        }
    }

    /// One step of the search: the last pending requirement is taken and
    /// dealt with. Meant for a state with a requirement pending.
    pub open spec fn step(self, index: IndexView, strategy: Strategy) -> Step {
        let req = self.requirements.last();
        let rest = SearchView { requirements: self.requirements.drop_last(), ..self };
        match lookup(version_names(self.selected), req.name) {
            Some(k) => rest.meet(index, req, k),
            None => rest.choose_for(index, strategy, req),
        }
    }

    /// How the search ends from this state within `fuel` steps, if it does.
    pub open spec fn run(self, index: IndexView, strategy: Strategy, fuel: nat) -> Option<Outcome>
        decreases fuel,
    {
        if self.requirements.len() == 0 {
            Some(Outcome::Resolved(self.selected))
        } else if fuel == 0 {
            None
        } else {
            match self.step(index, strategy) {
                Step::Next(next) => next.run(index, strategy, (fuel - 1) as nat),
                Step::Failed(failure) => Some(Outcome::Failed(failure)),
            }
        }
    }
}

} // verus!
