//! The resolver: a backtracking search for one version per package that
//! meets every requirement.

use vstd::prelude::*;
use crate::closure::Problem;
use crate::index::{IndexView, Repository};
use crate::lookup::{lemma_lookup_found, lookup};
use crate::requirement::{PackageRequirement, PackageVersion, PackageVersionView, RequirementView};
use crate::search::{
    brought_in, candidates, clear, cut, driver, find_conflict_parent, find_state, height, matching,
    note_names, put_selected, record, retryable, state_names, version_names, DiagnosticView,
    FailedView, Outcome, Reason, SearchView, StateView, Step,
};
use crate::strategy::Strategy;
use crate::termination::potential;
use crate::version::Version;
use crate::views::{clone_items, lemma_views_drop_last, lemma_views_push, view_of, views};

verus! {

/// A choice point: what the search looked like when a version was picked for
/// a requirement, and the candidates not tried yet, the next to try last.
#[derive(Debug)]
pub struct State {
    pub requirements: Vec<PackageRequirement>,
    pub selected: Vec<PackageVersion>,
    pub current_requirement: PackageRequirement,
    pub possibilities: Vec<PackageVersion>,
    pub depth: usize,
    pub name: String,
}

impl View for State {
    type V = StateView;

    open spec fn view(&self) -> StateView {
        StateView {
            name: self.name@,
            current_requirement: self.current_requirement@,
            possibilities: views(self.possibilities@),
            requirements: views(self.requirements@),
            selected: views(self.selected@),
            depth: self.depth as nat,
        }
    }
}

impl Clone for State {
    fn clone(&self) -> (r: Self)
        ensures
            r@ == self@,
    {
        State {
            requirements: clone_items(&self.requirements),
            selected: clone_items(&self.selected),
            current_requirement: self.current_requirement.clone(),
            possibilities: clone_items(&self.possibilities),
            depth: self.depth,
            name: self.name.clone(),
        }
    }
}

/// A note on a requirement that could not be met at once: the version that
/// stood against it, if one was selected, and the range that failed.
#[derive(Debug)]
pub struct Diagnostic {
    pub name: String,
    pub selected_version: Option<Version>,
    pub failing_spec: String,
}

impl View for Diagnostic {
    type V = DiagnosticView;

    open spec fn view(&self) -> DiagnosticView {
        DiagnosticView {
            name: self.name@,
            selected_version: view_of(self.selected_version),
            failing_spec: self.failing_spec@,
        }
    }
}

impl Clone for Diagnostic {
    fn clone(&self) -> (r: Self)
        ensures
            r@ == self@,
    {
        Diagnostic {
            name: self.name.clone(),
            selected_version: match &self.selected_version {
                Some(v) => Some(v.clone()),
                None => None,
            },
            failing_spec: self.failing_spec.clone(),
        }
    }
}

/// The requirement on which the search failed, with the notes taken.
#[derive(Debug)]
pub struct FailedRequirement {
    pub package_name: String,
    pub reason: Reason,
    pub diagnostics: Vec<Diagnostic>,
}

impl View for FailedRequirement {
    type V = FailedView;

    open spec fn view(&self) -> FailedView {
        FailedView {
            package_name: self.package_name@,
            reason: self.reason,
            diagnostics: views(self.diagnostics@),
        }
    }
}

/// Where in a list of versions a package name is first found.
pub fn find_selected(selected: &Vec<PackageVersion>, name: &String) -> (r: Option<usize>)
    ensures
        match r {
            Some(k) => k < selected.len() && lookup(version_names(views(selected@)), name@) == Some(
                k as int,
            ),
            None => lookup(version_names(views(selected@)), name@) is None,
        },
{
    let ghost names = version_names(views(selected@));
    let mut k: usize = 0;
    while k < selected.len()
        invariant
            k <= selected.len(),
            names == version_names(views(selected@)),
            forall|j: int| 0 <= j < k ==> names[j] != name@,
        decreases selected.len() - k,
    {
        if selected[k].name == *name {
            proof {
                lemma_lookup_found(names, name@, k as int);
            }
            return Some(k);
        }
        k += 1;
    }
    None
}

/// Where in a list of notes a package name is first found.
pub fn find_note(errors: &Vec<Diagnostic>, name: &String) -> (r: Option<usize>)
    ensures
        match r {
            Some(k) => k < errors.len() && lookup(note_names(views(errors@)), name@) == Some(
                k as int,
            ),
            None => lookup(note_names(views(errors@)), name@) is None,
        },
{
    let ghost names = note_names(views(errors@));
    let mut k: usize = 0;
    while k < errors.len()
        invariant
            k <= errors.len(),
            names == note_names(views(errors@)),
            forall|j: int| 0 <= j < k ==> names[j] != name@,
        decreases errors.len() - k,
    {
        if errors[k].name == *name {
            proof {
                lemma_lookup_found(names, name@, k as int);
            }
            return Some(k);
        }
        k += 1;
    }
    None
}

/// Puts a version among the selected: in the place of the first of the same
/// name, or at the end.
pub fn put_version(selected: &mut Vec<PackageVersion>, v: PackageVersion)
    ensures
        views(final(selected)@) == put_selected(views(old(selected)@), v@),
{
    match find_selected(selected, &v.name) {
        Some(k) => {
            selected.set(k, v);
        },
        None => {
            selected.push(v);
        },
    }
}

/// Puts a note among the notes: in the place of the first of the same name,
/// or at the end.
pub fn record_note(errors: &mut Vec<Diagnostic>, note: Diagnostic)
    ensures
        views(final(errors)@) == record(views(old(errors)@), note@),
{
    match find_note(errors, &note.name) {
        Some(k) => {
            errors.set(k, note);
        },
        None => {
            errors.push(note);
        },
    }
}

/// Takes the first note on a package out of the notes.
pub fn clear_note(errors: &mut Vec<Diagnostic>, name: &String)
    ensures
        views(final(errors)@) == clear(views(old(errors)@), name@),
{
    match find_note(errors, name) {
        Some(k) => {
            let _ = errors.remove(k);
        },
        None => {},
    }
}

/// Cuts the stack of choice points back below the newest one of a name;
/// empties it where none bears the name.
pub fn cut_states(states: &mut Vec<State>, name: &String)
    ensures
        views(final(states)@) == cut(views(old(states)@), name@),
{
    let ghost target = cut(views(states@), name@);
    let mut found = false;
    while !found && states.len() > 0
        invariant
            found ==> views(states@) == target,
            !found ==> cut(views(states@), name@) == target,
        decreases states.len(), (if found { 0int } else { 1int }),
    {
        let ghost before = states@;
        let popped = states.pop().unwrap();
        proof {
            lemma_views_drop_last(before);
        }
        if popped.name == *name {
            found = true;
        }
    }
}

/// Puts a release's dependencies on the stack of pending requirements, each
/// with the chain of the requirement that brought it in.
pub fn bring_in(
    requirements: &mut Vec<PackageRequirement>,
    dependencies: &Vec<PackageRequirement>,
    current_req: &PackageRequirement,
)
    ensures
        views(final(requirements)@) == views(old(requirements)@) + Seq::new(
            dependencies.len() as nat,
            |k: int|
                RequirementView {
                    name: dependencies[k]@.name,
                    spec: dependencies[k]@.spec,
                    required_by: current_req@.chain_below(),
                },
        ),
{
    let ghost before = views(requirements@);
    let ghost added = Seq::new(
        dependencies.len() as nat,
        |k: int|
            RequirementView {
                name: dependencies[k]@.name,
                spec: dependencies[k]@.spec,
                required_by: current_req@.chain_below(),
            },
    );
    let mut k: usize = 0;
    while k < dependencies.len()
        invariant
            k <= dependencies.len(),
            added.len() == dependencies.len(),
            forall|j: int|
                0 <= j < added.len() ==> added[j] == (RequirementView {
                    name: dependencies[j]@.name,
                    spec: dependencies[j]@.spec,
                    required_by: current_req@.chain_below(),
                }),
            views(requirements@) == before + added.take(k as int),
        decreases dependencies.len() - k,
    {
        let dep = PackageRequirement {
            name: dependencies[k].name.clone(),
            spec: dependencies[k].spec.clone(),
            required_by: current_req.chain_below(),
        };
        let ghost prior = requirements@;
        requirements.push(dep);
        proof {
            lemma_views_push(prior, dep);
        }
        k += 1;
    }
}

/// The candidates that a requirement admits, in their order.
pub fn keep_matching(versions: &Vec<PackageVersion>, req: &PackageRequirement) -> (r: Vec<
    PackageVersion,
>)
    ensures
        views(r@) == matching(views(versions@), req@),
{
    let ghost input = views(versions@);
    let ghost keep = |c: PackageVersionView| req@.admits(c.version);
    let mut out: Vec<PackageVersion> = Vec::new();
    let mut i: usize = 0;
    proof {
        reveal(Seq::filter);
    }
    while i < versions.len()
        invariant
            i <= versions.len(),
            input == views(versions@),
            keep == |c: PackageVersionView| req@.admits(c.version),
            views(out@) == input.take(i as int).filter(keep),
        decreases versions.len() - i,
    {
        proof {
            assert(input.take(i + 1) =~= input.take(i as int).push(versions[i as int]@));
            input.take(i as int).lemma_filter_push(versions[i as int]@, keep);
        }
        if req.matches(&versions[i].version) {
            let c = versions[i].clone();
            out.push(c);
        }
        i += 1;
    }
    proof {
        assert(input.take(versions.len() as int) =~= input);
    }
    out
}

/// The requirement behind a selection: the last of its chain, with the
/// chain before it; none where the chain is empty.
pub fn driver_of(v: &PackageVersion) -> (r: Option<PackageRequirement>)
    ensures
        view_of(r) == driver(v@),
{
    let n = v.required_by.len();
    if n == 0 {
        None
    } else {
        let mut chain = clone_items(&v.required_by);
        let last = chain.pop().unwrap();
        proof {
            assert(views(chain@) =~= views(v.required_by@).drop_last());
        }
        Some(PackageRequirement { name: last.name, spec: last.spec, required_by: chain })
    }
}

/// The resolver: the index, the strategy and the top-level requirements of
/// one query, and the state of its search.
pub struct PackageResolver {
    initial_requirements: Vec<PackageRequirement>,
    repo: Repository,
    strategy: Strategy,
    states: Vec<State>,
    selected: Vec<PackageVersion>,
    requirements: Vec<PackageRequirement>,
    errors: Vec<Diagnostic>,
    depth: usize,
}

impl View for PackageResolver {
    type V = SearchView;

    closed spec fn view(&self) -> SearchView {
        SearchView {
            requirements: views(self.requirements@),
            selected: views(self.selected@),
            states: views(self.states@),
            errors: views(self.errors@),
            depth: self.depth as nat,
        }
    }
}

impl PackageResolver {
    /// The index that the resolver consults.
    pub closed spec fn index(&self) -> IndexView {
        self.repo@
    }

    /// The strategy that the resolver follows.
    pub closed spec fn strategy(&self) -> Strategy {
        self.strategy
    }

    /// The top-level requirements of the query.
    pub closed spec fn initial(&self) -> Seq<RequirementView> {
        views(self.initial_requirements@)
    }

    /// Whether another resolver answers the same query: same index,
    /// strategy and top-level requirements.
    pub open spec fn same_query(&self, other: &PackageResolver) -> bool {
        &&& self.index() == other.index()
        &&& self.strategy() == other.strategy()
        &&& self.initial() == other.initial()
    }

    /// A resolver for one query, its search at the start: the top-level
    /// requirements pending, nothing selected.
    pub fn new(requirements: Vec<PackageRequirement>, repo: Repository, strategy: Strategy) -> (r:
        Self)
        ensures
            r.index() == repo@,
            r.strategy() == strategy,
            r.initial() == views(requirements@),
            r@ == SearchView::start(views(requirements@)),
    {
        let initial_requirements = clone_items(&requirements);
        let r = PackageResolver {
            initial_requirements,
            repo,
            strategy,
            states: Vec::new(),
            selected: Vec::new(),
            requirements,
            errors: Vec::new(),
            depth: 0,
        };
        proof {
            assert(views(r.states@) =~= Seq::<StateView>::empty());
            assert(views(r.selected@) =~= Seq::<PackageVersionView>::empty());
            assert(views(r.errors@) =~= Seq::<DiagnosticView>::empty());
        }
        r
    }

    /// The versions selected so far, in the order of selection.
    pub fn selected(&self) -> (r: &Vec<PackageVersion>)
        ensures
            views(r@) == self@.selected,
    {
        &self.selected
    }

    /// The pending requirements, the next to take last.
    pub fn pending(&self) -> (r: &Vec<PackageRequirement>)
        ensures
            views(r@) == self@.requirements,
    {
        &self.requirements
    }

    /// The choice points, the oldest first.
    pub fn states(&self) -> (r: &Vec<State>)
        ensures
            views(r@) == self@.states,
    {
        &self.states
    }

    /// The notes on requirements that could not be met at once.
    pub fn errors(&self) -> (r: &Vec<Diagnostic>)
        ensures
            views(r@) == self@.errors,
    {
        &self.errors
    }

    /// The number of selections made on the way to the present state.
    pub fn depth(&self) -> (r: usize)
        ensures
            r == self@.depth,
    {
        self.depth
    }

    /// The choice point for a requirement's package: the oldest one of that
    /// name; none for no requirement.
    pub fn find_state(&self, requirement: Option<&PackageRequirement>) -> (r: Option<&State>)
        ensures
            match requirement {
                Some(q) => match find_state(self@.states, q@.name) {
                    Some(t) => r matches Some(state) && state@ == self@.states[t],
                    None => r is None,
                },
                None => r is None,
            },
    {
        match requirement {
            None => None,
            Some(req) => {
                let ghost names = state_names(self@.states);
                let mut t: usize = 0;
                while t < self.states.len()
                    invariant
                        t <= self.states.len(),
                        requirement == Some(req),
                        names == state_names(views(self.states@)),
                        forall|j: int| 0 <= j < t ==> names[j] != req.name@,
                    decreases self.states.len() - t,
                {
                    if self.states[t].name == req.name {
                        proof {
                            lemma_lookup_found(names, req.name@, t as int);
                        }
                        return Some(&self.states[t]);
                    }
                    t += 1;
                }
                None
            },
        }
    }

    /// Whether a requirement's package has a choice point with candidates
    /// left.
    pub fn can_retry(&self, requirement: &PackageRequirement) -> (r: bool)
        ensures
            r == retryable(self@.states, requirement@.name),
    {
        match self.find_state(Some(requirement)) {
            Some(state) => state.possibilities.len() > 0,
            None => false,
        }
    }

    /// The requirement to go back to after a failure: walking up the chains
    /// of `current_req` and of `existing_req` in step, the first whose
    /// package has a choice point with candidates left, `current_req`'s side
    /// before the other at each level; none where no such choice point is.
    pub fn find_conflict_parent(
        &self,
        current_req: &PackageRequirement,
        existing_req: Option<&PackageRequirement>,
    ) -> (r: Option<PackageRequirement>)
        ensures
            view_of(r) == find_conflict_parent(
                self@.states,
                Some(current_req@),
                view_of(existing_req),
            ),
    {
        let mut current: Option<PackageRequirement> = Some(current_req.clone());
        let mut existing: Option<PackageRequirement> = match existing_req {
            Some(e) => Some(e.clone()),
            None => None,
        };
        let ghost goal = find_conflict_parent(
            self@.states,
            Some(current_req@),
            view_of(existing_req),
        );
        while current.is_some() || existing.is_some()
            invariant
                goal == find_conflict_parent(
                    self@.states,
                    Some(current_req@),
                    view_of(existing_req),
                ),
                goal == find_conflict_parent(self@.states, view_of(current), view_of(existing)),
            decreases height(view_of(current)) + height(view_of(existing)),
        {
            if let Some(cur) = &current {
                if self.can_retry(cur) {
                    return Some(cur.clone());
                }
            }
            if let Some(ex) = &existing {
                if self.can_retry(ex) {
                    return Some(ex.clone());
                }
            }
            current = match &current {
                Some(c) => c.parent(),
                None => None,
            };
            existing = match &existing {
                Some(e) => e.parent(),
                None => None,
            };
        }
        None
    }

    /// The failure of the search on a package, with the notes as they stand.
    pub fn failure(&self, name: String, reason: Reason) -> (r: FailedRequirement)
        ensures
            r@ == self@.failure(name@, reason),
    {
        FailedRequirement { package_name: name, reason, diagnostics: clone_items(&self.errors) }
    }

    /// Selects a version for a requirement: the selection is recorded under
    /// the requirement's name with the chain that led to it, the release's
    /// dependencies are put on the stack of pending requirements in the
    /// index's order, each with that chain, and the depth grows by one.
    pub fn select_package(
        &mut self,
        package_version: &PackageVersion,
        current_req: &PackageRequirement,
    )
        requires
            old(self)@.depth <= old(self)@.selected.len(),
            lookup(version_names(old(self)@.selected), current_req@.name) is None,
        ensures
            final(self)@ == old(self)@.select(old(self).index(), package_version@, current_req@),
            final(self)@.depth <= final(self)@.selected.len(),
            final(self).same_query(old(self)),
    {
        let pv = PackageVersion {
            name: current_req.name.clone(),
            version: package_version.version.clone(),
            required_by: current_req.chain_below(),
        };
        let dependencies = self.repo.get_dependencies(&pv);
        proof {
            let deps = self.repo@.dependencies_of(current_req@.name, package_version@.version);
            assert(Seq::new(
                dependencies.len() as nat,
                |k: int|
                    RequirementView {
                        name: dependencies[k]@.name,
                        spec: dependencies[k]@.spec,
                        required_by: current_req@.chain_below(),
                    },
            ) =~= brought_in(deps, current_req@)) by {
                assert(views(dependencies@).len() == deps.len());
                assert forall|k: int| 0 <= k < dependencies.len() implies dependencies[k]@
                    == crate::index::template(deps[k]) by {
                    assert(views(dependencies@)[k] == dependencies[k]@);
                }
            }
        }
        let ghost before = views(self.selected@);
        put_version(&mut self.selected, pv);
        proof {
            assert(views(self.selected@) == before.push(pv@));
            assert(self.depth < self.selected.len());
        }
        bring_in(&mut self.requirements, &dependencies, current_req);
        self.depth = self.depth + 1;
    }

    /// Takes the search back to what a choice point remembers: the stack of
    /// choice points is cut back below it, and the pending requirements, the
    /// selected versions and the depth are those of the choice point. A
    /// choice point that remembers nothing pending and nothing selected is
    /// never gone back to.
    pub fn reset_state(&mut self, state: &State)
        requires
            !(state@.requirements.len() == 0 && state@.selected.len() == 0),
        ensures
            final(self)@ == (SearchView {
                requirements: state@.requirements,
                selected: state@.selected,
                states: cut(old(self)@.states, state@.name),
                depth: state@.depth,
                errors: old(self)@.errors,
            }),
            final(self).same_query(old(self)),
    {
        cut_states(&mut self.states, &state.name);
        self.requirements = clone_items(&state.requirements);
        self.selected = clone_items(&state.selected);
        self.depth = state.depth;
    }

    /// Sends the search back to the choice point of a requirement's package
    /// and selects its next candidate there; the choice point stays on the
    /// stack while it has candidates left. The search fails on that package
    /// where it has no choice point or the choice point no candidate, and
    /// with `NullStateRestore` where the choice point remembers nothing
    /// pending and nothing selected. On failure the search is left as it was.
    pub fn resolve_conflict(&mut self, requirement: &PackageRequirement, reason: Reason) -> (r:
        Result<(), FailedRequirement>)
        requires
            forall|t: int|
                0 <= t < old(self)@.states.len() ==> (#[trigger] old(self)@.states[t]).tidy(),
        ensures
            match r {
                Ok(_) => old(self)@.resolve_conflict(old(self).index(), requirement@, reason)
                    == Step::Next(final(self)@) && final(self)@.tidy(),
                Err(f) => old(self)@.resolve_conflict(old(self).index(), requirement@, reason)
                    == Step::Failed(f@) && final(self)@ == old(self)@,
            },
            final(self).same_query(old(self)),
    {
        let maybe_state: Option<State> = match self.find_state(Some(requirement)) {
            Some(state) => Some(state.clone()),
            None => None,
        };
        match maybe_state {
            None => Err(self.failure(requirement.name.clone(), reason)),
            Some(state) => {
                let mut state = state;
                let ghost full = state.possibilities@;
                match state.possibilities.pop() {
                    None => Err(self.failure(requirement.name.clone(), reason)),
                    Some(selected_version) => {
                        proof {
                            lemma_views_drop_last(full);
                        }
                        if state.requirements.len() == 0 && state.selected.len() == 0 {
                            return Err(
                                self.failure(requirement.name.clone(), Reason::NullStateRestore),
                            );
                        }
                        let current_requirement = state.current_requirement.clone();
                        proof {
                            crate::search::lemma_cut_is_prefix(self@.states, state@.name);
                        }
                        self.reset_state(&state);
                        self.select_package(&selected_version, &current_requirement);
                        if state.possibilities.len() > 0 {
                            let ghost before = self.states@;
                            self.states.push(state);
                            proof {
                                lemma_views_push(before, state);
                            }
                        }
                        Ok(())
                    },
                }
            },
        }
    }

    /// One step of the search: takes the last pending requirement and deals
    /// with it. Where its package is selected, the selection either meets
    /// the requirement, and the note on the package is cleared, or the search
    /// goes back to a choice point up the chains. Where it is not, the most
    /// preferred candidate is selected and a choice point pushed, or, with
    /// no candidate, the search goes back. The search fails where there is
    /// nothing to go back to.
    pub fn step(&mut self) -> (r: Result<(), FailedRequirement>)
        requires
            old(self)@.requirements.len() > 0,
            old(self)@.tidy(),
        ensures
            match r {
                Ok(_) => old(self)@.step(old(self).index(), old(self).strategy()) == Step::Next(
                    final(self)@,
                ) && final(self)@.tidy(),
                Err(f) => old(self)@.step(old(self).index(), old(self).strategy()) == Step::Failed(
                    f@,
                ),
            },
            final(self).same_query(old(self)),
            lookup(
                version_names(old(self)@.selected),
                old(self)@.requirements.last().name,
            ) is None ==> old(self).strategy().in_order(
                candidates(
                    old(self).index(),
                    old(self).strategy(),
                    old(self)@.requirements.last(),
                ),
            ),
    {
        let ghost queue = self.requirements@;
        let req = self.requirements.pop().unwrap();
        proof {
            lemma_views_drop_last(queue);
        }
        match find_selected(&self.selected, &req.name) {
            Some(k) => {
                let standing = self.selected[k].clone();
                if req.matches(&standing.version) {
                    clear_note(&mut self.errors, &req.name);
                    Ok(())
                } else {
                    record_note(
                        &mut self.errors,
                        Diagnostic {
                            name: req.name.clone(),
                            selected_version: Some(standing.version.clone()),
                            failing_spec: req.spec.clone(),
                        },
                    );
                    let parent = req.parent();
                    let parent_can_retry = match &parent {
                        Some(p) => self.can_retry(p),
                        None => false,
                    };
                    let conflict_parent = if parent_can_retry {
                        self.find_conflict_parent(&req, None)
                    } else {
                        let existing_parent = driver_of(&standing);
                        self.find_conflict_parent(&req, existing_parent.as_ref())
                    };
                    match conflict_parent {
                        Some(p) => self.resolve_conflict(&p, Reason::Conflict),
                        None => Err(self.failure(req.name.clone(), Reason::Conflict)),
                    }
                }
            },
            None => {
                let versions = self.repo.get_versions(req.name.as_str());
                let compatible = keep_matching(&versions, &req);
                let filtered = self.strategy.filter_versions(compatible);
                let mut cands = self.strategy.sort_versions(filtered);
                let ghost all = cands@;
                if cands.len() == 0 {
                    record_note(
                        &mut self.errors,
                        Diagnostic {
                            name: req.name.clone(),
                            selected_version: None,
                            failing_spec: req.spec.clone(),
                        },
                    );
                    if req.required_by.len() == 0 {
                        Err(self.failure(req.name.clone(), Reason::NoCandidates))
                    } else {
                        match self.find_conflict_parent(&req, None) {
                            Some(p) => self.resolve_conflict(&p, Reason::NoCandidates),
                            None => Err(self.failure(req.name.clone(), Reason::NoCandidates)),
                        }
                    }
                } else {
                    let chosen = cands.pop().unwrap();
                    proof {
                        lemma_views_drop_last(all);
                    }
                    let state = State {
                        requirements: clone_items(&self.requirements),
                        selected: clone_items(&self.selected),
                        current_requirement: req.clone(),
                        possibilities: cands,
                        depth: self.depth,
                        name: req.name.clone(),
                    };
                    self.select_package(&chosen, &req);
                    let ghost before = self.states@;
                    self.states.push(state);
                    proof {
                        lemma_views_push(before, state);
                    }
                    Ok(())
                }
            },
        }
    }

    /// The query that the resolver answers.
    pub open spec fn problem(&self) -> Problem {
        Problem { index: self.index(), strategy: self.strategy(), initial: self.initial() }
    }

    /// Resolves the query: searches, from the start, for one version per
    /// package that meets every top-level requirement and every dependency
    /// of every selected release.
    ///
    /// The result is how the search ends: the selected versions in the order
    /// of selection, or the requirement that cannot be met. The selected
    /// versions answer the query. The search always ends.
    pub fn resolve(&mut self) -> (r: Result<Vec<PackageVersion>, FailedRequirement>)
        ensures
            final(self).same_query(old(self)),
            exists|fuel: nat|
                SearchView::start(old(self).initial()).run(
                    old(self).index(),
                    old(self).strategy(),
                    fuel,
                ) == Some(outcome_of(r)),
            r matches Ok(selected) ==> old(self).problem().answered_by(views(selected@)),
            r matches Ok(selected) ==> old(self).problem().top_level() ==> old(
                self,
            ).problem().chained(Seq::empty(), views(selected@)),
    {
        let ghost q = self.problem();
        let ghost start = SearchView::start(q.initial);
        let ghost mut steps: nat = 0;
        self.states = Vec::new();
        self.selected = Vec::new();
        self.errors = Vec::new();
        self.requirements = clone_items(&self.initial_requirements);
        self.depth = 0;
        proof {
            assert(views(self.states@) =~= Seq::<StateView>::empty());
            assert(views(self.selected@) =~= Seq::<PackageVersionView>::empty());
            assert(views(self.errors@) =~= Seq::<DiagnosticView>::empty());
            q.lemma_inv_at_start();
            if q.top_level() {
                q.lemma_chained_at_start();
            }
        }
        while self.requirements.len() > 0
            invariant
                self.problem() == q,
                old(self).problem() == q,
                start == SearchView::start(q.initial),
                q.inv(self@),
                q.top_level() ==> q.all_chained(self@),
                forall|fuel: nat|
                    start.run(q.index, q.strategy, steps + fuel) == #[trigger] self@.run(
                        q.index,
                        q.strategy,
                        fuel,
                    ),
            decreases potential(q.index, self@), self@.requirements.len(),
        {
            let ghost before = self@;
            proof {
                q.lemma_step_preserves(before);
                q.lemma_step_decreases(before);
                if q.top_level() {
                    q.lemma_chained_step(before);
                }
            }
            match self.step() {
                Ok(_) => {
                    proof {
                        assert forall|fuel: nat|
                            start.run(q.index, q.strategy, (steps + 1) + fuel)
                                == #[trigger] self@.run(q.index, q.strategy, fuel) by {
                            assert(start.run(q.index, q.strategy, steps + (fuel + 1))
                                == before.run(q.index, q.strategy, (fuel + 1) as nat));
                        }
                        steps = steps + 1;
                    }
                },
                Err(failure) => {
                    proof {
                        assert(start.run(q.index, q.strategy, steps + 1) == before.run(
                            q.index,
                            q.strategy,
                            1,
                        ));
                    }
                    return Err(failure);
                },
            }
        }
        proof {
            assert(start.run(q.index, q.strategy, steps + 0) == self@.run(q.index, q.strategy, 0));
            q.lemma_inv_answers(self@);
        }
        Ok(clone_items(&self.selected))
    }
}

/// How a resolution ended, as the search's outcome.
pub open spec fn outcome_of(r: Result<Vec<PackageVersion>, FailedRequirement>) -> Outcome {
    match r {
        Ok(selected) => Outcome::Resolved(views(selected@)),
        Err(failure) => Outcome::Failed(failure@),
    }
}

} // verus!
