//! The dependency resolver: turns requested package names (each with an
//! optional exact version pin) into an ordered transaction plan, or
//! fails with the offending packages named.
//!
//! Resolution is a depth-first walk. For each name, a candidate is
//! chosen from the index (priority first, version second); the
//! candidate's conflicts are checked against everything already chosen;
//! then its dependencies are resolved before the candidate itself is
//! appended to the plan, so dependencies always precede their
//! dependents. A name already satisfied by an installed package gets no
//! step; a name seen again on the walk's own path is a dependency cycle.
//! Constraints are checked as they are encountered: a later constraint
//! that the already chosen version does not satisfy fails the
//! resolution (there is no backtracking).

use vstd::prelude::*;

use crate::dependency::{spec_dep_matches, spec_parse_dep, PackageDependency};
use crate::index::{
    lemma_pick_upto, spec_candidate_ok, spec_opt_str, spec_pick_best, IndexEntryV, RepositoryIndex,
};
use crate::package::{Package, PackageV};
use crate::package_info::{PackageInfo, PackageInfoV};
use crate::plan::{InstallStep, InstallStepV, Step, StepV, TransactionPlan};
use crate::store::{spec_installed_sat, spec_load, PackageStore};
use crate::text::{spec_has_string, str_equal, vec_contains_string};

verus! {

/// One requested package: a name and an optional exact version pin.
#[derive(Debug)]
pub struct Request {
    pub name: String,
    pub pin: Option<String>,
}

/// Mathematical image of a `Request`.
pub ghost struct RequestV {
    pub name: Seq<char>,
    pub pin: Option<Seq<char>>,
}

impl View for Request {
    type V = RequestV;

    open spec fn view(&self) -> RequestV {
        RequestV {
            name: self.name@,
            pin: match self.pin {
                Some(ref p) => Some(p@),
                None => None,
            },
        }
    }
}

impl DeepView for Request {
    type V = RequestV;

    open spec fn deep_view(&self) -> RequestV {
        self@
    }
}

/// Why a resolution failed.
#[derive(Debug)]
pub enum ResolveError {
    /// No version of `name` satisfies the constraints in play.
    UnsatisfiableConstraint { name: String, constraints: Vec<String> },
    /// Two selected packages exclude each other.
    ConflictDetected { first: String, second: String },
    /// The named packages depend on each other in a cycle.
    CyclicDependency { path: Vec<String> },
    /// Removal would leave the named dependents with an unsatisfied
    /// dependency.
    DependentsBlockRemoval { name: String, dependents: Vec<String> },
}

/// Mathematical image of a `ResolveError`.
pub ghost enum ResolveErrorV {
    UnsatisfiableConstraint { name: Seq<char>, constraints: Seq<Seq<char>> },
    ConflictDetected { first: Seq<char>, second: Seq<char> },
    CyclicDependency { path: Seq<Seq<char>> },
    DependentsBlockRemoval { name: Seq<char>, dependents: Seq<Seq<char>> },
}

impl View for ResolveError {
    type V = ResolveErrorV;

    open spec fn view(&self) -> ResolveErrorV {
        match self {
            ResolveError::UnsatisfiableConstraint { name, constraints } => ResolveErrorV::UnsatisfiableConstraint {
                name: name@,
                constraints: constraints.deep_view(),
            },
            ResolveError::ConflictDetected { first, second } => ResolveErrorV::ConflictDetected {
                first: first@,
                second: second@,
            },
            ResolveError::CyclicDependency { path } => ResolveErrorV::CyclicDependency {
                path: path.deep_view(),
            },
            ResolveError::DependentsBlockRemoval { name, dependents } => ResolveErrorV::DependentsBlockRemoval {
                name: name@,
                dependents: dependents.deep_view(),
            },
        }
    }
}

/// Resolver state on the walk: the plan built so far (dependencies
/// first) and the path of names whose dependencies are being resolved.
pub ghost struct RStV {
    pub selected: Seq<InstallStepV>,
    pub visiting: Seq<InstallStepV>,
}

/// Index of the first step whose record bears `name`.
pub open spec fn spec_find_step(s: Seq<InstallStepV>, name: Seq<char>) -> Option<int>
    decreases s.len(),
{
    if s.len() == 0 {
        None
    } else if s[0].record.name == name {
        Some(0)
    } else {
        match spec_find_step(s.drop_first(), name) {
            None => None,
            Some(i) => Some(i + 1),
        }
    }
}

pub proof fn lemma_find_step(s: Seq<InstallStepV>, name: Seq<char>)
    ensures
        match spec_find_step(s, name) {
            None => forall|j: int| 0 <= j < s.len() ==> s[j].record.name != name,
            Some(i) => 0 <= i < s.len() && s[i].record.name == name && (forall|j: int|
                0 <= j < i ==> s[j].record.name != name),
        },
    decreases s.len(),
{
    if s.len() > 0 && s[0].record.name != name {
        lemma_find_step(s.drop_first(), name);
        assert forall|j: int| 1 <= j < s.len() implies s[j] == s.drop_first()[j - 1] by {}
    }
}

/// Whether version string `v` equals the pin, when one is given.
pub open spec fn spec_pin_ok(v: Seq<char>, pin: Option<Seq<char>>) -> bool {
    match pin {
        None => true,
        Some(p) => v == p,
    }
}

/// Whether one of `conflicts` names `p` or something `p` provides.
pub open spec fn spec_hits(conflicts: Seq<Seq<char>>, p: PackageInfoV) -> bool {
    exists|i: int|
        0 <= i < conflicts.len() && (#[trigger] conflicts[i] == p.name || spec_has_string(
            p.provides,
            conflicts[i],
        ))
}

/// Whether `a` and `b` exclude each other, in either direction.
pub open spec fn spec_conflicts(a: PackageInfoV, b: PackageInfoV) -> bool {
    spec_hits(a.conflicts, b) || spec_hits(b.conflicts, a)
}

/// Index of the first step whose record conflicts with `rec`.
pub open spec fn spec_first_conflict(rec: PackageInfoV, others: Seq<InstallStepV>) -> Option<int>
    decreases others.len(),
{
    if others.len() == 0 {
        None
    } else if spec_conflicts(rec, others[0].record) {
        Some(0)
    } else {
        match spec_first_conflict(rec, others.drop_first()) {
            None => None,
            Some(i) => Some(i + 1),
        }
    }
}

pub proof fn lemma_first_conflict(rec: PackageInfoV, others: Seq<InstallStepV>)
    ensures
        match spec_first_conflict(rec, others) {
            None => forall|j: int| 0 <= j < others.len() ==> !spec_conflicts(rec, others[j].record),
            Some(i) => 0 <= i < others.len() && spec_conflicts(rec, others[i].record) && (forall|
                j: int,
            |
                0 <= j < i ==> !spec_conflicts(rec, others[j].record)),
        },
    decreases others.len(),
{
    if others.len() > 0 && !spec_conflicts(rec, others[0].record) {
        lemma_first_conflict(rec, others.drop_first());
        assert forall|j: int| 1 <= j < others.len() implies others[j] == others.drop_first()[j
            - 1] by {}
    }
}

/// The name of the first already chosen package that conflicts with
/// `rec`, looking through the plan so far and then the walk's path.
pub open spec fn spec_conflict_found(rec: PackageInfoV, st: RStV) -> Option<Seq<char>> {
    match spec_first_conflict(rec, st.selected) {
        Some(i) => Some(st.selected[i].record.name),
        None => match spec_first_conflict(rec, st.visiting) {
            Some(i) => Some(st.visiting[i].record.name),
            None => None,
        },
    }
}

/// The constraint texts reported with an unsatisfiable name: the pin as
/// an exact-version constraint, and the constraint expression in play.
pub open spec fn spec_unsat_constraints(pin: Option<Seq<char>>, req: Option<Seq<char>>) -> Seq<
    Seq<char>,
> {
    (match pin {
        None => Seq::<Seq<char>>::empty(),
        Some(p) => seq!["="@ + p],
    }) + (match req {
        None => Seq::<Seq<char>>::empty(),
        Some(r) => seq![r],
    })
}

/// The names along the walk's path.
pub open spec fn spec_vis_names(vis: Seq<InstallStepV>) -> Seq<Seq<char>> {
    vis.map_values(|c: InstallStepV| c.record.name)
}

/// Resolves one name under an optional pin and an optional constraint
/// expression.
pub open spec fn spec_resolve_name(
    name: Seq<char>,
    pin: Option<Seq<char>>,
    req: Option<Seq<char>>,
    st: RStV,
    index: Seq<IndexEntryV>,
    installed: Seq<PackageV>,
    fuel: nat,
) -> Result<RStV, ResolveErrorV>
    decreases fuel, 0nat,
{
    match spec_find_step(st.selected, name) {
        Some(i) => if spec_pin_ok(st.selected[i].record.version, pin) && spec_dep_matches(
            req,
            st.selected[i].record.version,
        ) {
            Ok(st)
        } else {
            Err(
                ResolveErrorV::UnsatisfiableConstraint {
                    name,
                    constraints: spec_unsat_constraints(pin, req),
                },
            )
        },
        None => {
            if spec_find_step(st.visiting, name) is Some {
                Err(ResolveErrorV::CyclicDependency { path: spec_vis_names(st.visiting).push(name) })
            } else if spec_installed_sat(installed, name, pin, req) {
                Ok(st)
            } else {
                match spec_pick_best(index, name, pin, req) {
                    None => Err(
                        ResolveErrorV::UnsatisfiableConstraint {
                            name,
                            constraints: spec_unsat_constraints(pin, req),
                        },
                    ),
                    Some(j) => {
                        let chosen = InstallStepV {
                            record: index[j].record,
                            repo_name: index[j].repo_name,
                            priority: index[j].priority,
                        };
                        match spec_conflict_found(chosen.record, st) {
                            Some(other) => Err(
                                ResolveErrorV::ConflictDetected {
                                    first: chosen.record.name,
                                    second: other,
                                },
                            ),
                            None => {
                                if fuel == 0 {
                                    Err(
                                        ResolveErrorV::CyclicDependency {
                                            path: spec_vis_names(st.visiting).push(name),
                                        },
                                    )
                                } else {
                                    let st1 = RStV {
                                        selected: st.selected,
                                        visiting: st.visiting.push(chosen),
                                    };
                                    match spec_resolve_deps(
                                        chosen.record.dependencies,
                                        st1,
                                        index,
                                        installed,
                                        (fuel - 1) as nat,
                                    ) {
                                        Err(e) => Err(e),
                                        Ok(st2) => Ok(
                                            RStV {
                                                selected: st2.selected.push(chosen),
                                                visiting: st2.visiting.drop_last(),
                                            },
                                        ),
                                    }
                                }
                            },
                        }
                    },
                }
            }
        },
    }
}

/// Resolves each dependency-specification string in turn; blank ones are
/// skipped.
pub open spec fn spec_resolve_deps(
    deps: Seq<Seq<char>>,
    st: RStV,
    index: Seq<IndexEntryV>,
    installed: Seq<PackageV>,
    fuel: nat,
) -> Result<RStV, ResolveErrorV>
    decreases fuel, deps.len() + 1,
{
    if deps.len() == 0 {
        Ok(st)
    } else {
        match spec_parse_dep(deps.first()) {
            None => spec_resolve_deps(deps.drop_first(), st, index, installed, fuel),
            Some(d) => match spec_resolve_name(d.name, None, d.req, st, index, installed, fuel) {
                Err(e) => Err(e),
                Ok(st1) => spec_resolve_deps(deps.drop_first(), st1, index, installed, fuel),
            },
        }
    }
}

/// Resolves each request in turn.
pub open spec fn spec_resolve_requests(
    reqs: Seq<RequestV>,
    st: RStV,
    index: Seq<IndexEntryV>,
    installed: Seq<PackageV>,
    fuel: nat,
) -> Result<RStV, ResolveErrorV>
    decreases reqs.len(),
{
    if reqs.len() == 0 {
        Ok(st)
    } else {
        match spec_resolve_name(
            reqs.first().name,
            reqs.first().pin,
            None,
            st,
            index,
            installed,
            fuel,
        ) {
            Err(e) => Err(e),
            Ok(st1) => spec_resolve_requests(reqs.drop_first(), st1, index, installed, fuel),
        }
    }
}

/// The whole resolution: the install steps in dependency order, or the
/// first failure.
pub open spec fn spec_resolve(
    reqs: Seq<RequestV>,
    index: Seq<IndexEntryV>,
    installed: Seq<PackageV>,
) -> Result<Seq<StepV>, ResolveErrorV> {
    match spec_resolve_requests(
        reqs,
        RStV { selected: Seq::empty(), visiting: Seq::empty() },
        index,
        installed,
        (index.len() + 1) as nat,
    ) {
        Err(e) => Err(e),
        Ok(st) => Ok(st.selected.map_values(|c: InstallStepV| StepV::Install(c))),
    }
}

/// A successful walk leaves the path as it found it and only appends to
/// the plan.
pub proof fn lemma_name_frame(
    name: Seq<char>,
    pin: Option<Seq<char>>,
    req: Option<Seq<char>>,
    st: RStV,
    index: Seq<IndexEntryV>,
    installed: Seq<PackageV>,
    fuel: nat,
)
    ensures
        match spec_resolve_name(name, pin, req, st, index, installed, fuel) {
            Ok(st2) => st2.visiting == st.visiting && st.selected.is_prefix_of(st2.selected),
            Err(_) => true,
        },
    decreases fuel, 0nat,
{
    let r = spec_resolve_name(name, pin, req, st, index, installed, fuel);
    match spec_find_step(st.selected, name) {
        Some(_) => {
            if r is Ok {
                assert(st.selected.is_prefix_of(st.selected)) by {
                    assert(st.selected.subrange(0, st.selected.len() as int) =~= st.selected);
                }
            }
        },
        None => {
            if spec_find_step(st.visiting, name) is Some || spec_installed_sat(
                installed,
                name,
                pin,
                req,
            ) {
                if r is Ok {
                    assert(st.selected.subrange(0, st.selected.len() as int) =~= st.selected);
                }
            } else {
                match spec_pick_best(index, name, pin, req) {
                    None => {},
                    Some(j) => {
                        let chosen = InstallStepV {
                            record: index[j].record,
                            repo_name: index[j].repo_name,
                            priority: index[j].priority,
                        };
                        if spec_conflict_found(chosen.record, st) is None && fuel > 0 {
                            let st1 = RStV {
                                selected: st.selected,
                                visiting: st.visiting.push(chosen),
                            };
                            lemma_deps_frame(
                                chosen.record.dependencies,
                                st1,
                                index,
                                installed,
                                (fuel - 1) as nat,
                            );
                            match spec_resolve_deps(
                                chosen.record.dependencies,
                                st1,
                                index,
                                installed,
                                (fuel - 1) as nat,
                            ) {
                                Err(_) => {},
                                Ok(st2) => {
                                    assert(st2.visiting.drop_last() =~= st.visiting);
                                    assert(st.selected.is_prefix_of(st2.selected.push(chosen)))
                                        by {
                                        assert(st.selected =~= st2.selected.push(
                                            chosen,
                                        ).subrange(0, st.selected.len() as int));
                                    }
                                },
                            }
                        }
                    },
                }
            }
        },
    }
}

/// A successful dependency walk leaves the path as it found it and only
/// appends to the plan.
pub proof fn lemma_deps_frame(
    deps: Seq<Seq<char>>,
    st: RStV,
    index: Seq<IndexEntryV>,
    installed: Seq<PackageV>,
    fuel: nat,
)
    ensures
        match spec_resolve_deps(deps, st, index, installed, fuel) {
            Ok(st2) => st2.visiting == st.visiting && st.selected.is_prefix_of(st2.selected),
            Err(_) => true,
        },
    decreases fuel, deps.len() + 1,
{
    if deps.len() == 0 {
        assert(st.selected.subrange(0, st.selected.len() as int) =~= st.selected);
    } else {
        match spec_parse_dep(deps.first()) {
            None => {
                lemma_deps_frame(deps.drop_first(), st, index, installed, fuel);
            },
            Some(d) => {
                lemma_name_frame(d.name, None, d.req, st, index, installed, fuel);
                match spec_resolve_name(d.name, None, d.req, st, index, installed, fuel) {
                    Err(_) => {},
                    Ok(st1) => {
                        lemma_deps_frame(deps.drop_first(), st1, index, installed, fuel);
                        match spec_resolve_deps(deps.drop_first(), st1, index, installed, fuel) {
                            Err(_) => {},
                            Ok(st2) => {
                                assert(st.selected.is_prefix_of(st2.selected)) by {
                                    assert forall|k: int|
                                        0 <= k < st.selected.len() implies st2.selected[k]
                                        == st.selected[k] by {
                                        assert(st1.selected[k] == st.selected.subrange(
                                            0,
                                            st.selected.len() as int,
                                        )[k]);
                                        assert(st2.selected[k] == st1.selected.subrange(
                                            0,
                                            st1.selected.len() as int,
                                        )[k]);
                                    }
                                    assert(st.selected =~= st2.selected.subrange(
                                        0,
                                        st.selected.len() as int,
                                    ));
                                }
                            },
                        }
                    },
                }
            },
        }
    }
}

/// Exec resolver state.
struct ResolverSt {
    selected: Vec<InstallStep>,
    visiting: Vec<InstallStep>,
}

impl View for ResolverSt {
    type V = RStV;

    closed spec fn view(&self) -> RStV {
        RStV { selected: self.selected.deep_view(), visiting: self.visiting.deep_view() }
    }
}

/// Index of the first step in `v` whose record bears `name`, exactly as
/// `spec_find_step` gives it.
fn find_step_index(v: &Vec<InstallStep>, name: &str) -> (r: Option<usize>)
    ensures
        match r {
            None => spec_find_step(v.deep_view(), name@) is None,
            Some(i) => spec_find_step(v.deep_view(), name@) == Some(i as int),
        },
{
    let mut i: usize = 0;
    while i < v.len()
        invariant
            0 <= i <= v.len(),
            v.deep_view().len() == v.len(),
            forall|j: int| 0 <= j < i ==> v.deep_view()[j].record.name != name@,
        decreases v.len() - i,
    {
        proof {
            assert(v.deep_view()[i as int] == v[i as int]@);
        }
        if str_equal(v[i].record.name.as_str(), name) {
            proof {
                lemma_find_step(v.deep_view(), name@);
            }
            return Some(i);
        }
        i = i + 1;
    }
    proof {
        lemma_find_step(v.deep_view(), name@);
    }
    None
}

/// Whether one of `conflicts` names `rec` or something `rec` provides.
fn hits(conflicts: &Vec<String>, rec: &PackageInfo) -> (r: bool)
    ensures
        r == spec_hits(conflicts.deep_view(), rec@),
{
    let mut i: usize = 0;
    while i < conflicts.len()
        invariant
            0 <= i <= conflicts.len(),
            conflicts.deep_view().len() == conflicts.len(),
            forall|j: int|
                0 <= j < i ==> !(#[trigger] conflicts.deep_view()[j] == rec@.name
                    || spec_has_string(rec@.provides, conflicts.deep_view()[j])),
        decreases conflicts.len() - i,
    {
        proof {
            assert(conflicts.deep_view()[i as int] == conflicts[i as int]@);
        }
        if str_equal(conflicts[i].as_str(), rec.name.as_str()) || vec_contains_string(
            &rec.provides,
            conflicts[i].as_str(),
        ) {
            return true;
        }
        i = i + 1;
    }
    false
}

fn conflicts_exec(a: &PackageInfo, b: &PackageInfo) -> (r: bool)
    ensures
        r == spec_conflicts(a@, b@),
{
    hits(&a.conflicts, b) || hits(&b.conflicts, a)
}

/// Index of the first step in `others` whose record conflicts with
/// `rec`, exactly as `spec_first_conflict` gives it.
fn first_conflict(rec: &PackageInfo, others: &Vec<InstallStep>) -> (r: Option<usize>)
    ensures
        match r {
            None => spec_first_conflict(rec@, others.deep_view()) is None,
            Some(i) => spec_first_conflict(rec@, others.deep_view()) == Some(i as int),
        },
{
    let mut i: usize = 0;
    while i < others.len()
        invariant
            0 <= i <= others.len(),
            others.deep_view().len() == others.len(),
            forall|j: int| 0 <= j < i ==> !spec_conflicts(rec@, others.deep_view()[j].record),
        decreases others.len() - i,
    {
        proof {
            assert(others.deep_view()[i as int] == others[i as int]@);
        }
        if conflicts_exec(rec, &others[i].record) {
            proof {
                lemma_first_conflict(rec@, others.deep_view());
            }
            return Some(i);
        }
        i = i + 1;
    }
    proof {
        lemma_first_conflict(rec@, others.deep_view());
    }
    None
}

/// The constraint texts reported with an unsatisfiable name.
fn unsat_constraints(pin: Option<&str>, req: Option<&str>) -> (r: Vec<String>)
    ensures
        r.deep_view() == spec_unsat_constraints(spec_opt_str(pin), spec_opt_str(req)),
{
    let mut r: Vec<String> = Vec::new();
    match pin {
        None => {},
        Some(p) => {
            let mut s = String::new();
            s.append("=");
            s.append(p);
            proof {
                assert(s@ =~= "="@ + p@);
            }
            r.push(s);
        },
    }
    match req {
        None => {},
        Some(q) => {
            r.push(q.to_owned());
        },
    }
    proof {
        assert(r.deep_view() =~= spec_unsat_constraints(spec_opt_str(pin), spec_opt_str(req)));
    }
    r
}

/// The names along the walk's path, with `last` appended.
fn path_of(vis: &Vec<InstallStep>, last: &str) -> (r: Vec<String>)
    ensures
        r.deep_view() == spec_vis_names(vis.deep_view()).push(last@),
{
    let mut r: Vec<String> = Vec::new();
    let mut i: usize = 0;
    while i < vis.len()
        invariant
            0 <= i <= vis.len(),
            vis.deep_view().len() == vis.len(),
            r.deep_view() =~= spec_vis_names(vis.deep_view()).take(i as int),
        decreases vis.len() - i,
    {
        proof {
            assert(vis.deep_view()[i as int] == vis[i as int]@);
        }
        let ghost pre = r.deep_view();
        r.push(vis[i].record.name.clone());
        proof {
            assert(r.deep_view() =~= pre.push(vis.deep_view()[i as int].record.name));
            assert(r.deep_view() =~= spec_vis_names(vis.deep_view()).take(i + 1));
        }
        i = i + 1;
    }
    let ghost pre = r.deep_view();
    r.push(last.to_owned());
    proof {
        assert(spec_vis_names(vis.deep_view()).take(vis.len() as int) =~= spec_vis_names(
            vis.deep_view(),
        ));
        assert(r.deep_view() =~= pre.push(last@));
    }
    r
}

/// Resolves one name, growing the plan in `st`; mirrors
/// `spec_resolve_name` exactly.
fn resolve_name(
    index: &RepositoryIndex,
    installed: &PackageStore,
    name: &str,
    pin: Option<&str>,
    req: Option<&str>,
    st: &mut ResolverSt,
    fuel: usize,
) -> (r: Result<(), ResolveError>)
    ensures
        match r {
            Ok(_) => spec_resolve_name(
                name@,
                spec_opt_str(pin),
                spec_opt_str(req),
                old(st)@,
                index@,
                installed@,
                fuel as nat,
            ) == Result::<RStV, ResolveErrorV>::Ok(final(st)@),
            Err(e) => spec_resolve_name(
                name@,
                spec_opt_str(pin),
                spec_opt_str(req),
                old(st)@,
                index@,
                installed@,
                fuel as nat,
            ) == Result::<RStV, ResolveErrorV>::Err(e@),
        },
    decreases fuel,
{
    let ghost gname = name@;
    let ghost gpin = spec_opt_str(pin);
    let ghost greq = spec_opt_str(req);
    let ghost st0 = st@;
    match find_step_index(&st.selected, name) {
        Some(i) => {
            proof {
                lemma_find_step(st@.selected, gname);
            }
            let sel_version_ok = {
                let v = &st.selected[i].record.version;
                let pin_ok = match pin {
                    None => true,
                    Some(p) => str_equal(v.as_str(), p),
                };
                let req_ok = match req {
                    None => true,
                    Some(q) => crate::dependency::req_matches(q, v.as_str()),
                };
                proof {
                    assert(st@.selected[i as int] == st.selected[i as int]@);
                }
                pin_ok && req_ok
            };
            if sel_version_ok {
                Ok(())
            } else {
                Err(
                    ResolveError::UnsatisfiableConstraint {
                        name: name.to_owned(),
                        constraints: unsat_constraints(pin, req),
                    },
                )
            }
        },
        None => {
            if let Some(_) = find_step_index(&st.visiting, name) {
                return Err(ResolveError::CyclicDependency { path: path_of(&st.visiting, name) });
            }
            if installed.installed_satisfies(name, pin, req) {
                return Ok(());
            }
            match index.pick_best(name, pin, req) {
                None => Err(
                    ResolveError::UnsatisfiableConstraint {
                        name: name.to_owned(),
                        constraints: unsat_constraints(pin, req),
                    },
                ),
                Some(j) => {
                    proof {
                        assert(index@.len() == index.entries@.len());
                        lemma_pick_upto(index@, index@.len() as int, gname, gpin, greq);
                        assert(index@[j as int] == index.entries[j as int]@);
                    }
                    let entry = &index.entries[j];
                    let chosen = InstallStep {
                        record: entry.record.clone(),
                        repo_name: entry.repo_name.clone(),
                        priority: entry.priority,
                    };
                    let ghost chosenv = chosen@;
                    proof {
                        assert(chosenv == (InstallStepV {
                            record: index@[j as int].record,
                            repo_name: index@[j as int].repo_name,
                            priority: index@[j as int].priority,
                        }));
                    }
                    match first_conflict(&chosen.record, &st.selected) {
                        Some(k) => {
                            proof {
                                lemma_first_conflict(chosenv.record, st@.selected);
                                assert(st@.selected[k as int] == st.selected[k as int]@);
                            }
                            return Err(
                                ResolveError::ConflictDetected {
                                    first: chosen.record.name.clone(),
                                    second: st.selected[k].record.name.clone(),
                                },
                            );
                        },
                        None => {},
                    }
                    match first_conflict(&chosen.record, &st.visiting) {
                        Some(k) => {
                            proof {
                                lemma_first_conflict(chosenv.record, st@.visiting);
                                assert(st@.visiting[k as int] == st.visiting[k as int]@);
                            }
                            return Err(
                                ResolveError::ConflictDetected {
                                    first: chosen.record.name.clone(),
                                    second: st.visiting[k].record.name.clone(),
                                },
                            );
                        },
                        None => {},
                    }
                    if fuel == 0 {
                        return Err(
                            ResolveError::CyclicDependency { path: path_of(&st.visiting, name) },
                        );
                    }
                    st.visiting.push(chosen.clone());
                    let ghost st1 = st@;
                    proof {
                        assert(st1.visiting =~= st0.visiting.push(chosenv));
                        assert(st1 == (RStV {
                            selected: st0.selected,
                            visiting: st0.visiting.push(chosenv),
                        }));
                    }
                    let ghost depsv = chosenv.record.dependencies;
                    let ghost fm1 = (fuel - 1) as nat;
                    let ndeps = chosen.record.dependencies.len();
                    proof {
                        assert(depsv.len() == ndeps as int);
                        assert(depsv.skip(0) =~= depsv);
                    }
                    proof {
                        assert(spec_resolve_name(
                            gname,
                            gpin,
                            greq,
                            st0,
                            index@,
                            installed@,
                            fuel as nat,
                        ) == (match spec_resolve_deps(depsv, st1, index@, installed@, fm1) {
                            Err(e) => Result::<RStV, ResolveErrorV>::Err(e),
                            Ok(st2) => Result::<RStV, ResolveErrorV>::Ok(
                                (RStV {
                                    selected: st2.selected.push(chosenv),
                                    visiting: st2.visiting.drop_last(),
                                }),
                            ),
                        }));
                    }
                    let mut di: usize = 0;
                    while di < ndeps
                        invariant
                            0 <= di <= ndeps,
                            gname == name@,
                            gpin == spec_opt_str(pin),
                            greq == spec_opt_str(req),
                            st0 == old(st)@,
                            depsv == chosen.record.dependencies.deep_view(),
                            depsv.len() == ndeps as int,
                            ndeps == chosen.record.dependencies.len(),
                            chosen@ == chosenv,
                            fm1 == (fuel - 1) as nat,
                            fuel >= 1,
                            index@.len() == index.entries@.len(),
                            spec_resolve_name(
                                gname,
                                gpin,
                                greq,
                                st0,
                                index@,
                                installed@,
                                fuel as nat,
                            ) == (match spec_resolve_deps(depsv, st1, index@, installed@, fm1) {
                                Err(e) => Result::<RStV, ResolveErrorV>::Err(e),
                                Ok(st2) => Result::<RStV, ResolveErrorV>::Ok(
                                    (RStV {
                                        selected: st2.selected.push(chosenv),
                                        visiting: st2.visiting.drop_last(),
                                    }),
                                ),
                            }),
                            spec_resolve_deps(depsv, st1, index@, installed@, fm1)
                                == spec_resolve_deps(
                                depsv.skip(di as int),
                                st@,
                                index@,
                                installed@,
                                fm1,
                            ),
                        decreases ndeps - di,
                    {
                        proof {
                            assert(depsv.skip(di as int).first() == depsv[di as int]);
                            assert(depsv[di as int] == chosen.record.dependencies[di as int]@);
                            assert(depsv.skip(di as int).drop_first() =~= depsv.skip(di + 1));
                        }
                        match PackageDependency::from_string(
                            chosen.record.dependencies[di].as_str(),
                        ) {
                            None => {},
                            Some(d) => {
                                let dreq: Option<&str> = match &d.version_req {
                                    None => None,
                                    Some(s) => Some(s.as_str()),
                                };
                                proof {
                                    assert(spec_opt_str(dreq) == d@.req);
                                    assert(spec_opt_str(None::<&str>) == None::<Seq<char>>);
                                }
                                match resolve_name(
                                    index,
                                    installed,
                                    d.name.as_str(),
                                    None,
                                    dreq,
                                    st,
                                    fuel - 1,
                                ) {
                                    Ok(_) => {},
                                    Err(e) => {
                                        return Err(e);
                                    },
                                }
                            },
                        }
                        di = di + 1;
                    }
                    proof {
                        assert(depsv.skip(ndeps as int) =~= Seq::<Seq<char>>::empty());
                        assert(spec_resolve_deps(depsv, st1, index@, installed@, fm1)
                            == Result::<RStV, ResolveErrorV>::Ok(st@));
                        lemma_deps_frame(depsv, st1, index@, installed@, fm1);
                        assert(st@.visiting == st1.visiting);
                        assert(st@.visiting.len() == st0.visiting.len() + 1);
                    }
                    let ghost st2 = st@;
                    st.visiting.pop();
                    proof {
                        assert(st@.visiting =~= st2.visiting.drop_last());
                    }
                    let ghost pre_sel = st@.selected;
                    st.selected.push(chosen);
                    proof {
                        assert(st@.selected =~= st2.selected.push(chosenv));
                        assert(st@ == (RStV {
                            selected: st2.selected.push(chosenv),
                            visiting: st2.visiting.drop_last(),
                        }));
                    }
                    Ok(())
                },
            }
        },
    }
}

/// The request a command-line argument denotes: everything before the
/// first `@` is the name, anything after it is an exact version pin.
pub open spec fn spec_parse_request(s: Seq<char>) -> RequestV {
    match crate::text::spec_find_char(s, '@') {
        None => RequestV { name: s, pin: None },
        Some(i) => RequestV { name: s.take(i), pin: Some(s.skip(i + 1)) },
    }
}

/// Parses a `name` or `name@version` argument into a request.
pub fn parse_request(s: &str) -> (r: Request)
    ensures
        r@ == spec_parse_request(s@),
{
    match crate::text::find_char(s, '@') {
        None => Request { name: s.to_owned(), pin: None },
        Some(i) => {
            proof {
                crate::text::lemma_find_char(s@, '@');
            }
            let n = s.unicode_len();
            Request {
                name: s.substring_char(0, i).to_owned(),
                pin: Some(s.substring_char(i + 1, n).to_owned()),
            }
        },
    }
}

/// Whether `p` depends on `name` (by the dependency's name alone).
pub open spec fn spec_depends_on(p: PackageV, name: Seq<char>) -> bool {
    exists|i: int| 0 <= i < p.dependencies.len() && (#[trigger] p.dependencies[i]).name == name
}

/// Whether `p` depends on one of the names of `rset`.
pub open spec fn spec_deps_hit(p: PackageV, rset: Seq<Seq<char>>) -> bool {
    exists|i: int|
        0 <= i < p.dependencies.len() && spec_has_string(
            rset,
            (#[trigger] p.dependencies[i]).name,
        )
}

/// Index of the first installed package outside `rset` that depends on a
/// name of `rset`.
pub open spec fn spec_find_dependent(installed: Seq<PackageV>, rset: Seq<Seq<char>>) -> Option<
    int,
>
    decreases installed.len(),
{
    if installed.len() == 0 {
        None
    } else if !spec_has_string(rset, installed[0].name) && spec_deps_hit(installed[0], rset) {
        Some(0)
    } else {
        match spec_find_dependent(installed.drop_first(), rset) {
            None => None,
            Some(i) => Some(i + 1),
        }
    }
}

pub proof fn lemma_find_dependent(installed: Seq<PackageV>, rset: Seq<Seq<char>>)
    ensures
        match spec_find_dependent(installed, rset) {
            None => forall|j: int|
                0 <= j < installed.len() ==> !(!spec_has_string(rset, installed[j].name)
                    && spec_deps_hit(#[trigger] installed[j], rset)),
            Some(i) => 0 <= i < installed.len() && !spec_has_string(rset, installed[i].name)
                && spec_deps_hit(installed[i], rset) && (forall|j: int|
                0 <= j < i ==> !(!spec_has_string(rset, installed[j].name) && spec_deps_hit(
                    #[trigger] installed[j],
                    rset,
                ))),
        },
    decreases installed.len(),
{
    if installed.len() > 0 && !(!spec_has_string(rset, installed[0].name) && spec_deps_hit(
        installed[0],
        rset,
    )) {
        lemma_find_dependent(installed.drop_first(), rset);
        assert forall|j: int| 1 <= j < installed.len() implies installed[j]
            == installed.drop_first()[j - 1] by {}
    }
}

/// The reverse-dependency closure of `rset` over the installed
/// packages: names of packages that would be left with an unsatisfied
/// dependency are appended until none remains (or the fuel runs out,
/// which a fuel of the store's size prevents).
pub open spec fn spec_closure(
    installed: Seq<PackageV>,
    rset: Seq<Seq<char>>,
    fuel: nat,
) -> Seq<Seq<char>>
    decreases fuel,
{
    if fuel == 0 {
        rset
    } else {
        match spec_find_dependent(installed, rset) {
            None => rset,
            Some(i) => spec_closure(installed, rset.push(installed[i].name), (fuel - 1) as nat),
        }
    }
}

/// The removal plan: `Remove` steps for the requested names and (in
/// force mode) their dependent closure, dependents ahead of what they
/// depend on; without force mode, any dependents block the removal.
pub open spec fn spec_remove_plan(
    names: Seq<Seq<char>>,
    installed: Seq<PackageV>,
    force: bool,
) -> Result<Seq<StepV>, ResolveErrorV> {
    let closure = spec_closure(installed, names, installed.len() as nat);
    if !force && closure.len() > names.len() {
        Err(
            ResolveErrorV::DependentsBlockRemoval {
                name: if names.len() > 0 {
                    names.first()
                } else {
                    Seq::empty()
                },
                dependents: closure.skip(names.len() as int),
            },
        )
    } else {
        Ok(closure.reverse().map_values(|n: Seq<char>| StepV::Remove(n)))
    }
}

/// The names of the given records that conflict with another record of
/// the same list, from position `k` on.
pub open spec fn spec_conflict_names_from(pkgs: Seq<PackageInfoV>, k: int) -> Seq<Seq<char>>
    decreases pkgs.len() - k,
{
    if k < 0 || k >= pkgs.len() {
        Seq::empty()
    } else {
        let rest = spec_conflict_names_from(pkgs, k + 1);
        if spec_any_conflict(pkgs, k) {
            seq![pkgs[k].name] + rest
        } else {
            rest
        }
    }
}

/// Whether record `k` conflicts with some other record of the list.
pub open spec fn spec_any_conflict(pkgs: Seq<PackageInfoV>, k: int) -> bool {
    exists|j: int| 0 <= j < pkgs.len() && j != k && spec_conflicts(pkgs[k], #[trigger] pkgs[j])
}

/// The names of the given records that conflict with another record of
/// the same list.
pub open spec fn spec_conflict_names(pkgs: Seq<PackageInfoV>) -> Seq<Seq<char>> {
    spec_conflict_names_from(pkgs, 0)
}

fn depends_on_exec(p: &Package, name: &str) -> (r: bool)
    ensures
        r == spec_depends_on(p@, name@),
{
    let mut i: usize = 0;
    while i < p.dependencies.len()
        invariant
            0 <= i <= p.dependencies.len(),
            p@.dependencies.len() == p.dependencies.len(),
            forall|j: int| 0 <= j < i ==> p@.dependencies[j].name != name@,
        decreases p.dependencies.len() - i,
    {
        proof {
            assert(p@.dependencies[i as int] == p.dependencies[i as int]@);
        }
        if str_equal(p.dependencies[i].name.as_str(), name) {
            proof {
                assert(spec_depends_on(p@, name@));
            }
            return true;
        }
        i = i + 1;
    }
    false
}

fn deps_hit_exec(p: &Package, rset: &Vec<String>) -> (r: bool)
    ensures
        r == spec_deps_hit(p@, rset.deep_view()),
{
    let mut i: usize = 0;
    while i < p.dependencies.len()
        invariant
            0 <= i <= p.dependencies.len(),
            p@.dependencies.len() == p.dependencies.len(),
            forall|j: int|
                0 <= j < i ==> !spec_has_string(
                    rset.deep_view(),
                    #[trigger] p@.dependencies[j].name,
                ),
        decreases p.dependencies.len() - i,
    {
        proof {
            assert(p@.dependencies[i as int] == p.dependencies[i as int]@);
        }
        if vec_contains_string(rset, p.dependencies[i].name.as_str()) {
            proof {
                assert(spec_deps_hit(p@, rset.deep_view()));
            }
            return true;
        }
        i = i + 1;
    }
    false
}

fn find_dependent_exec(installed: &PackageStore, rset: &Vec<String>) -> (r: Option<usize>)
    ensures
        match r {
            None => spec_find_dependent(installed@, rset.deep_view()) is None,
            Some(i) => spec_find_dependent(installed@, rset.deep_view()) == Some(i as int),
        },
{
    let mut i: usize = 0;
    let n = installed.packages.len();
    proof {
        assert(installed@.len() == n as int);
    }
    while i < n
        invariant
            0 <= i <= n,
            n == installed.packages.len(),
            installed@.len() == n as int,
            forall|j: int|
                0 <= j < i ==> !(!spec_has_string(rset.deep_view(), installed@[j].name)
                    && spec_deps_hit(#[trigger] installed@[j], rset.deep_view())),
        decreases n - i,
    {
        proof {
            assert(installed@[i as int] == installed.packages[i as int]@);
        }
        let p = &installed.packages[i];
        if !vec_contains_string(rset, p.name.as_str()) && deps_hit_exec(p, rset) {
            proof {
                lemma_find_dependent(installed@, rset.deep_view());
            }
            return Some(i);
        }
        i = i + 1;
    }
    proof {
        lemma_find_dependent(installed@, rset.deep_view());
    }
    None
}

/// The dependency resolver, holding a snapshot of the installed
/// packages.
#[derive(Debug)]
pub struct DependencyResolver {
    pub installed_packages: PackageStore,
}

impl View for DependencyResolver {
    type V = Seq<PackageV>;

    open spec fn view(&self) -> Seq<PackageV> {
        self.installed_packages@
    }
}

impl DependencyResolver {
    /// A resolver that knows of no installed packages.
    pub fn new() -> (r: Self)
        ensures
            r@ == Seq::<PackageV>::empty(),
    {
        DependencyResolver { installed_packages: PackageStore::new() }
    }

    /// Loads the given installed packages into the snapshot, in order,
    /// each replacing any earlier entry of the same name.
    pub fn load_installed_packages(&mut self, packages: Vec<Package>)
        ensures
            final(self)@ == spec_load(old(self)@, packages.deep_view()),
    {
        let ghost pkgs0 = packages.deep_view();
        let mut packages = packages;
        proof {
            assert(spec_load(self@, packages.deep_view()) == spec_load(old(self)@, pkgs0));
        }
        while packages.len() > 0
            invariant
                spec_load(self@, packages.deep_view()) == spec_load(old(self)@, pkgs0),
            decreases packages.len(),
        {
            let ghost pre = packages.deep_view();
            let p = packages.remove(0);
            proof {
                assert(p@ == pre.first());
                assert(packages.deep_view() =~= pre.drop_first());
            }
            self.installed_packages.record(p);
        }
        proof {
            assert(packages.deep_view().len() == 0);
            assert(spec_load(self@, packages.deep_view()) == self@);
        }
    }

    /// Resolves the requested names against the index and the installed
    /// snapshot into a transaction plan, exactly as `spec_resolve` gives
    /// it.
    pub fn resolve_dependencies(
        &self,
        requests: &Vec<Request>,
        index: &RepositoryIndex,
    ) -> (r: Result<TransactionPlan, ResolveError>)
        requires
            index@.len() < usize::MAX,
        ensures
            match r {
                Ok(p) => spec_resolve(requests.deep_view(), index@, self@) == Result::<
                    Seq<StepV>,
                    ResolveErrorV,
                >::Ok(p@),
                Err(e) => spec_resolve(requests.deep_view(), index@, self@) == Result::<
                    Seq<StepV>,
                    ResolveErrorV,
                >::Err(e@),
            },
    {
        let installed = &self.installed_packages;
        let mut st = ResolverSt { selected: Vec::new(), visiting: Vec::new() };
        let ghost st0 = RStV { selected: Seq::empty(), visiting: Seq::empty() };
        proof {
            assert(st@.selected =~= st0.selected);
            assert(st@.visiting =~= st0.visiting);
        }
        proof {
            assert(index@.len() == index.entries@.len());
        }
        let fuel = index.entries.len() + 1;
        let ghost gfuel = (index@.len() + 1) as nat;
        let ghost reqsv = requests.deep_view();
        proof {
            assert(fuel as nat == gfuel);
            assert(reqsv.skip(0) =~= reqsv);
        }
        let mut i: usize = 0;
        while i < requests.len()
            invariant
                0 <= i <= requests.len(),
                reqsv == requests.deep_view(),
                reqsv.len() == requests.len(),
                fuel as nat == gfuel,
                gfuel == (index@.len() + 1) as nat,
                st0 == (RStV {
                    selected: Seq::<InstallStepV>::empty(),
                    visiting: Seq::<InstallStepV>::empty(),
                }),
                index@.len() == index.entries@.len(),
                installed == &self.installed_packages,
                spec_resolve_requests(reqsv, st0, index@, installed@, gfuel)
                    == spec_resolve_requests(
                    reqsv.skip(i as int),
                    st@,
                    index@,
                    installed@,
                    gfuel,
                ),
            decreases requests.len() - i,
        {
            proof {
                assert(reqsv.skip(i as int).first() == reqsv[i as int]);
                assert(reqsv[i as int] == requests[i as int]@);
                assert(reqsv.skip(i as int).drop_first() =~= reqsv.skip(i + 1));
            }
            let req = &requests[i];
            let pin: Option<&str> = match &req.pin {
                None => None,
                Some(p) => Some(p.as_str()),
            };
            proof {
                assert(spec_opt_str(pin) == req@.pin);
                assert(spec_opt_str(None::<&str>) == None::<Seq<char>>);
            }
            match resolve_name(index, installed, req.name.as_str(), pin, None, &mut st, fuel) {
                Ok(_) => {},
                Err(e) => {
                    return Err(e);
                },
            }
            i = i + 1;
        }
        proof {
            assert(reqsv.skip(requests.len() as int) =~= Seq::<RequestV>::empty());
            assert(spec_resolve_requests(reqsv, st0, index@, installed@, gfuel) == Result::<
                RStV,
                ResolveErrorV,
            >::Ok(st@));
        }
        let mut steps: Vec<Step> = Vec::new();
        let ghost selv = st@.selected;
        let mut k: usize = 0;
        proof {
            assert(selv.len() == st.selected.len());
        }
        while k < st.selected.len()
            invariant
                0 <= k <= st.selected.len(),
                selv == st@.selected,
                selv.len() == st.selected.len(),
                steps.deep_view() =~= selv.map_values(|c: InstallStepV| StepV::Install(c)).take(
                    k as int,
                ),
            decreases st.selected.len() - k,
        {
            proof {
                assert(selv[k as int] == st.selected[k as int]@);
            }
            let ghost pre = steps.deep_view();
            steps.push(Step::Install(st.selected[k].clone()));
            proof {
                assert(steps.deep_view() =~= pre.push(StepV::Install(selv[k as int])));
                assert(steps.deep_view() =~= selv.map_values(
                    |c: InstallStepV| StepV::Install(c),
                ).take(k + 1));
            }
            k = k + 1;
        }
        let plan = TransactionPlan { steps };
        proof {
            assert(selv.map_values(|c: InstallStepV| StepV::Install(c)).take(selv.len() as int)
                =~= selv.map_values(|c: InstallStepV| StepV::Install(c)));
            assert(plan@ == selv.map_values(|c: InstallStepV| StepV::Install(c)));
        }
        Ok(plan)
    }

    /// Resolves a removal request: `Remove` steps for the requested
    /// names (dependents ahead of what they depend on), or, without
    /// force mode, a failure naming the dependents that block it.
    pub fn resolve_removal(&self, names: &Vec<String>, force: bool) -> (r: Result<
        TransactionPlan,
        ResolveError,
    >)
        ensures
            match r {
                Ok(p) => spec_remove_plan(names.deep_view(), self@, force) == Result::<
                    Seq<StepV>,
                    ResolveErrorV,
                >::Ok(p@),
                Err(e) => spec_remove_plan(names.deep_view(), self@, force) == Result::<
                    Seq<StepV>,
                    ResolveErrorV,
                >::Err(e@),
            },
    {
        let installed = &self.installed_packages;
        let ghost names0 = names.deep_view();
        let mut rset = crate::text::clone_strings(names);
        let mut fuel = installed.packages.len();
        let ghost gclosure = spec_closure(installed@, names0, installed@.len() as nat);
        proof {
            assert(installed@.len() == installed.packages@.len());
            assert(spec_closure(installed@, rset.deep_view(), fuel as nat) == gclosure);
        }
        let mut done = false;
        while fuel > 0 && !done
            invariant
                installed == &self.installed_packages,
                spec_closure(installed@, rset.deep_view(), fuel as nat) == gclosure,
                rset.deep_view().len() >= names0.len(),
                rset.deep_view().take(names0.len() as int) == names0,
                done ==> spec_find_dependent(installed@, rset.deep_view()) is None,
            decreases fuel + (if done {
                0int
            } else {
                1int
            }),
        {
            match find_dependent_exec(installed, &rset) {
                None => {
                    done = true;
                },
                Some(i) => {
                    proof {
                        lemma_find_dependent(installed@, rset.deep_view());
                        assert(installed@[i as int] == installed.packages[i as int]@);
                    }
                    let ghost pre = rset.deep_view();
                    rset.push(installed.packages[i].name.clone());
                    proof {
                        assert(rset.deep_view() =~= pre.push(installed@[i as int].name));
                        assert(rset.deep_view().take(names0.len() as int) =~= pre.take(
                            names0.len() as int,
                        ));
                    }
                    fuel = fuel - 1;
                },
            }
        }
        proof {
            assert(spec_closure(installed@, rset.deep_view(), fuel as nat) == rset.deep_view());
            assert(rset.deep_view() == gclosure);
        }
        let base = names.len();
        proof {
            assert(names0.len() == base as int);
        }
        if !force && rset.len() > base {
            let name = if base > 0 {
                proof {
                    assert(names0.first() == names[0]@);
                }
                names[0].clone()
            } else {
                String::new()
            };
            let mut dependents: Vec<String> = Vec::new();
            let mut k: usize = base;
            proof {
                assert(rset.deep_view().len() == rset.len());
                assert(dependents.deep_view() =~= gclosure.subrange(base as int, base as int));
            }
            while k < rset.len()
                invariant
                    base <= k <= rset.len(),
                    rset.deep_view() == gclosure,
                    rset.deep_view().len() == rset.len(),
                    dependents.deep_view() =~= gclosure.subrange(base as int, k as int),
                decreases rset.len() - k,
            {
                let ghost pre = dependents.deep_view();
                dependents.push(rset[k].clone());
                proof {
                    assert(dependents.deep_view() =~= pre.push(gclosure[k as int]));
                    assert(dependents.deep_view() =~= gclosure.subrange(base as int, k + 1));
                }
                k = k + 1;
            }
            proof {
                assert(gclosure.subrange(base as int, gclosure.len() as int) =~= gclosure.skip(
                    base as int,
                ));
            }
            return Err(ResolveError::DependentsBlockRemoval { name, dependents });
        }
        let mut steps: Vec<Step> = Vec::new();
        let ghost goal = gclosure.reverse().map_values(|n: Seq<char>| StepV::Remove(n));
        let mut k: usize = rset.len();
        proof {
            assert(rset.deep_view().len() == rset.len());
            assert(steps.deep_view() =~= goal.take(0));
        }
        while k > 0
            invariant
                0 <= k <= rset.len(),
                rset.deep_view() == gclosure,
                rset.deep_view().len() == rset.len(),
                goal == gclosure.reverse().map_values(|n: Seq<char>| StepV::Remove(n)),
                steps.deep_view() =~= goal.take(rset.len() - k),
            decreases k,
        {
            k = k - 1;
            let ghost pre = steps.deep_view();
            steps.push(Step::Remove(rset[k].clone()));
            proof {
                assert(goal[rset.len() - k - 1] == StepV::Remove(gclosure[k as int]));
                assert(steps.deep_view() =~= pre.push(StepV::Remove(gclosure[k as int])));
                assert(steps.deep_view() =~= goal.take(rset.len() - k));
            }
        }
        let plan = TransactionPlan { steps };
        proof {
            assert(goal.take(rset.len() as int) =~= goal);
            assert(plan@ == goal);
        }
        Ok(plan)
    }

    /// The names of the given records that conflict with another record
    /// of the same list.
    pub fn check_conflicts(&self, packages: &Vec<PackageInfo>) -> (r: Vec<String>)
        ensures
            r.deep_view() == spec_conflict_names(packages.deep_view()),
    {
        let ghost pkgs = packages.deep_view();
        let mut acc: Vec<String> = Vec::new();
        let mut k: usize = 0;
        proof {
            assert(acc.deep_view() + spec_conflict_names_from(pkgs, 0) =~= spec_conflict_names(
                pkgs,
            ));
        }
        while k < packages.len()
            invariant
                0 <= k <= packages.len(),
                pkgs == packages.deep_view(),
                pkgs.len() == packages.len(),
                acc.deep_view() + spec_conflict_names_from(pkgs, k as int) == spec_conflict_names(
                    pkgs,
                ),
            decreases packages.len() - k,
        {
            let mut found = false;
            let mut j: usize = 0;
            while j < packages.len()
                invariant
                    0 <= j <= packages.len(),
                    0 <= k < packages.len(),
                    pkgs == packages.deep_view(),
                    pkgs.len() == packages.len(),
                    found ==> spec_any_conflict(pkgs, k as int),
                    !found ==> forall|l: int|
                        0 <= l < j && l != k ==> !spec_conflicts(
                            pkgs[k as int],
                            #[trigger] pkgs[l],
                        ),
                decreases packages.len() - j + (if found {
                    0int
                } else {
                    1int
                }),
            {
                if j != k && !found {
                    proof {
                        assert(pkgs[j as int] == packages[j as int]@);
                        assert(pkgs[k as int] == packages[k as int]@);
                    }
                    if conflicts_exec(&packages[k], &packages[j]) {
                        found = true;
                    } else {
                        j = j + 1;
                    }
                } else {
                    j = j + 1;
                }
            }
            proof {
                if !found {
                    assert(!spec_any_conflict(pkgs, k as int));
                }
            }
            if found {
                proof {
                    assert(pkgs[k as int] == packages[k as int]@);
                }
                let ghost pre = acc.deep_view();
                acc.push(packages[k].name.clone());
                proof {
                    assert(acc.deep_view() =~= pre.push(pkgs[k as int].name));
                    assert(acc.deep_view() + spec_conflict_names_from(pkgs, k + 1) =~= pre
                        + spec_conflict_names_from(pkgs, k as int));
                }
            }
            k = k + 1;
        }
        proof {
            assert(spec_conflict_names_from(pkgs, packages.len() as int) =~= Seq::<
                Seq<char>,
            >::empty());
            assert(acc.deep_view() =~= spec_conflict_names(pkgs));
        }
        acc
    }

    /// The installed packages that depend on `package_name`.
    pub fn find_reverse_dependencies(&self, package_name: &str) -> (r: Vec<Package>)
        ensures
            r.deep_view() == self@.filter(|p: PackageV| spec_depends_on(p, package_name@)),
    {
        let ghost pred = |p: PackageV| spec_depends_on(p, package_name@);
        let installed = &self.installed_packages;
        let mut acc: Vec<Package> = Vec::new();
        let mut i: usize = 0;
        proof {
            assert(installed@.take(0) =~= Seq::<PackageV>::empty());
            assert(acc.deep_view() =~= installed@.take(0).filter(pred));
        }
        while i < installed.packages.len()
            invariant
                0 <= i <= installed.packages.len(),
                installed == &self.installed_packages,
                installed@.len() == installed.packages.len(),
                pred == (|p: PackageV| spec_depends_on(p, package_name@)),
                acc.deep_view() == installed@.take(i as int).filter(pred),
            decreases installed.packages.len() - i,
        {
            proof {
                assert(installed@[i as int] == installed.packages[i as int]@);
                assert(installed@.take(i + 1) =~= installed@.take(i as int).push(
                    installed@[i as int],
                ));
                assert(installed@.take(i as int).push(installed@[i as int]) =~= installed@.take(
                    i as int,
                ) + seq![installed@[i as int]]);
                Seq::filter_distributes_over_add(
                    installed@.take(i as int),
                    seq![installed@[i as int]],
                    pred,
                );
                reveal_with_fuel(Seq::filter, 2);
                assert(seq![installed@[i as int]].drop_last() =~= Seq::<PackageV>::empty());
            }
            if depends_on_exec(&installed.packages[i], package_name) {
                let ghost pre = acc.deep_view();
                acc.push(installed.packages[i].clone());
                proof {
                    assert(acc.deep_view() =~= pre.push(installed@[i as int]));
                }
            }
            i = i + 1;
        }
        proof {
            assert(installed@.take(installed@.len() as int) =~= installed@);
        }
        acc
    }
}

} // verus!
