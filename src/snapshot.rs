//! One snapshot run: resolve the configured roots, refuse two roots with the
//! same name, and assemble the manifest and the per-root errors from what the
//! copies reported.
use vstd::prelude::*;
use crate::config::{entries_view, strings_view, ConfigLocations, Duplit, GenConfig, Packages};
use crate::copy::{resolve_rules, resolved_rules};
use crate::resolve::{resolve, same_chars, Environment};
use crate::text::{base_name, basename, chars_of, string_of, trim_trailing, trimmed};

verus! {

/// What is found at a path.
#[derive(PartialEq, Eq, Structural, Clone, Copy)]
pub enum PathKind {
    Missing,
    File,
    Directory,
    Other,
}

#[derive(PartialEq, Eq, Structural, Clone, Copy)]
pub enum RootErrorKind {
    /// The root refers to a variable that is not defined; the detail names it.
    PathResolution,
    /// The root does not exist; the detail is its path.
    NotFound,
    /// Reading or writing failed while the root was copied; the detail says how.
    CopyIo,
    /// The root resolves to a path without a final component; the detail is that path.
    Unnamed,
}

/// A problem with one configured root; the run goes on with the others.
pub struct RootError {
    pub index: usize,
    pub kind: RootErrorKind,
    pub detail: String,
}

/// A problem that stops the whole run before anything is copied.
pub enum SnapshotError {
    /// The destination exists and is not a directory.
    Destination,
    /// Two roots would be stored under this same name.
    Collision { name: String },
}

/// A configured root that resolved: its place in the list, its path as
/// resolved (the origin the manifest records), that path without trailing
/// separators (the one copied from), and the name it is stored under.
pub struct PlannedRoot {
    pub index: usize,
    pub origin: String,
    pub path: String,
    pub name: String,
}

pub struct SnapshotPlan {
    pub roots: Vec<PlannedRoot>,
    pub errors: Vec<RootError>,
    pub rules: Vec<String>,
}

/// How the copy of one planned root ended.
pub enum CopyOutcome {
    Copied,
    NotFound,
    /// Neither a file nor a directory: left alone, with no error.
    Skipped,
    Failed { message: String },
}

impl RootError {
    pub open spec fn spec_error(&self) -> (int, RootErrorKind, Seq<char>) {
        (self.index as int, self.kind, self.detail@)
    }
}

impl PlannedRoot {
    pub open spec fn spec_root(&self) -> (int, Seq<char>, Seq<char>, Seq<char>) {
        (self.index as int, self.origin@, self.path@, self.name@)
    }
}

pub open spec fn errors_view(v: Seq<RootError>) -> Seq<(int, RootErrorKind, Seq<char>)> {
    v.map_values(|e: RootError| e.spec_error())
}

pub open spec fn roots_view(v: Seq<PlannedRoot>) -> Seq<(int, Seq<char>, Seq<char>, Seq<char>)> {
    v.map_values(|r: PlannedRoot| r.spec_root())
}

/// The roots that resolve to a named path, and an error for each other one, in
/// order. A root's name is the final component of its path, trailing separators aside.
pub open spec fn root_plan(raw: Seq<Seq<char>>, vars: Seq<(Seq<char>, Seq<char>)>) -> (
    Seq<(int, Seq<char>, Seq<char>, Seq<char>)>,
    Seq<(int, RootErrorKind, Seq<char>)>,
)
    decreases raw.len(),
{
    if raw.len() == 0 {
        (Seq::empty(), Seq::empty())
    } else {
        let prev = root_plan(raw.drop_last(), vars);
        let i = raw.len() - 1;
        match resolve(raw.last(), vars) {
            Err(v) => (prev.0, prev.1.push((i, RootErrorKind::PathResolution, v))),
            Ok(p) => if basename(trim_trailing(p)).len() == 0 {
                (prev.0, prev.1.push((i, RootErrorKind::Unnamed, p)))
            } else {
                (prev.0.push((i, p, trim_trailing(p), basename(trim_trailing(p)))), prev.1)
            },
        }
    }
}

/// Two of the roots share a name.
pub open spec fn has_collision(roots: Seq<(int, Seq<char>, Seq<char>, Seq<char>)>) -> bool {
    exists|a: int, b: int| 0 <= a < b < roots.len() && #[trigger] roots[a].3 == #[trigger] roots[b].3
}

/// The manifest entries for the first `n` roots: one for each root whose copy
/// succeeded, in order.
pub open spec fn entries_upto(
    roots: Seq<(int, Seq<char>, Seq<char>, Seq<char>)>,
    outcomes: Seq<CopyOutcome>,
    n: int,
) -> Seq<(Seq<char>, Seq<char>)>
    decreases n,
{
    if n <= 0 {
        Seq::empty()
    } else {
        let prev = entries_upto(roots, outcomes, n - 1);
        match outcomes[n - 1] {
            CopyOutcome::Copied => prev.push((roots[n - 1].3, roots[n - 1].1)),
            _ => prev,
        }
    }
}

/// The errors that the copies of the first `n` roots reported, in order.
pub open spec fn copy_errors_upto(
    roots: Seq<(int, Seq<char>, Seq<char>, Seq<char>)>,
    outcomes: Seq<CopyOutcome>,
    n: int,
) -> Seq<(int, RootErrorKind, Seq<char>)>
    decreases n,
{
    if n <= 0 {
        Seq::empty()
    } else {
        let prev = copy_errors_upto(roots, outcomes, n - 1);
        match outcomes[n - 1] {
            CopyOutcome::NotFound => prev.push((roots[n - 1].0, RootErrorKind::NotFound, roots[n - 1].1)),
            CopyOutcome::Failed { message } => prev.push((roots[n - 1].0, RootErrorKind::CopyIo, message@)),
            _ => prev,
        }
    }
}

/// How many of the first `n` copies succeeded.
pub open spec fn count_copied(outcomes: Seq<CopyOutcome>, n: int) -> nat
    decreases n,
{
    if n <= 0 {
        0
    } else {
        count_copied(outcomes, n - 1) + if outcomes[n - 1] is Copied { 1nat } else { 0nat }
    }
}

/// What to do with a resolved root, by what is found at its path.
#[derive(PartialEq, Eq, Structural, Clone, Copy)]
pub enum RootAction {
    /// Nothing is there: the root is reported as not found.
    ReportNotFound,
    /// Neither a file nor a directory: left alone, with no error.
    Skip,
    CopyFile,
    MirrorDirectory,
}

pub fn root_action(kind: PathKind) -> (r: RootAction)
    ensures
        kind == PathKind::Missing <==> r == RootAction::ReportNotFound,
        kind == PathKind::Other <==> r == RootAction::Skip,
        kind == PathKind::File <==> r == RootAction::CopyFile,
        kind == PathKind::Directory <==> r == RootAction::MirrorDirectory,
{
    match kind {
        PathKind::Missing => RootAction::ReportNotFound,
        PathKind::Other => RootAction::Skip,
        PathKind::File => RootAction::CopyFile,
        PathKind::Directory => RootAction::MirrorDirectory,
    }
}

/// Whether the destination must be created first: only when it is missing.
/// Anything there but a directory makes the run fail.
pub fn prepare_destination(kind: PathKind) -> (r: Result<bool, SnapshotError>)
    ensures
        match r {
            Ok(create) => (kind == PathKind::Missing || kind == PathKind::Directory) && create == (kind
                == PathKind::Missing),
            Err(e) => (kind == PathKind::File || kind == PathKind::Other) && e is Destination,
        },
{
    match kind {
        PathKind::Missing => Ok(true),
        PathKind::Directory => Ok(false),
        _ => Err(SnapshotError::Destination),
    }
}

fn find_collision(roots: &Vec<PlannedRoot>) -> (r: Option<String>)
    ensures
        match r {
            None => !has_collision(roots_view(roots@)),
            Some(name) => exists|a: int, b: int|
                0 <= a < b < roots@.len() && roots@[a].name@ == name@ && roots@[b].name@ == name@,
        },
{
    let ghost rv = roots_view(roots@);
    let mut i: usize = 0;
    while i < roots.len()
        invariant
            i <= roots.len(),
            rv == roots_view(roots@),
            forall|a: int, b: int| 0 <= a < b < i ==> #[trigger] rv[a].3 != #[trigger] rv[b].3,
        decreases roots.len() - i,
    {
        let ni = chars_of(roots[i].name.as_str());
        let mut j: usize = 0;
        while j < i
            invariant
                j <= i < roots.len(),
                ni@ == roots@[i as int].name@,
                rv == roots_view(roots@),
                forall|a: int, b: int| 0 <= a < b < i ==> #[trigger] rv[a].3 != #[trigger] rv[b].3,
                forall|a: int| 0 <= a < j ==> #[trigger] rv[a].3 != rv[i as int].3,
            decreases i - j,
        {
            let nj = chars_of(roots[j].name.as_str());
            if same_chars(&nj, &ni) {
                return Some(roots[i].name.clone());
            }
            j = j + 1;
        }
        i = i + 1;
    }
    None
}

impl Duplit {
    /// Resolves every configured root and exclude rule. Roots that do not
    /// resolve, or have no final component, become errors and are not copied.
    /// Fails, before anything is copied, when two roots share a name.
    pub fn plan_snapshot(&self, env: &Environment) -> (r: Result<SnapshotPlan, SnapshotError>)
        ensures
            ({
                let expected = root_plan(strings_view(self.config.configs.sources@), env.spec_vars());
                match r {
                    Ok(plan) => {
                        &&& !has_collision(expected.0)
                        &&& roots_view(plan.roots@) == expected.0
                        &&& errors_view(plan.errors@) == expected.1
                        &&& strings_view(plan.rules@) == resolved_rules(
                            strings_view(self.config.configs.exclude@),
                            env.spec_vars(),
                        )
                    },
                    Err(SnapshotError::Collision { name }) => exists|a: int, b: int|
                        0 <= a < b < expected.0.len() && expected.0[a].3 == name@ && expected.0[b].3
                            == name@,
                    Err(SnapshotError::Destination) => false,
                }
            }),
    {
        let sources = &self.config.configs.sources;
        let ghost raw = strings_view(sources@);
        let ghost vars = env.spec_vars();
        let mut roots: Vec<PlannedRoot> = Vec::new();
        let mut errors: Vec<RootError> = Vec::new();
        let mut i: usize = 0;
        while i < sources.len()
            invariant
                i <= sources.len(),
                raw == strings_view(sources@),
                vars == env.spec_vars(),
                (roots_view(roots@), errors_view(errors@)) == root_plan(raw.subrange(0, i as int), vars),
            decreases sources.len() - i,
        {
            assert(raw.subrange(0, i + 1).drop_last() =~= raw.subrange(0, i as int));
            assert(raw.subrange(0, i + 1).last() == sources@[i as int]@);
            match Duplit::expand_path(sources[i].as_str(), env) {
                Err(e) => {
                    errors.push(RootError { index: i, kind: RootErrorKind::PathResolution, detail: e.variable });
                    assert(errors_view(errors@) =~= root_plan(raw.subrange(0, i + 1), vars).1);
                },
                Ok(p) => {
                    let pc = chars_of(p.as_str());
                    let tc = trimmed(&pc);
                    let path = string_of(tc.as_slice());
                    let name = base_name(path.as_str());
                    if name.as_str().is_empty() {
                        errors.push(RootError { index: i, kind: RootErrorKind::Unnamed, detail: p });
                        assert(errors_view(errors@) =~= root_plan(raw.subrange(0, i + 1), vars).1);
                    } else {
                        roots.push(PlannedRoot { index: i, origin: p, path, name });
                        assert(roots_view(roots@) =~= root_plan(raw.subrange(0, i + 1), vars).0);
                    }
                },
            }
            i = i + 1;
        }
        assert(raw.subrange(0, sources.len() as int) =~= raw);
        assert(roots_view(roots@) == root_plan(raw, vars).0);
        assert(errors_view(errors@) == root_plan(raw, vars).1);
        match find_collision(&roots) {
            Some(name) => {
                proof {
                    let (a, b) = choose|a: int, b: int|
                        0 <= a < b < roots@.len() && roots@[a].name@ == name@ && roots@[b].name@ == name@;
                    assert(roots_view(roots@)[a].3 == name@);
                    assert(roots_view(roots@)[b].3 == name@);
                    assert(0 <= a < b < root_plan(raw, vars).0.len() && root_plan(raw, vars).0[a].3 == name@ && root_plan(raw, vars).0[b].3 == name@);
                }
                Err(SnapshotError::Collision { name })
            },
            None => {
                let rules = resolve_rules(&self.config.configs.exclude, env);
                Ok(SnapshotPlan { roots, errors, rules })
            },
        }
    }
}

/// The manifest of a run and its per-root errors: an entry for each root whose
/// copy succeeded, then the errors of planning followed by those of the copies.
pub fn assemble_manifest(plan: SnapshotPlan, outcomes: &Vec<CopyOutcome>, packages: Packages) -> (r: (
    GenConfig,
    Vec<RootError>,
))
    requires
        outcomes.len() == plan.roots.len(),
    ensures
        entries_view(r.0.configs@) == entries_upto(roots_view(plan.roots@), outcomes@, outcomes.len() as int),
        r.0.packages == packages,
        errors_view(r.1@) == errors_view(plan.errors@) + copy_errors_upto(
            roots_view(plan.roots@),
            outcomes@,
            outcomes.len() as int,
        ),
{
    let ghost rv = roots_view(plan.roots@);
    let ghost plan_errors = errors_view(plan.errors@);
    let SnapshotPlan { roots, errors, rules: _ } = plan;
    let mut errors = errors;
    let mut configs: Vec<ConfigLocations> = Vec::new();
    let mut i: usize = 0;
    while i < roots.len()
        invariant
            i <= roots.len() == outcomes.len(),
            rv == roots_view(roots@),
            entries_view(configs@) == entries_upto(rv, outcomes@, i as int),
            errors_view(errors@) == plan_errors + copy_errors_upto(rv, outcomes@, i as int),
        decreases roots.len() - i,
    {
        let ghost before = errors_view(errors@);
        match &outcomes[i] {
            CopyOutcome::Copied => {
                configs.push(ConfigLocations { name: roots[i].name.clone(), out: roots[i].origin.clone() });
                assert(entries_view(configs@) =~= entries_upto(rv, outcomes@, i + 1));
            },
            CopyOutcome::NotFound => {
                errors.push(RootError { index: roots[i].index, kind: RootErrorKind::NotFound, detail: roots[i].origin.clone() });
                assert(copy_errors_upto(rv, outcomes@, i + 1) == copy_errors_upto(rv, outcomes@, i as int).push(
                    (rv[i as int].0, RootErrorKind::NotFound, rv[i as int].1),
                ));
                assert(errors_view(errors@) =~= before.push((rv[i as int].0, RootErrorKind::NotFound, rv[i as int].1)));
                assert(errors_view(errors@) =~= plan_errors + copy_errors_upto(rv, outcomes@, i + 1));
            },
            CopyOutcome::Failed { message } => {
                errors.push(RootError { index: roots[i].index, kind: RootErrorKind::CopyIo, detail: message.clone() });
                assert(copy_errors_upto(rv, outcomes@, i + 1) == copy_errors_upto(rv, outcomes@, i as int).push(
                    (rv[i as int].0, RootErrorKind::CopyIo, message@),
                ));
                assert(errors_view(errors@) =~= before.push((rv[i as int].0, RootErrorKind::CopyIo, message@)));
                assert(errors_view(errors@) =~= plan_errors + copy_errors_upto(rv, outcomes@, i + 1));
            },
            CopyOutcome::Skipped => {},
        }
        i = i + 1;
    }
    (GenConfig { packages, configs }, errors)
}

/// The manifest holds exactly as many entries as there were successful copies.
pub proof fn lemma_manifest_counts_copies(
    roots: Seq<(int, Seq<char>, Seq<char>, Seq<char>)>,
    outcomes: Seq<CopyOutcome>,
    n: int,
)
    requires
        0 <= n <= outcomes.len(),
    ensures
        entries_upto(roots, outcomes, n).len() == count_copied(outcomes, n),
    decreases n,
{
    if n > 0 {
        lemma_manifest_counts_copies(roots, outcomes, n - 1);
    }
}

proof fn lemma_root_plan_indices(raw: Seq<Seq<char>>, vars: Seq<(Seq<char>, Seq<char>)>)
    ensures
        forall|k: int|
            0 <= k < root_plan(raw, vars).0.len() ==> 0 <= #[trigger] root_plan(raw, vars).0[k].0
                < raw.len(),
    decreases raw.len(),
{
    if raw.len() > 0 {
        let prev = root_plan(raw.drop_last(), vars);
        let plan = root_plan(raw, vars);
        lemma_root_plan_indices(raw.drop_last(), vars);
        assert forall|k: int| 0 <= k < plan.0.len() implies 0 <= #[trigger] plan.0[k].0 < raw.len() by {
            if k < prev.0.len() {
                assert(plan.0[k] == prev.0[k]);
            }
        }
    }
}

/// Each configured root is planned on its own: one that does not resolve gets
/// a resolution error naming the missing variable and is never planned, and one
/// that resolves to a named path is planned, whatever the other roots are.
pub proof fn lemma_root_plan_entry(raw: Seq<Seq<char>>, vars: Seq<(Seq<char>, Seq<char>)>, j: int)
    requires
        0 <= j < raw.len(),
    ensures
        ({
            let plan = root_plan(raw, vars);
            match resolve(raw[j], vars) {
                Err(v) => (exists|k: int|
                    0 <= k < plan.1.len() && plan.1[k] == (j, RootErrorKind::PathResolution, v))
                    && forall|k: int| 0 <= k < plan.0.len() ==> #[trigger] plan.0[k].0 != j,
                Ok(p) => basename(trim_trailing(p)).len() > 0 ==> exists|k: int|
                    0 <= k < plan.0.len() && plan.0[k] == (j, p, trim_trailing(p), basename(trim_trailing(p))),
            }
        }),
    decreases raw.len(),
{
    let plan = root_plan(raw, vars);
    let prev = root_plan(raw.drop_last(), vars);
    lemma_root_plan_indices(raw.drop_last(), vars);
    if j == raw.len() - 1 {
        match resolve(raw[j], vars) {
            Err(v) => {
                assert(plan.1[prev.1.len() as int] == (j, RootErrorKind::PathResolution, v));
                assert forall|k: int| 0 <= k < plan.0.len() implies #[trigger] plan.0[k].0 != j by {
                    assert(plan.0[k] == prev.0[k]);
                }
            },
            Ok(p) => {
                if basename(trim_trailing(p)).len() > 0 {
                    assert(plan.0[prev.0.len() as int] == (j, p, trim_trailing(p), basename(trim_trailing(p))));
                }
            },
        }
    } else {
        lemma_root_plan_entry(raw.drop_last(), vars, j);
        assert(raw.drop_last()[j] == raw[j]);
        match resolve(raw[j], vars) {
            Err(v) => {
                let k = choose|k: int|
                    0 <= k < prev.1.len() && prev.1[k] == (j, RootErrorKind::PathResolution, v);
                assert(plan.1[k] == prev.1[k]);
                lemma_root_plan_indices(raw, vars);
                assert forall|k: int| 0 <= k < plan.0.len() implies #[trigger] plan.0[k].0 != j by {
                    if k < prev.0.len() {
                        assert(plan.0[k] == prev.0[k]);
                    } else {
                        assert(plan.0[k].0 == raw.len() - 1);
                    }
                }
            },
            Ok(p) => {
                if basename(trim_trailing(p)).len() > 0 {
                    let k = choose|k: int|
                        0 <= k < prev.0.len() && prev.0[k] == (j, p, trim_trailing(p), basename(trim_trailing(p)));
                    assert(plan.0[k] == prev.0[k]);
                }
            },
        }
    }
}

} // verus!
