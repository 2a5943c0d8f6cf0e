//! Publishing the members of a workspace: what is decided for each of them,
//! what a dry run checks, and how a real run goes on after each step.

use vstd::prelude::*;
use vstd::string::*;
use crate::context::{Context, WorkspaceContext};
use crate::error::Error;
use crate::manifest::{
    find_dependency, names, pinned_text, Crate, Dependency, Entry, PackageVersion,
};
use crate::text::{first_index, lemma_first_index};
use crate::version::{parse_spec, reports, version_text, Version, VersionFault, VersionView};

verus! {

/// What is done with a package.
#[derive(Debug, Clone, Copy, PartialEq, Eq, Structural)]
pub enum PublishAction {
    /// The registry has the target version already.
    Skip,
    /// The package is sent to the registry.
    Publish,
    /// The package would be sent to the registry; a dry run sends nothing.
    Simulate,
}

/// One line of a publish plan.
#[derive(Debug)]
pub struct PlanEntry {
    pub package: String,
    /// The latest version that the registry has.
    pub registry: Version,
    pub target: Version,
    pub action: PublishAction,
}

/// What is to be done with each package, in the order of publishing.
#[derive(Debug)]
pub struct PublishPlan {
    pub entries: Vec<PlanEntry>,
}

/// What a [`PlanEntry`] holds.
pub struct Planned {
    pub package: Seq<char>,
    pub registry: VersionView,
    pub target: VersionView,
    pub action: PublishAction,
}

impl View for PlanEntry {
    type V = Planned;

    open spec fn view(&self) -> Planned {
        Planned {
            package: self.package@,
            registry: self.registry@,
            target: self.target@,
            action: self.action,
        }
    }
}

impl View for PublishPlan {
    type V = Seq<Planned>;

    open spec fn view(&self) -> Seq<Planned> {
        Seq::new(self.entries@.len(), |i: int| self.entries@[i]@)
    }
}

/// What a dry run finds wrong with a dependency.
pub enum Drift {
    /// The dependency of this name has no version that can be resolved.
    Unresolved(Seq<char>),
    /// No earlier line of the plan brings this version of this package.
    Unaccounted(Seq<char>, VersionView),
}

/// How far a real run has come.
#[derive(Debug, Clone, Copy, PartialEq, Eq, Structural)]
pub enum Progress {
    /// Nothing was done yet.
    Start,
    /// The entry at this position was published.
    Done(usize),
    /// Publishing the entry at this position failed.
    Failed(usize),
}

/// What a real run does next.
#[derive(Debug, Clone, Copy, PartialEq, Eq, Structural)]
pub enum Next {
    /// Publish the entry at this position.
    Run(usize),
    /// Nothing is left to publish.
    Finished,
    /// Stop: the entry at this position failed, and nothing after it is
    /// published.
    Halted(usize),
}

/// The views of a list of versions.
pub open spec fn version_views(v: Seq<Version>) -> Seq<VersionView> {
    Seq::new(v.len(), |i: int| v[i]@)
}

/// What is done with a package that the registry has at `registry` and that
/// is to be at `target`.
pub open spec fn action_for(registry: VersionView, target: VersionView, dry_run: bool)
    -> PublishAction {
    if registry == target {
        PublishAction::Skip
    } else if dry_run {
        PublishAction::Simulate
    } else {
        PublishAction::Publish
    }
}

/// The plan for the packages `packages`, in this order, of which the
/// registry has the versions `registry`.
pub open spec fn planned(
    packages: Seq<Seq<char>>,
    registry: Seq<VersionView>,
    target: VersionView,
    dry_run: bool,
) -> Seq<Planned> {
    Seq::new(
        packages.len(),
        |i: int|
            Planned {
                package: packages[i],
                registry: registry[i],
                target,
                action: action_for(registry[i], target, dry_run),
            },
    )
}

/// The version that a dependency declares, if its text is a version.
pub open spec fn declared(d: Dependency) -> Option<VersionView> {
    match pinned_text(d) {
        Some(s) => match parse_spec(s) {
            Ok(v) => Some(v),
            Err(_) => None,
        },
        None => None,
    }
}

/// Whether a dependency takes its version from the workspace.
pub open spec fn inherits(d: Dependency) -> bool {
    d matches Dependency::Table(t) && t.version is None && t.workspace
}

/// The version of the dependency `e`: the one it declares, or, where it
/// inherits, the one that the workspace declares under its name.
pub open spec fn resolved(e: Entry, workspace: Seq<Entry>) -> Option<VersionView> {
    if inherits(e.dependency) {
        let i = first_index(names(workspace), e.name@);
        if 0 <= i < workspace.len() {
            declared(workspace[i].dependency)
        } else {
            None
        }
    } else {
        declared(e.dependency)
    }
}

/// Whether a line before `p` brings the version `v` of the package `name`.
pub open spec fn accounted(plan: Seq<Planned>, p: int, name: Seq<char>, v: VersionView) -> bool {
    exists|q: int| 0 <= q < p && q < plan.len() && #[trigger] plan[q].package == name
        && plan[q].target == v
}

/// What a dry run finds wrong with the dependency `e` of the package at `p`.
pub open spec fn dependency_drift(plan: Seq<Planned>, p: int, e: Entry, workspace: Seq<Entry>)
    -> Option<Drift> {
    match resolved(e, workspace) {
        None => Some(Drift::Unresolved(e.name@)),
        Some(v) => if accounted(plan, p, e.name@, v) {
            None
        } else {
            Some(Drift::Unaccounted(e.name@, v))
        },
    }
}

/// The first drift among `deps`, the dependencies of the package at `p`.
pub open spec fn dependencies_drift(
    plan: Seq<Planned>,
    p: int,
    deps: Seq<Entry>,
    workspace: Seq<Entry>,
) -> Option<Drift>
    decreases deps.len(),
{
    if deps.len() == 0 {
        None
    } else {
        match dependencies_drift(plan, p, deps.drop_last(), workspace) {
            Some(d) => Some(d),
            None => dependency_drift(plan, p, deps.last(), workspace),
        }
    }
}

/// The first drift among the packages before `upto` that a dry run would
/// publish.
pub open spec fn plan_drift(ctx: WorkspaceContext, plan: Seq<Planned>, upto: nat) -> Option<Drift>
    decreases upto,
{
    if upto == 0 {
        None
    } else {
        match plan_drift(ctx, plan, (upto - 1) as nat) {
            Some(d) => Some(d),
            None => if plan[upto - 1].action == PublishAction::Simulate {
                dependencies_drift(
                    plan,
                    upto - 1,
                    ctx.crates@[ctx.order@[upto - 1] as int].dependencies@,
                    ctx.manifest.workspace.dependencies@,
                )
            } else {
                None
            },
        }
    }
}

/// Whether the error `e` reports the drift `d`.
pub open spec fn reports_drift(e: Error, d: Drift) -> bool {
    match d {
        Drift::Unresolved(name) => e matches Error::MissingVersion(n) && n@ == name,
        Drift::Unaccounted(name, v) => e matches Error::String(m) && m@ == name
            + " => unable to find "@ + name + "/"@ + version_text(v),
    }
}

/// What is wrong with the version that the package `c` declares for itself,
/// where the workspace is at `target`: nothing where it inherits, or states
/// the same version.
pub open spec fn override_fault(c: Crate, target: VersionView) -> Option<Seq<char>> {
    match c.package.version {
        PackageVersion::Workspace => None,
        PackageVersion::Text(s) => if parse_spec(s@) == Ok::<VersionView, VersionFault>(target) {
            None
        } else {
            Some(s@)
        },
        PackageVersion::Other => Some(c.package.name@),
    }
}

/// The first fault of that kind among the packages before `upto`.
pub open spec fn overrides_fault(ctx: WorkspaceContext, target: VersionView, upto: nat) -> Option<
    Seq<char>,
>
    decreases upto,
{
    if upto == 0 {
        None
    } else {
        match overrides_fault(ctx, target, (upto - 1) as nat) {
            Some(f) => Some(f),
            None => override_fault(ctx.crates@[ctx.order@[upto - 1] as int], target),
        }
    }
}

/// What [`Publisher::publish`] returns for a workspace.
pub open spec fn publish_outcome(
    ctx: WorkspaceContext,
    registry: Seq<VersionView>,
    dry_run: bool,
    r: Result<PublishPlan, Error>,
) -> bool {
    let current = ctx.manifest.workspace.package.version@;
    if !ctx.wf() || registry.len() != ctx.order@.len() {
        r matches Err(Error::String(m)) && m@
            == "one registry version is needed for each member"@
    } else {
        match parse_spec(current) {
            Err(f) => r matches Err(e) && reports(e, f, current),
            Ok(target) => match overrides_fault(ctx, target, ctx.order@.len()) {
                Some(t) => r matches Err(Error::InvalidVersion(s)) && s@ == t,
                None => {
                    let plan = planned(ctx.ordered_names(), registry, target, dry_run);
                    match r {
                        Ok(p) => p@ == plan && (dry_run ==> plan_drift(ctx, plan, plan.len())
                            is None),
                        Err(e) => {
                            &&& dry_run
                            &&& plan_drift(ctx, plan, plan.len()) matches Some(d)
                            &&& reports_drift(e, d)
                        },
                    }
                },
            },
        }
    }
}

/// A dry run and a real run decide the same for every package, in the same
/// order: they skip the same packages, and what the one would publish the
/// other publishes.
pub proof fn lemma_dry_run_decides_alike(
    packages: Seq<Seq<char>>,
    registry: Seq<VersionView>,
    target: VersionView,
)
    ensures
        planned(packages, registry, target, true).len() == planned(
            packages,
            registry,
            target,
            false,
        ).len(),
        forall|i: int|
            0 <= i < packages.len() ==> {
                let dry = #[trigger] planned(packages, registry, target, true)[i];
                let live = planned(packages, registry, target, false)[i];
                &&& dry.package == live.package
                &&& dry.registry == live.registry
                &&& dry.target == live.target
                &&& (dry.action == PublishAction::Skip <==> live.action == PublishAction::Skip)
                &&& (dry.action == PublishAction::Simulate <==> live.action
                    == PublishAction::Publish)
                &&& dry.action != PublishAction::Publish
                &&& live.action != PublishAction::Simulate
            },
{
}

/// Position of the first entry at or after `from` that is to be published.
pub open spec fn first_publish(plan: Seq<Planned>, from: int) -> int
    decreases plan.len() - from,
{
    if from < 0 || from >= plan.len() {
        plan.len() as int
    } else if plan[from].action == PublishAction::Publish {
        from
    } else {
        first_publish(plan, from + 1)
    }
}

/// What follows on `progress`.
pub open spec fn next_spec(plan: Seq<Planned>, progress: Progress) -> Next {
    match progress {
        Progress::Failed(i) => Next::Halted(i),
        Progress::Start => if first_publish(plan, 0) < plan.len() {
            Next::Run(first_publish(plan, 0) as usize)
        } else {
            Next::Finished
        },
        Progress::Done(i) => if first_publish(plan, i + 1) < plan.len() {
            Next::Run(first_publish(plan, i + 1) as usize)
        } else {
            Next::Finished
        },
    }
}

/// The version that the dependency `e` has for a package that depends on
/// it.
pub fn resolve(e: &Entry, workspace: &Vec<Entry>) -> (r: Option<Version>)
    ensures
        match r {
            Some(v) => resolved(*e, workspace@) == Some(v@),
            None => resolved(*e, workspace@) is None,
        },
{
    match e.dependency.version() {
        Ok(v) => Some(v),
        Err(Error::WorkspaceCrate) => {
            proof {
                lemma_first_index(names(workspace@), e.name@);
            }
            match find_dependency(workspace, &e.name) {
                Some(i) => match workspace[i].dependency.version() {
                    Ok(v) => Some(v),
                    Err(_) => None,
                },
                None => None,
            }
        },
        Err(_) => None,
    }
}

fn is_accounted(entries: &Vec<PlanEntry>, p: usize, name: &String, v: &Version) -> (r: bool)
    requires
        p <= entries.len(),
    ensures
        r == accounted(Seq::new(entries@.len(), |i: int| entries@[i]@), p as int, name@, v@),
{
    let ghost plan = Seq::new(entries@.len(), |i: int| entries@[i]@);
    let mut q: usize = 0;
    while q < p
        invariant
            q <= p <= entries.len(),
            plan == Seq::new(entries@.len(), |i: int| entries@[i]@),
            forall|t: int|
                0 <= t < q ==> !(#[trigger] plan[t].package == name@ && plan[t].target == v@),
        decreases p - q,
    {
        if entries[q].package == *name && entries[q].target.same(v) {
            assert(plan[q as int].package == name@ && plan[q as int].target == v@);
            return true;
        }
        q = q + 1;
    }
    false
}

fn unaccounted(name: &String, v: &Version) -> (e: Error)
    ensures
        reports_drift(e, Drift::Unaccounted(name@, v@)),
{
    let mut m = name.clone();
    m.append(" => unable to find ");
    m.append(name.as_str());
    m.append("/");
    m.append(v.to_string().as_str());
    assert(m@ =~= name@ + " => unable to find "@ + name@ + "/"@ + version_text(v@));
    Error::String(m)
}

fn check_dependencies(
    entries: &Vec<PlanEntry>,
    p: usize,
    deps: &Vec<Entry>,
    workspace: &Vec<Entry>,
) -> (r: Result<(), Error>)
    requires
        p <= entries.len(),
    ensures
        match r {
            Ok(_) => dependencies_drift(
                Seq::new(entries@.len(), |i: int| entries@[i]@),
                p as int,
                deps@,
                workspace@,
            ) is None,
            Err(e) => dependencies_drift(
                Seq::new(entries@.len(), |i: int| entries@[i]@),
                p as int,
                deps@,
                workspace@,
            ) matches Some(d) && reports_drift(e, d),
        },
{
    let ghost plan = Seq::new(entries@.len(), |i: int| entries@[i]@);
    let mut i: usize = 0;
    assert(deps@.take(0) =~= Seq::<Entry>::empty());
    while i < deps.len()
        invariant
            i <= deps.len(),
            p <= entries.len(),
            plan == Seq::new(entries@.len(), |i: int| entries@[i]@),
            dependencies_drift(plan, p as int, deps@.take(i as int), workspace@) is None,
        decreases deps.len() - i,
    {
        proof {
            assert(deps@.take(i + 1).drop_last() =~= deps@.take(i as int));
            assert(deps@.take(i + 1).last() == deps@[i as int]);
        }
        let fault = match resolve(&deps[i], workspace) {
            None => Some(Error::MissingVersion(deps[i].name.clone())),
            Some(v) => if is_accounted(entries, p, &deps[i].name, &v) {
                None
            } else {
                Some(unaccounted(&deps[i].name, &v))
            },
        };
        match fault {
            Some(e) => {
                proof {
                    lemma_drift_stays(plan, p as int, deps@, workspace@, i + 1);
                }
                return Err(e);
            },
            None => {},
        }
        i = i + 1;
    }
    assert(deps@.take(deps.len() as int) =~= deps@);
    Ok(())
}

/// A drift found among the first dependencies is the drift of them all.
pub proof fn lemma_drift_stays(
    plan: Seq<Planned>,
    p: int,
    deps: Seq<Entry>,
    workspace: Seq<Entry>,
    k: int,
)
    requires
        0 <= k <= deps.len(),
        dependencies_drift(plan, p, deps.take(k), workspace) is Some,
    ensures
        dependencies_drift(plan, p, deps, workspace) == dependencies_drift(
            plan,
            p,
            deps.take(k),
            workspace,
        ),
    decreases deps.len() - k,
{
    if k < deps.len() {
        assert(deps.take(k + 1).drop_last() =~= deps.take(k));
        lemma_drift_stays(plan, p, deps, workspace, k + 1);
    } else {
        assert(deps.take(k) =~= deps);
    }
}

/// A fault or drift found among the first packages is that of them all.
pub proof fn lemma_plan_drift_stays(ctx: WorkspaceContext, plan: Seq<Planned>, k: nat, n: nat)
    requires
        k <= n,
        plan_drift(ctx, plan, k) is Some,
    ensures
        plan_drift(ctx, plan, n) == plan_drift(ctx, plan, k),
    decreases n - k,
{
    if k < n {
        lemma_plan_drift_stays(ctx, plan, k, (n - 1) as nat);
    }
}

/// A fault found among the first packages is that of them all.
pub proof fn lemma_overrides_fault_stays(ctx: WorkspaceContext, target: VersionView, k: nat, n: nat)
    requires
        k <= n,
        overrides_fault(ctx, target, k) is Some,
    ensures
        overrides_fault(ctx, target, n) == overrides_fault(ctx, target, k),
    decreases n - k,
{
    if k < n {
        lemma_overrides_fault_stays(ctx, target, k, (n - 1) as nat);
    }
}

impl Crate {
    /// The version of the package in a workspace that is at `workspace`:
    /// that version, where the package inherits it or states the same; the
    /// error names what the package declares instead.
    pub fn version(&self, workspace: &Version) -> (r: Result<Version, Error>)
        ensures
            match r {
                Ok(v) => v@ == workspace@ && override_fault(*self, workspace@) is None,
                Err(e) => e matches Error::InvalidVersion(s) && override_fault(*self, workspace@)
                    == Some(s@),
            },
    {
        match &self.package.version {
            PackageVersion::Workspace => Ok(workspace.clone()),
            PackageVersion::Text(s) => match Version::parse(s.as_str()) {
                Ok(v) => if v.same(workspace) {
                    Ok(v)
                } else {
                    Err(Error::InvalidVersion(s.clone()))
                },
                Err(_) => Err(Error::InvalidVersion(s.clone())),
            },
            PackageVersion::Other => Err(Error::InvalidVersion(self.package.name.clone())),
        }
    }
}

impl PublishPlan {
    /// What a real run does next: it stops at a failure, and otherwise goes
    /// on with the next entry that is to be published.
    pub fn next(&self, progress: Progress) -> (r: Next)
        ensures
            r == next_spec(self@, progress),
    {
        let from: usize = match progress {
            Progress::Failed(i) => {
                return Next::Halted(i);
            },
            Progress::Start => 0,
            Progress::Done(i) => if i < self.entries.len() {
                i + 1
            } else {
                return Next::Finished;
            },
        };
        let mut j: usize = from;
        while j < self.entries.len()
            invariant
                self@.len() == self.entries@.len(),
                next_spec(self@, progress) == (if first_publish(self@, j as int) < self@.len() {
                    Next::Run(first_publish(self@, j as int) as usize)
                } else {
                    Next::Finished
                }),
            decreases self.entries.len() - j,
        {
            assert(self@[j as int].action == self.entries@[j as int].action);
            match self.entries[j].action {
                PublishAction::Publish => {
                    return Next::Run(j);
                },
                _ => {},
            }
            j = j + 1;
        }
        Next::Finished
    }
}

/// Publishes the members of a workspace.
pub struct Publisher {
    pub ctx: Context,
}

impl Publisher {
    pub fn new(ctx: Context) -> (r: Publisher)
        ensures
            r.ctx == ctx,
    {
        Publisher { ctx }
    }

    /// The plan for publishing the workspace, given the latest version that
    /// the registry has of each member, in the order of publishing.
    ///
    /// Every member is to be at the version of the workspace; one that
    /// declares another version is reported as `InvalidVersion`. A package
    /// that the registry has at that version is skipped; the others are
    /// published, or, in a dry run, would be. A dry run also checks every
    /// dependency of a package that it would publish: its version must be
    /// that of an earlier line of the plan.
    pub fn publish(&self, registry: &Vec<Version>, dry_run: bool) -> (r: Result<
        PublishPlan,
        Error,
    >)
        ensures
            match self.ctx {
                Context::Workspace(ctx) => publish_outcome(
                    ctx,
                    version_views(registry@),
                    dry_run,
                    r,
                ),
                Context::Crate(_) => r matches Err(Error::String(m)) && m@
                    == "not currently supported in the context of a single crate"@,
            },
    {
        let ctx = match &self.ctx {
            Context::Workspace(ctx) => ctx,
            Context::Crate(_) => {
                return Err(
                    Error::String(
                        String::from_str("not currently supported in the context of a single crate"),
                    ),
                );
            },
        };
        if !ctx.is_wf() || registry.len() != ctx.order.len() {
            return Err(
                Error::String(String::from_str("one registry version is needed for each member")),
            );
        }
        let target = match ctx.manifest.version() {
            Ok(v) => v,
            Err(e) => {
                return Err(e);
            },
        };
        let n = ctx.order.len();
        let ghost views = version_views(registry@);
        let ghost plan = planned(ctx.ordered_names(), views, target@, dry_run);
        let mut entries: Vec<PlanEntry> = Vec::new();
        let mut p: usize = 0;
        while p < n
            invariant
                self.ctx == Context::Workspace(*ctx),
                parse_spec(ctx.manifest.workspace.package.version@) == Ok::<
                    VersionView,
                    VersionFault,
                >(target@),
                ctx.wf(),
                n == ctx.order@.len(),
                registry@.len() == n,
                views == version_views(registry@),
                plan == planned(ctx.ordered_names(), views, target@, dry_run),
                p <= n,
                entries@.len() == p,
                forall|q: int| 0 <= q < p ==> (#[trigger] entries@[q])@ == plan[q],
                overrides_fault(*ctx, target@, p as nat) is None,
            decreases n - p,
        {
            let c = &ctx.crates[ctx.order[p]];
            match c.version(&target) {
                Ok(_) => {},
                Err(e) => {
                    proof {
                        lemma_overrides_fault_stays(*ctx, target@, (p + 1) as nat, n as nat);
                    }
                    return Err(e);
                },
            }
            let action = if registry[p].same(&target) {
                PublishAction::Skip
            } else if dry_run {
                PublishAction::Simulate
            } else {
                PublishAction::Publish
            };
            entries.push(
                PlanEntry {
                    package: c.package.name.clone(),
                    registry: registry[p].clone(),
                    target: target.clone(),
                    action,
                },
            );
            p = p + 1;
        }
        proof {
            assert(Seq::new(entries@.len(), |i: int| entries@[i]@) =~= plan);
        }
        if dry_run {
            let mut p: usize = 0;
            while p < n
                invariant
                    self.ctx == Context::Workspace(*ctx),
                    parse_spec(ctx.manifest.workspace.package.version@) == Ok::<
                        VersionView,
                        VersionFault,
                    >(target@),
                    dry_run,
                    registry@.len() == n,
                    views == version_views(registry@),
                    plan == planned(ctx.ordered_names(), views, target@, dry_run),
                    overrides_fault(*ctx, target@, n as nat) is None,
                    ctx.wf(),
                    n == ctx.order@.len(),
                    entries@.len() == n,
                    plan.len() == n,
                    Seq::new(entries@.len(), |i: int| entries@[i]@) == plan,
                    p <= n,
                    plan_drift(*ctx, plan, p as nat) is None,
                decreases n - p,
            {
                match entries[p].action {
                    PublishAction::Simulate => {
                        assert(plan[p as int].action == PublishAction::Simulate);
                        match check_dependencies(
                            &entries,
                            p,
                            &ctx.crates[ctx.order[p]].dependencies,
                            &ctx.manifest.workspace.dependencies,
                        ) {
                            Ok(_) => {},
                            Err(e) => {
                                proof {
                                    lemma_plan_drift_stays(
                                        *ctx,
                                        plan,
                                        (p + 1) as nat,
                                        n as nat,
                                    );
                                }
                                return Err(e);
                            },
                        }
                    },
                    _ => {
                        assert(plan[p as int].action != PublishAction::Simulate);
                    },
                }
                p = p + 1;
            }
        }
        let result = PublishPlan { entries };
        assert(result@ =~= plan);
        Ok(result)
    }
}

} // verus!
