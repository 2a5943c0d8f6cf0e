//! What a command works on: one package, or a workspace with its members,
//! their dependencies sorted into internal and external, and the order in
//! which the members can be published.

use vstd::prelude::*;
use vstd::string::*;
use crate::error::Error;
use crate::graph::{
    blocked, graph_of, has_cycle, ints, publish_schedule, topological, DependencyGraph,
};
use crate::manifest::{
    crate_dependencies, crate_fault, distinct, names, package_of, Crate, Dependencies, Entry,
    Manifest, Package,
};
use crate::text::texts;
use crate::value::Value;

verus! {

/// One package on its own.
#[derive(Debug)]
pub struct CrateContext {
    pub file: String,
    pub package: Package,
    pub dependencies: Dependencies,
}

/// A workspace and its members.
#[derive(Debug)]
pub struct WorkspaceContext {
    pub file: String,
    pub folder: String,
    /// The workspace manifest; of its dependencies those that name a member
    /// are left.
    pub manifest: Manifest,
    /// The members that may be published, in the order of declaration; of
    /// their dependencies those that name a member are left.
    pub crates: Vec<Crate>,
    /// The members that may not be published, as they were loaded.
    pub excluded: Vec<Crate>,
    /// The names of `crates`.
    pub projects: Vec<String>,
    /// The dependencies on packages outside the workspace, each name once.
    pub external: Dependencies,
    /// Positions in `crates`, in the order in which they can be published.
    pub order: Vec<usize>,
}

/// What a command works on.
#[derive(Debug)]
pub enum Context {
    Workspace(WorkspaceContext),
    Crate(CrateContext),
}

/// The names of `crates`, in order.
pub open spec fn crate_names(crates: Seq<Crate>) -> Seq<Seq<char>> {
    Seq::new(crates.len(), |i: int| crates[i].package.name@)
}

/// The entries of `deps` whose name is among `among` (`inside`), or is not
/// (`!inside`), in order.
pub open spec fn select(deps: Seq<Entry>, among: Seq<Seq<char>>, inside: bool) -> Seq<Entry>
    decreases deps.len(),
{
    if deps.len() == 0 {
        deps
    } else {
        let rest = select(deps.drop_last(), among, inside);
        if among.contains(deps.last().name@) == inside {
            rest.push(deps.last())
        } else {
            rest
        }
    }
}

/// The packages of `crates` that may be published (`yes`), or may not
/// (`!yes`), in order.
pub open spec fn publishable(crates: Seq<Crate>, yes: bool) -> Seq<Crate>
    decreases crates.len(),
{
    if crates.len() == 0 {
        crates
    } else {
        let rest = publishable(crates.drop_last(), yes);
        if crates.last().package.publishable_spec() == yes {
            rest.push(crates.last())
        } else {
            rest
        }
    }
}

/// `acc` with `e` at its end, unless it has an entry of that name.
pub open spec fn add_absent(acc: Seq<Entry>, e: Entry) -> Seq<Entry> {
    if names(acc).contains(e.name@) {
        acc
    } else {
        acc.push(e)
    }
}

/// `acc` after each entry of `extra` was added where its name was absent.
pub open spec fn add_all_absent(acc: Seq<Entry>, extra: Seq<Entry>) -> Seq<Entry>
    decreases extra.len(),
{
    if extra.len() == 0 {
        acc
    } else {
        add_absent(add_all_absent(acc, extra.drop_last()), extra.last())
    }
}

/// `acc`, then the dependencies of `crates` on packages that are not among
/// `members`, each name once: the first declaration of a name stays.
pub open spec fn externals(acc: Seq<Entry>, crates: Seq<Crate>, members: Seq<Seq<char>>) -> Seq<
    Entry,
>
    decreases crates.len(),
{
    if crates.len() == 0 {
        acc
    } else {
        add_all_absent(
            externals(acc, crates.drop_last(), members),
            select(crates.last().dependencies@, members, false),
        )
    }
}

/// Whether `after` is `before` with only its dependencies on `members` left.
pub open spec fn is_pruned(before: Crate, after: Crate, members: Seq<Seq<char>>) -> bool {
    &&& after.file == before.file
    &&& after.folder == before.folder
    &&& after.toml == before.toml
    &&& after.package == before.package
    &&& after.dependencies@ == select(before.dependencies@, members, true)
}

/// Whether `k` is the first node, in the order of declaration, from which a
/// chain of dependencies as long as the graph starts.
pub open spec fn first_blocked(adj: Seq<Seq<int>>, k: int) -> bool {
    &&& 0 <= k < adj.len()
    &&& blocked(adj, k)
    &&& forall|j: int| 0 <= j < k ==> !blocked(adj, j)
}

/// Whether `name` is among `list`.
pub fn contains_name(list: &Vec<String>, name: &String) -> (r: bool)
    ensures
        r == texts(list@).contains(name@),
{
    let mut i: usize = 0;
    while i < list.len()
        invariant
            i <= list.len(),
            forall|j: int| 0 <= j < i ==> texts(list@)[j] != name@,
        decreases list.len() - i,
    {
        if list[i] == *name {
            assert(texts(list@)[i as int] == name@);
            return true;
        }
        i = i + 1;
    }
    false
}

/// Sorts `deps` into those whose name is among `among` and the others.
pub fn split_dependencies(deps: Vec<Entry>, among: &Vec<String>) -> (r: (Vec<Entry>, Vec<Entry>))
    ensures
        r.0@ == select(deps@, texts(among@), true),
        r.1@ == select(deps@, texts(among@), false),
{
    let mut rest = deps;
    let mut inside: Vec<Entry> = Vec::new();
    let mut outside: Vec<Entry> = Vec::new();
    let ghost all = deps@;
    let ghost done: int = 0;
    proof {
        assert(all.take(0) =~= Seq::<Entry>::empty());
        assert(all.skip(0) =~= all);
    }
    while rest.len() > 0
        invariant
            0 <= done <= all.len(),
            rest@ == all.skip(done),
            inside@ == select(all.take(done), texts(among@), true),
            outside@ == select(all.take(done), texts(among@), false),
        decreases rest.len(),
    {
        let e = rest.remove(0);
        proof {
            assert(all.take(done + 1).drop_last() =~= all.take(done));
            assert(all.take(done + 1).last() == e);
            assert(rest@ =~= all.skip(done + 1));
            done = done + 1;
        }
        if contains_name(among, &e.name) {
            inside.push(e);
        } else {
            outside.push(e);
        }
    }
    proof {
        assert(all.take(done) =~= all);
    }
    (inside, outside)
}

/// Sorts `crates` into those that may be published and the others.
pub fn split_crates(crates: Vec<Crate>) -> (r: (Vec<Crate>, Vec<Crate>))
    ensures
        r.0@ == publishable(crates@, true),
        r.1@ == publishable(crates@, false),
{
    let mut rest = crates;
    let mut yes: Vec<Crate> = Vec::new();
    let mut no: Vec<Crate> = Vec::new();
    let ghost all = crates@;
    let ghost done: int = 0;
    proof {
        assert(all.take(0) =~= Seq::<Crate>::empty());
        assert(all.skip(0) =~= all);
    }
    while rest.len() > 0
        invariant
            0 <= done <= all.len(),
            rest@ == all.skip(done),
            yes@ == publishable(all.take(done), true),
            no@ == publishable(all.take(done), false),
        decreases rest.len(),
    {
        let c = rest.remove(0);
        proof {
            assert(all.take(done + 1).drop_last() =~= all.take(done));
            assert(all.take(done + 1).last() == c);
            assert(rest@ =~= all.skip(done + 1));
            done = done + 1;
        }
        if c.package.publishable() {
            yes.push(c);
        } else {
            no.push(c);
        }
    }
    proof {
        assert(all.take(done) =~= all);
    }
    (yes, no)
}

/// Adds to `acc` the entries of `extra` whose name it does not hold yet.
pub fn add_entries(acc: &mut Vec<Entry>, extra: Vec<Entry>)
    ensures
        final(acc)@ == add_all_absent(old(acc)@, extra@),
{
    let mut rest = extra;
    let ghost all = extra@;
    let ghost done: int = 0;
    proof {
        assert(all.take(0) =~= Seq::<Entry>::empty());
        assert(all.skip(0) =~= all);
    }
    while rest.len() > 0
        invariant
            0 <= done <= all.len(),
            rest@ == all.skip(done),
            acc@ == add_all_absent(old(acc)@, all.take(done)),
        decreases rest.len(),
    {
        let e = rest.remove(0);
        proof {
            assert(all.take(done + 1).drop_last() =~= all.take(done));
            assert(all.take(done + 1).last() == e);
            assert(rest@ =~= all.skip(done + 1));
            done = done + 1;
        }
        if !crate::graph::has_dependency(acc, &e.name) {
            acc.push(e);
        }
    }
    proof {
        assert(all.take(done) =~= all);
    }
}

/// Position of the first of the first `upto` results that is an error, or
/// `upto`.
pub open spec fn first_failure(results: Seq<Result<Crate, Error>>, upto: int) -> int
    decreases upto,
{
    if upto <= 0 {
        0
    } else {
        let before = first_failure(results, upto - 1);
        if before < upto - 1 {
            before
        } else if results[upto - 1] is Err {
            upto - 1
        } else {
            upto
        }
    }
}

/// The members of a workspace, once each of them was loaded: all of them,
/// or the first failure with the position of the member that it concerns.
/// One member that cannot be loaded fails the whole.
pub fn gather(results: Vec<Result<Crate, Error>>) -> (r: Result<Vec<Crate>, (usize, Error)>)
    ensures
        match r {
            Ok(crates) => {
                &&& first_failure(results@, results@.len() as int) == results@.len()
                &&& crates@.len() == results@.len()
                &&& forall|i: int|
                    0 <= i < crates@.len() ==> results@[i] == Ok::<Crate, Error>(
                        #[trigger] crates@[i],
                    )
            },
            Err((at, e)) => {
                &&& at < results@.len()
                &&& first_failure(results@, results@.len() as int) == at
                &&& results@[at as int] == Err::<Crate, Error>(e)
            },
        },
{
    let mut rest = results;
    let mut crates: Vec<Crate> = Vec::new();
    let ghost all = results@;
    let ghost done: int = 0;
    proof {
        assert(all.skip(0) =~= all);
    }
    while rest.len() > 0
        invariant
            all == results@,
            0 <= done <= all.len(),
            rest@ == all.skip(done),
            crates@.len() == done,
            first_failure(all, done) == done,
            forall|i: int| 0 <= i < done ==> all[i] == Ok::<Crate, Error>(#[trigger] crates@[i]),
        decreases rest.len(),
    {
        let next = rest.remove(0);
        proof {
            assert(next == all.skip(done)[0]);
            assert(rest@ =~= all.skip(done + 1));
        }
        match next {
            Ok(c) => {
                crates.push(c);
                proof {
                    done = done + 1;
                }
            },
            Err(e) => {
                proof {
                    lemma_first_failure_stays(all, done + 1, all.len() as int);
                }
                return Err((crates.len(), e));
            },
        }
    }
    Ok(crates)
}

/// A failure among the first results is the first failure of them all.
pub proof fn lemma_first_failure_stays(results: Seq<Result<Crate, Error>>, k: int, n: int)
    requires
        0 <= k <= n,
        first_failure(results, k) < k,
    ensures
        first_failure(results, n) == first_failure(results, k),
    decreases n - k,
{
    if k < n {
        lemma_first_failure_stays(results, k, n - 1);
    }
}

fn names_of(crates: &Vec<Crate>) -> (r: Vec<String>)
    ensures
        r@.len() == crates.len(),
        forall|i: int| 0 <= i < crates.len() ==> r@[i] == crates@[i].package.name,
        texts(r@) == crate_names(crates@),
{
    let mut r: Vec<String> = Vec::new();
    let mut i: usize = 0;
    while i < crates.len()
        invariant
            i <= crates.len(),
            r@.len() == i,
            forall|j: int| 0 <= j < i ==> r@[j] == crates@[j].package.name,
        decreases crates.len() - i,
    {
        r.push(crates[i].package.name.clone());
        i = i + 1;
    }
    assert(texts(r@) =~= crate_names(crates@));
    r
}

impl CrateContext {
    /// Reads the context of a single package from its manifest document.
    pub fn load(file: String, folder: String, toml: String, table: &Value) -> (r: Result<
        CrateContext,
        Error,
    >)
        ensures
            match r {
                Ok(c) => {
                    &&& *table matches Value::Table(root)
                    &&& package_of(root@) matches Ok(p)
                    &&& crate_dependencies(root@) matches Ok(d)
                    &&& c.package == p
                    &&& c.dependencies@ == d
                    &&& c.file == file
                    &&& distinct(names(c.dependencies@))
                },
                Err(e) => e matches Error::Toml(m) && crate_fault(*table) == Some(m@),
            },
    {
        match Crate::load(file, folder, toml, table) {
            Ok(c) => Ok(
                CrateContext { file: c.file, package: c.package, dependencies: c.dependencies },
            ),
            Err(e) => Err(e),
        }
    }
}

impl WorkspaceContext {
    /// Whether `order` holds one position of `crates` for each of them.
    pub open spec fn wf(&self) -> bool {
        &&& self.order@.len() == self.crates@.len()
        &&& forall|p: int| 0 <= p < self.order@.len() ==> #[trigger] self.order@[p] < self.crates@.len()
    }

    /// Whether `order` holds one position of `crates` for each of them.
    pub fn is_wf(&self) -> (r: bool)
        ensures
            r == self.wf(),
    {
        if self.order.len() != self.crates.len() {
            return false;
        }
        let mut p: usize = 0;
        while p < self.order.len()
            invariant
                p <= self.order.len(),
                self.order@.len() == self.crates@.len(),
                forall|q: int| 0 <= q < p ==> #[trigger] self.order@[q] < self.crates@.len(),
            decreases self.order.len() - p,
        {
            if self.order[p] >= self.crates.len() {
                return false;
            }
            p = p + 1;
        }
        true
    }

    /// The names of `crates` in the order in which they can be published.
    pub open spec fn ordered_names(&self) -> Seq<Seq<char>> {
        Seq::new(self.order@.len(), |p: int| self.crates@[self.order@[p] as int].package.name@)
    }

    /// The names of the members in the order in which they can be
    /// published.
    pub fn packages(&self) -> (r: Vec<String>)
        requires
            self.wf(),
        ensures
            texts(r@) == self.ordered_names(),
    {
        let mut r: Vec<String> = Vec::new();
        let mut p: usize = 0;
        while p < self.order.len()
            invariant
                self.wf(),
                p <= self.order.len(),
                r@.len() == p,
                forall|q: int|
                    0 <= q < p ==> r@[q] == self.crates@[self.order@[q] as int].package.name,
            decreases self.order.len() - p,
        {
            r.push(self.crates[self.order[p]].package.name.clone());
            p = p + 1;
        }
        assert(texts(r@) =~= self.ordered_names());
        r
    }

    /// Puts a workspace together from its manifest and the manifests of its
    /// members, `crates`, in the order in which the workspace declares them.
    ///
    /// The members that may be published become `crates`, the others
    /// `excluded`. A dependency is internal where its name is that of a
    /// member; the others become `external`, those of the workspace first.
    /// `order` is the publish order of `crates`; where their dependencies
    /// have a cycle the result is `CycleDetected` with the name of the first
    /// member that is on a cycle or depends on one.
    pub fn load(file: String, folder: String, manifest: Manifest, crates: Vec<Crate>) -> (r:
        Result<WorkspaceContext, Error>)
        ensures
            match r {
                Ok(ctx) => {
                    let members = crate_names(crates@);
                    let eligible = publishable(crates@, true);
                    &&& ctx.file == file
                    &&& ctx.folder == folder
                    &&& ctx.manifest.file == manifest.file
                    &&& ctx.manifest.toml == manifest.toml
                    &&& ctx.manifest.workspace.members == manifest.workspace.members
                    &&& ctx.manifest.workspace.package == manifest.workspace.package
                    &&& ctx.manifest.workspace.dependencies@ == select(
                        manifest.workspace.dependencies@,
                        members,
                        true,
                    )
                    &&& ctx.crates@.len() == eligible.len()
                    &&& forall|i: int|
                        0 <= i < eligible.len() ==> is_pruned(
                            eligible[i],
                            #[trigger] ctx.crates@[i],
                            members,
                        )
                    &&& ctx.excluded@ == publishable(crates@, false)
                    &&& texts(ctx.projects@) == crate_names(eligible)
                    &&& ctx.external@ == externals(
                        select(manifest.workspace.dependencies@, members, false),
                        eligible,
                        members,
                    )
                    &&& !has_cycle(graph_of(eligible))
                    &&& topological(graph_of(eligible), ints(ctx.order@))
                    &&& ints(ctx.order@) == publish_schedule(graph_of(eligible))
                    &&& ctx.wf()
                },
                Err(e) => {
                    let eligible = publishable(crates@, true);
                    &&& has_cycle(graph_of(eligible))
                    &&& e matches Error::CycleDetected(name)
                    &&& exists|k: int| #[trigger]
                        first_blocked(graph_of(eligible), k) && name == eligible[k].package.name
                },
            },
    {
        let members = names_of(&crates);
        let ghost member_names = crate_names(crates@);
        let (eligible, excluded) = split_crates(crates);
        let ghost before = eligible@;
        let graph = DependencyGraph::build(&eligible);
        let order = match graph.publish_order() {
            Ok(order) => order,
            Err(k) => {
                assert(first_blocked(graph_of(before), k as int));
                return Err(Error::CycleDetected(eligible[k].package.name.clone()));
            },
        };
        let projects = names_of(&eligible);
        let Manifest { file: manifest_file, toml, workspace } = manifest;
        let crate::manifest::Workspace { members: declared, package, dependencies } = workspace;
        let (internal, outside) = split_dependencies(dependencies, &members);
        let mut external = outside;
        let mut rest = eligible;
        let mut pruned: Vec<Crate> = Vec::new();
        let ghost done: int = 0;
        proof {
            assert(before.take(0) =~= Seq::<Crate>::empty());
            assert(before.skip(0) =~= before);
        }
        while rest.len() > 0
            invariant
                0 <= done <= before.len(),
                rest@ == before.skip(done),
                texts(members@) == member_names,
                pruned@.len() == done,
                forall|i: int|
                    0 <= i < done ==> is_pruned(before[i], #[trigger] pruned@[i], member_names),
                external@ == externals(outside@, before.take(done), member_names),
            decreases rest.len(),
        {
            let c = rest.remove(0);
            proof {
                assert(before.take(done + 1).drop_last() =~= before.take(done));
                assert(before.take(done + 1).last() == c);
                assert(rest@ =~= before.skip(done + 1));
                done = done + 1;
            }
            let Crate { file, folder, toml, package, dependencies } = c;
            let (kept, foreign) = split_dependencies(dependencies, &members);
            add_entries(&mut external, foreign);
            pruned.push(Crate { file, folder, toml, package, dependencies: kept });
        }
        proof {
            assert(before.take(done) =~= before);
            assert forall|p: int| 0 <= p < order@.len() implies #[trigger] order@[p]
                < pruned@.len() by {
                assert(0 <= ints(order@)[p] < graph_of(before).len());
            }
        }
        Ok(
            WorkspaceContext {
                file,
                folder,
                manifest: Manifest {
                    file: manifest_file,
                    toml,
                    workspace: crate::manifest::Workspace {
                        members: declared,
                        package,
                        dependencies: internal,
                    },
                },
                crates: pruned,
                excluded,
                projects,
                external,
                order,
            },
        )
    }
}

impl Context {
    /// Whether a manifest document is that of a workspace: it is where it
    /// has a `workspace` entry.
    pub fn is_workspace(table: &Value) -> (r: bool)
        ensures
            r == table.field("workspace"@) is Some,
    {
        table.get("workspace").is_some()
    }

    /// The dependencies that are checked against the registry: of a
    /// workspace the external ones, of a single package all.
    pub open spec fn dependencies_spec(self) -> Dependencies {
        match self {
            Context::Workspace(ctx) => ctx.external,
            Context::Crate(ctx) => ctx.dependencies,
        }
    }

    /// The dependencies that are checked against the registry: of a
    /// workspace the external ones, of a single package all.
    pub fn dependencies(&self) -> (r: &Dependencies)
        ensures
            *r == self.dependencies_spec(),
    {
        match self {
            Context::Workspace(ctx) => &ctx.external,
            Context::Crate(ctx) => &ctx.dependencies,
        }
    }

    /// The path of the manifest.
    pub fn file(&self) -> (r: &String)
        ensures
            match *self {
                Context::Workspace(ctx) => *r == ctx.file,
                Context::Crate(ctx) => *r == ctx.file,
            },
    {
        match self {
            Context::Workspace(ctx) => &ctx.file,
            Context::Crate(ctx) => &ctx.file,
        }
    }
}

} // verus!
