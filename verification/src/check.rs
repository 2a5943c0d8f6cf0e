//! Checking the dependencies against the registry: which of them are
//! compared, in which order, and what is reported of each.

use vstd::prelude::*;
use vstd::string::*;
use crate::context::Context;
use crate::error::Error;
use crate::graph::ints;
use crate::manifest::{pinned_text, Dependency, Entry};
use crate::text::{
    compare, compare_spec, fit, fitted, lemma_compare_flip, lemma_compare_less_trans, spaces,
    Order,
};
use crate::version::{fault_text, parse_spec, version_text, Version, VersionView};

verus! {

/// The number of columns that the text `s` takes on a terminal, as
/// `unicode_width` counts them.
pub uninterp spec fn display_width(s: Seq<char>) -> nat;

/// `s` with spaces before it, as many as its `cols` columns lack to `width`.
pub open spec fn padded(s: Seq<char>, width: nat, cols: nat) -> Seq<char> {
    if cols >= width {
        s
    } else {
        spaces((width - cols) as nat) + s
    }
}

/// Calls `pad::PadStr::pad` with a space, right alignment and no
/// truncation: the text comes back with spaces before it, as many as its
/// display width lacks to `width`, and unchanged where it lacks none.
#[verifier::external_body]
fn pad_right(name: &str, width: usize) -> (r: String)
    ensures
        r@ == padded(name@, width as nat, display_width(name@)),
{
    pad::PadStr::pad(name, width, ' ', pad::Alignment::Right, false)
}

/// Checks for the latest version of the dependencies.
#[derive(Debug)]
pub struct Checker {
    pub ctx: Context,
}

/// A dependency that is compared with the registry.
#[derive(Debug)]
pub struct CheckItem {
    pub name: String,
    pub version: Version,
}

/// Why nothing is compared.
#[derive(Debug)]
pub enum Stop {
    /// A dependency inherits from a workspace: the manifest is that of a
    /// member.
    WorkspaceCrate,
    /// The dependency of this name has no version, for the reason given.
    Abort(String, String),
}

/// What a check does.
#[derive(Debug)]
pub struct CheckPlan {
    /// The width of the column of names.
    pub width: usize,
    /// The dependencies given by a path, which are not compared.
    pub ignored: Vec<String>,
    /// The dependencies to compare, by name.
    pub items: Vec<CheckItem>,
    /// Where the check stops before it compares anything.
    pub stop: Option<Stop>,
}

/// How a dependency stands to the registry.
#[derive(Debug, Clone, Copy, PartialEq, Eq, Structural)]
pub enum Status {
    Current,
    Update,
}

/// What a check makes of one dependency.
pub enum Class {
    Pinned(VersionView),
    Relative,
    Workspace,
    Faulty(Seq<char>),
}

/// What a [`Stop`] holds.
pub enum StopView {
    WorkspaceCrate,
    Abort(Seq<char>, Seq<char>),
}

/// What a [`CheckPlan`] holds, but for its width.
pub struct Scan {
    pub ignored: Seq<Seq<char>>,
    pub items: Seq<(Seq<char>, VersionView)>,
    pub stop: Option<StopView>,
}

/// What a check makes of the dependency `d`.
pub open spec fn classify(d: Dependency) -> Class {
    match pinned_text(d) {
        Some(s) => match parse_spec(s) {
            Ok(v) => Class::Pinned(v),
            Err(f) => Class::Faulty(fault_text(f, s)),
        },
        None => match d {
            Dependency::Table(t) => if t.version is Some {
                Class::Faulty("version is not a string"@)
            } else if t.workspace {
                Class::Workspace
            } else if t.path {
                Class::Relative
            } else {
                Class::Faulty("dependency is missing version property"@)
            },
            _ => Class::Faulty("dependency is not a string or a table"@),
        },
    }
}

/// Whether the dependency at `x` comes before the one at `y`: by name, and
/// of two with one name the one declared first.
pub open spec fn name_before(deps: Seq<Entry>, x: int, y: int) -> bool {
    let o = compare_spec(deps[x].name@, deps[y].name@);
    o == Order::Less || (o == Order::Equal && x < y)
}

/// Whether `order` holds every position of `deps` once, sorted by name.
pub open spec fn is_name_order(deps: Seq<Entry>, order: Seq<int>) -> bool {
    &&& order.len() == deps.len()
    &&& order.no_duplicates()
    &&& forall|p: int| 0 <= p < order.len() ==> 0 <= #[trigger] order[p] < deps.len()
    &&& forall|v: int| 0 <= v < deps.len() ==> order.contains(v)
    &&& forall|a: int, b: int|
        0 <= a < b < order.len() ==> name_before(deps, #[trigger] order[a], #[trigger] order[b])
}

/// What the check finds in the first `upto` dependencies of `order`: it
/// stops at the first that inherits from a workspace or has a fault.
pub open spec fn scan(deps: Seq<Entry>, order: Seq<int>, upto: nat) -> Scan
    decreases upto,
{
    if upto == 0 {
        Scan { ignored: Seq::empty(), items: Seq::empty(), stop: None }
    } else {
        let before = scan(deps, order, (upto - 1) as nat);
        let e = deps[order[upto - 1]];
        if before.stop is Some {
            before
        } else {
            match classify(e.dependency) {
                Class::Pinned(v) => Scan { items: before.items.push((e.name@, v)), ..before },
                Class::Relative => Scan { ignored: before.ignored.push(e.name@), ..before },
                Class::Workspace => Scan { stop: Some(StopView::WorkspaceCrate), ..before },
                Class::Faulty(m) => Scan { stop: Some(StopView::Abort(e.name@, m)), ..before },
            }
        }
    }
}

/// The greatest length of a name among the first `upto` of `deps`.
pub open spec fn longest(deps: Seq<Entry>, upto: nat) -> nat
    decreases upto,
{
    if upto == 0 {
        0
    } else {
        let before = longest(deps, (upto - 1) as nat);
        if deps[upto - 1].name@.len() > before {
            deps[upto - 1].name@.len()
        } else {
            before
        }
    }
}

/// The width of the column of names: two more than the longest name, as far
/// as that can be counted.
pub open spec fn column_width(deps: Seq<Entry>) -> nat {
    if longest(deps, deps.len()) + 2 > usize::MAX {
        usize::MAX as nat
    } else {
        longest(deps, deps.len()) + 2
    }
}

impl View for CheckPlan {
    type V = Scan;

    open spec fn view(&self) -> Scan {
        Scan {
            ignored: Seq::new(self.ignored@.len(), |i: int| self.ignored@[i]@),
            items: Seq::new(
                self.items@.len(),
                |i: int| (self.items@[i].name@, self.items@[i].version@),
            ),
            stop: match self.stop {
                Some(Stop::WorkspaceCrate) => Some(StopView::WorkspaceCrate),
                Some(Stop::Abort(n, m)) => Some(StopView::Abort(n@, m@)),
                None => None,
            },
        }
    }
}

/// The line that reports one dependency.
pub open spec fn line_spec(
    name: Seq<char>,
    width: nat,
    version: VersionView,
    latest: VersionView,
) -> Seq<char> {
    let column = fitted(padded(name, width, display_width(name)), 4);
    if version == latest {
        column + " "@ + version_text(version) + " -- "@ + version_text(latest) + " - ok"@
    } else {
        column + " "@ + version_text(version) + " -> "@ + version_text(latest) + " - update"@
    }
}

/// Once the check has stopped, or has seen every dependency, what it found
/// stays.
pub proof fn lemma_scan_stays(deps: Seq<Entry>, order: Seq<int>, k: nat, n: nat)
    requires
        k <= n,
        scan(deps, order, k).stop is Some || k == n,
    ensures
        scan(deps, order, n) == scan(deps, order, k),
    decreases n - k,
{
    if k < n {
        lemma_scan_stays(deps, order, k, (n - 1) as nat);
    }
}

/// The positions of `deps`, sorted by name.
pub fn name_order(deps: &Vec<Entry>) -> (order: Vec<usize>)
    ensures
        is_name_order(deps@, ints(order@)),
{
    let n = deps.len();
    let mut out: Vec<usize> = Vec::new();
    let mut i: usize = 0;
    while i < n
        invariant
            n == deps.len(),
            i <= n,
            out.len() == i,
            ints(out@).no_duplicates(),
            forall|p: int| 0 <= p < out.len() ==> out[p] < i,
            forall|v: int| 0 <= v < i ==> ints(out@).contains(v),
            forall|a: int, b: int|
                0 <= a < b < out.len() ==> name_before(deps@, out[a] as int, out[b] as int),
        decreases n - i,
    {
        let mut pos: usize = 0;
        let mut found = false;
        while pos < out.len() && !found
            invariant
                n == deps.len(),
                i < n,
                pos <= out.len(),
                forall|p: int| 0 <= p < out.len() ==> out[p] < i,
                forall|k: int|
                    0 <= k < pos ==> compare_spec(deps@[out[k] as int].name@, deps@[i as int].name@)
                        != Order::Greater,
                found ==> pos < out.len() && compare_spec(
                    deps@[out[pos as int] as int].name@,
                    deps@[i as int].name@,
                ) == Order::Greater,
            decreases out.len() - pos + (if found {
                0int
            } else {
                1int
            }),
        {
            match compare(deps[out[pos]].name.as_str(), deps[i].name.as_str()) {
                Order::Greater => {
                    found = true;
                },
                _ => {
                    pos = pos + 1;
                },
            }
        }
        let ghost before = out@;
        out.insert(pos, i);
        proof {
            let old_ints = ints(before);
            let new_ints = ints(out@);
            assert(out@.len() == before.len() + 1);
            assert forall|k: int| 0 <= k < out@.len() implies out@[k] == (if k < pos {
                before[k]
            } else if k == pos {
                i
            } else {
                before[k - 1]
            }) by {}
            assert forall|a: int, b: int|
                0 <= a < new_ints.len() && 0 <= b < new_ints.len() && a != b implies new_ints[a]
                != new_ints[b] by {
                let x = if a < pos {
                    a
                } else {
                    a - 1
                };
                let y = if b < pos {
                    b
                } else {
                    b - 1
                };
                if a != pos && b != pos {
                    assert(old_ints[x] != old_ints[y]);
                }
            }
            assert forall|v: int| 0 <= v < i + 1 implies new_ints.contains(v) by {
                if v == i {
                    assert(new_ints[pos as int] == v);
                } else {
                    assert(old_ints.contains(v));
                    let k = choose|k: int| 0 <= k < old_ints.len() && old_ints[k] == v;
                    if k < pos {
                        assert(new_ints[k] == v);
                    } else {
                        assert(new_ints[k + 1] == v);
                    }
                }
            }
            assert forall|a: int, b: int| 0 <= a < b < out.len() implies name_before(
                deps@,
                out[a] as int,
                out[b] as int,
            ) by {
                let here = deps@[i as int].name@;
                if b == pos {
                    assert(compare_spec(deps@[before[a] as int].name@, here) != Order::Greater);
                } else if a == pos {
                    let first = deps@[before[pos as int] as int].name@;
                    let other = deps@[before[b - 1] as int].name@;
                    lemma_compare_flip(first, here);
                    if b - 1 > pos {
                        assert(name_before(deps@, before[pos as int] as int, before[b - 1] as int));
                        lemma_compare_less_trans(here, first, other);
                    }
                } else {
                    let x = if a < pos {
                        a
                    } else {
                        a - 1
                    };
                    let y = if b < pos {
                        b
                    } else {
                        b - 1
                    };
                    assert(name_before(deps@, before[x] as int, before[y] as int));
                }
            }
        }
        i = i + 1;
    }
    out
}

/// What a check makes of one dependency, with the version or the reason as
/// a string.
enum Found {
    Pinned(Version),
    Relative,
    Workspace,
    Faulty(String),
}

fn classified(d: &Dependency) -> (r: Found)
    ensures
        match r {
            Found::Pinned(v) => classify(*d) == Class::Pinned(v@),
            Found::Relative => classify(*d) is Relative,
            Found::Workspace => classify(*d) is Workspace,
            Found::Faulty(m) => classify(*d) == Class::Faulty(m@),
        },
{
    match d.version() {
        Ok(v) => Found::Pinned(v),
        Err(Error::WorkspaceCrate) => Found::Workspace,
        Err(Error::RelativeCrate) => Found::Relative,
        Err(Error::String(m)) => Found::Faulty(m),
        Err(e) => Found::Faulty(e.message()),
    }
}

fn width_of(deps: &Vec<Entry>) -> (r: usize)
    ensures
        r == column_width(deps@),
{
    let mut longest_yet: usize = 0;
    let mut i: usize = 0;
    while i < deps.len()
        invariant
            i <= deps.len(),
            longest_yet == longest(deps@, i as nat),
        decreases deps.len() - i,
    {
        let n = deps[i].name.as_str().unicode_len();
        if n > longest_yet {
            longest_yet = n;
        }
        i = i + 1;
    }
    if longest_yet > usize::MAX - 2 {
        usize::MAX
    } else {
        longest_yet + 2
    }
}

impl Checker {
    pub fn new(ctx: Context) -> (r: Checker)
        ensures
            r.ctx == ctx,
    {
        Checker { ctx }
    }

    /// What is to be compared with the registry: the dependencies of the
    /// context, sorted by name, up to the first that inherits from a
    /// workspace or whose version cannot be read, where the check stops.
    /// Those given by a path are set aside; the others are to be compared.
    pub fn check(&self) -> (plan: CheckPlan)
        ensures
            plan.width == column_width(self.ctx.dependencies_spec()@),
            exists|order: Seq<int>| #[trigger]
                is_name_order(self.ctx.dependencies_spec()@, order) && plan@ == scan(
                    self.ctx.dependencies_spec()@,
                    order,
                    order.len(),
                ),
    {
        let deps = self.ctx.dependencies();
        let order = name_order(deps);
        let width = width_of(deps);
        let mut plan = CheckPlan { width, ignored: Vec::new(), items: Vec::new(), stop: None };
        let mut p: usize = 0;
        assert(plan@.ignored =~= Seq::<Seq<char>>::empty());
        assert(plan@.items =~= Seq::<(Seq<char>, VersionView)>::empty());
        while p < order.len() && plan.stop.is_none()
            invariant
                is_name_order(deps@, ints(order@)),
                p <= order.len(),
                plan.width == width,
                plan@ == scan(deps@, ints(order@), p as nat),
            decreases order.len() - p,
        {
            let ghost before = plan@;
            assert(0 <= ints(order@)[p as int] < deps@.len());
            let e = &deps[order[p]];
            match classified(&e.dependency) {
                Found::Pinned(version) => {
                    plan.items.push(CheckItem { name: e.name.clone(), version });
                    assert(plan@.items =~= before.items.push((e.name@, version@)));
                    assert(plan@.ignored =~= before.ignored);
                },
                Found::Relative => {
                    plan.ignored.push(e.name.clone());
                    assert(plan@.ignored =~= before.ignored.push(e.name@));
                    assert(plan@.items =~= before.items);
                },
                Found::Workspace => {
                    plan.stop = Some(Stop::WorkspaceCrate);
                    assert(plan@.ignored =~= before.ignored);
                    assert(plan@.items =~= before.items);
                },
                Found::Faulty(m) => {
                    plan.stop = Some(Stop::Abort(e.name.clone(), m));
                    assert(plan@.ignored =~= before.ignored);
                    assert(plan@.items =~= before.items);
                },
            }
            p = p + 1;
        }
        proof {
            lemma_scan_stays(deps@, ints(order@), p as nat, order@.len());
        }
        plan
    }

    /// How a dependency at `version` stands to the registry, which has
    /// `latest`, and the line that reports it, the name in a column of
    /// `width`.
    pub fn line(name: &str, width: usize, version: &Version, latest: &Version) -> (r: (
        Status,
        String,
    ))
        ensures
            r.0 == (if version@ == latest@ {
                Status::Current
            } else {
                Status::Update
            }),
            r.1@ == line_spec(name@, width as nat, version@, latest@),
    {
        let column = pad_right(name, width);
        let mut text = fit(column.as_str(), 4);
        text.append(" ");
        text.append(version.to_string().as_str());
        if version.same(latest) {
            text.append(" -- ");
            text.append(latest.to_string().as_str());
            text.append(" - ok");
            (Status::Current, text)
        } else {
            text.append(" -> ");
            text.append(latest.to_string().as_str());
            text.append(" - update");
            (Status::Update, text)
        }
    }
}

} // verus!
