//! The graph of dependencies between the packages of a workspace, and the
//! order in which they can be published.

use vstd::prelude::*;
use vstd::set_lib::{lemma_int_range, lemma_len_subset, set_int_range};
use crate::manifest::{names, Crate, Entry};

verus! {

/// The packages of a workspace and, for each, the packages it depends on.
///
/// A node is a position in `names`, which keeps the order of declaration.
#[derive(Debug)]
pub struct DependencyGraph {
    pub names: Vec<String>,
    /// `edges[a]` holds every `b` such that package `a` depends on package
    /// `b`.
    pub edges: Vec<Vec<usize>>,
}

/// A list of nodes as integers.
pub open spec fn ints(v: Seq<usize>) -> Seq<int> {
    Seq::new(v.len(), |i: int| v[i] as int)
}

/// Whether every edge of `adj` leads to a node of `adj`.
pub open spec fn well_formed(adj: Seq<Seq<int>>) -> bool {
    forall|a: int, k: int|
        0 <= a < adj.len() && 0 <= k < adj[a].len() ==> 0 <= #[trigger] adj[a][k] < adj.len()
}

/// Whether `a` depends on `b`.
pub open spec fn edge(adj: Seq<Seq<int>>, a: int, b: int) -> bool {
    0 <= a < adj.len() && adj[a].contains(b)
}

/// Whether `w[i]` depends on `w[i + 1]`.
pub open spec fn step(adj: Seq<Seq<int>>, w: Seq<int>, i: int) -> bool {
    edge(adj, w[i], w[i + 1])
}

/// Whether `w` is a chain of nodes in which each depends on the next.
pub open spec fn walk(adj: Seq<Seq<int>>, w: Seq<int>) -> bool {
    &&& w.len() >= 1
    &&& 0 <= w[0] < adj.len()
    &&& forall|i: int| 0 <= i < w.len() - 1 ==> #[trigger] step(adj, w, i)
}

/// Whether some chain of dependencies leads from a node back to itself.
pub open spec fn has_cycle(adj: Seq<Seq<int>>) -> bool {
    exists|w: Seq<int>| #[trigger] walk(adj, w) && w.len() >= 2 && w.first() == w.last()
}

/// Whether a chain of dependencies as long as the whole graph starts at `k`:
/// so it is with the nodes of a cycle and with those that depend on one.
pub open spec fn blocked(adj: Seq<Seq<int>>, k: int) -> bool {
    exists|w: Seq<int>| #[trigger] walk(adj, w) && w.len() == adj.len() + 1 && w[0] == k
}

/// Whether everything that `ord[p]` depends on stands before it in `ord`.
pub open spec fn settled(adj: Seq<Seq<int>>, ord: Seq<int>, p: int) -> bool {
    forall|b: int| edge(adj, ord[p], b) ==> ord.take(p).contains(b)
}

/// Whether everything in `ord` stands after all that it depends on.
pub open spec fn all_settled(adj: Seq<Seq<int>>, ord: Seq<int>) -> bool {
    forall|p: int| 0 <= p < ord.len() ==> #[trigger] settled(adj, ord, p)
}

/// Whether `ord` holds every node once, each after all it depends on.
pub open spec fn topological(adj: Seq<Seq<int>>, ord: Seq<int>) -> bool {
    &&& ord.len() == adj.len()
    &&& ord.no_duplicates()
    &&& forall|p: int| 0 <= p < ord.len() ==> 0 <= #[trigger] ord[p] < adj.len()
    &&& forall|v: int| 0 <= v < adj.len() ==> ord.contains(v)
    &&& forall|p: int, q: int|
        0 <= p < ord.len() && 0 <= q < ord.len() && edge(adj, ord[p], ord[q]) ==> q < p
}

/// Whether node `v` is not placed while all that it depends on is.
pub open spec fn ready(adj: Seq<Seq<int>>, placed: Seq<bool>, v: int) -> bool {
    &&& 0 <= v < adj.len()
    &&& !placed[v]
    &&& forall|k: int| 0 <= k < adj[v].len() ==> placed[#[trigger] adj[v][k]]
}

/// The nodes among the first `m` that are ready, in the order of
/// declaration.
pub open spec fn batch(adj: Seq<Seq<int>>, placed: Seq<bool>, m: nat) -> Seq<int>
    decreases m,
{
    if m == 0 {
        Seq::<int>::empty()
    } else {
        let before = batch(adj, placed, (m - 1) as nat);
        if ready(adj, placed, m - 1) {
            before.push(m - 1)
        } else {
            before
        }
    }
}

/// `placed` with the nodes of `nodes` placed as well.
pub open spec fn mark(placed: Seq<bool>, nodes: Seq<int>) -> Seq<bool> {
    Seq::new(placed.len(), |v: int| placed[v] || nodes.contains(v))
}

/// No node placed, of `n`.
pub open spec fn unplaced(n: nat) -> Seq<bool> {
    Seq::new(n, |v: int| false)
}

/// The nodes in the order in which they are placed, from the state `placed`
/// on and in at most `passes` passes: those that are ready, in the order of
/// declaration, and then again those that are ready once these are placed,
/// until none is ready.
pub open spec fn schedule(adj: Seq<Seq<int>>, placed: Seq<bool>, passes: nat) -> Seq<int>
    decreases passes,
{
    let now = batch(adj, placed, adj.len());
    if passes == 0 || now.len() == 0 {
        Seq::<int>::empty()
    } else {
        now + schedule(adj, mark(placed, now), (passes - 1) as nat)
    }
}

/// The order in which the nodes of `adj` are placed; it holds them all
/// where the graph has no cycle.
pub open spec fn publish_schedule(adj: Seq<Seq<int>>) -> Seq<int> {
    schedule(adj, unplaced(adj.len()), adj.len())
}

/// What `batch` holds.
pub proof fn lemma_batch(adj: Seq<Seq<int>>, placed: Seq<bool>, m: nat)
    ensures
        forall|x: int| batch(adj, placed, m).contains(x) <==> (0 <= x < m && ready(adj, placed, x)),
        forall|a: int, b: int|
            0 <= a < b < batch(adj, placed, m).len() ==> batch(adj, placed, m)[a] < batch(
                adj,
                placed,
                m,
            )[b],
        forall|k: int|
            0 <= k < batch(adj, placed, m).len() ==> 0 <= #[trigger] batch(adj, placed, m)[k] < m,
    decreases m,
{
    let now = batch(adj, placed, m);
    if m > 0 {
        lemma_batch(adj, placed, (m - 1) as nat);
        let before = batch(adj, placed, (m - 1) as nat);
        assert forall|x: int| now.contains(x) <==> (0 <= x < m && ready(adj, placed, x)) by {
            if ready(adj, placed, m - 1) {
                lemma_push_contains(before, m - 1, x);
            }
        }
    } else {
        assert forall|x: int| now.contains(x) <==> (0 <= x < m && ready(adj, placed, x)) by {
            if now.contains(x) {
                let k = choose|k: int| 0 <= k < now.len() && now[k] == x;
            }
        }
    }
}

/// Whether package `i` names package `j`, another one, among its
/// dependencies.
pub open spec fn depends_on(crates: Seq<Crate>, i: int, j: int) -> bool {
    i != j && names(crates[i].dependencies@).contains(crates[j].package.name@)
}

/// The packages among the first `m` that package `i` depends on, in the
/// order of declaration.
pub open spec fn targets(crates: Seq<Crate>, i: int, m: nat) -> Seq<int>
    decreases m,
{
    if m == 0 {
        Seq::<int>::empty()
    } else {
        let before = targets(crates, i, (m - 1) as nat);
        if depends_on(crates, i, m - 1) {
            before.push(m - 1)
        } else {
            before
        }
    }
}

/// The dependency graph of `crates`: one node for each, in order.
pub open spec fn graph_of(crates: Seq<Crate>) -> Seq<Seq<int>> {
    Seq::new(crates.len(), |i: int| targets(crates, i, crates.len()))
}

/// What `targets` holds.
pub proof fn lemma_targets(crates: Seq<Crate>, i: int, m: nat, x: int)
    ensures
        targets(crates, i, m).contains(x) <==> (0 <= x < m && depends_on(crates, i, x)),
    decreases m,
{
    if m > 0 {
        lemma_targets(crates, i, (m - 1) as nat, x);
        let before = targets(crates, i, (m - 1) as nat);
        if depends_on(crates, i, m - 1) {
            lemma_push_contains(before, m - 1, x);
        }
    } else {
        let t = targets(crates, i, m);
        if t.contains(x) {
            let k = choose|k: int| 0 <= k < t.len() && t[k] == x;
        }
    }
}

/// The graph of `crates` has an edge from `i` to `j` exactly where package
/// `i` names package `j`, another one, among its dependencies; and all its
/// edges lead to nodes.
pub proof fn lemma_graph_of(crates: Seq<Crate>)
    ensures
        well_formed(graph_of(crates)),
        forall|i: int, j: int|
            edge(graph_of(crates), i, j) <==> (0 <= i < crates.len() && 0 <= j < crates.len()
                && depends_on(crates, i, j)),
{
    let g = graph_of(crates);
    assert forall|a: int, k: int| 0 <= a < g.len() && 0 <= k < g[a].len() implies 0
        <= #[trigger] g[a][k] < g.len() by {
        lemma_targets(crates, a, crates.len(), g[a][k]);
        assert(g[a].contains(g[a][k]));
    }
    assert forall|i: int, j: int|
        edge(g, i, j) <==> (0 <= i < crates.len() && 0 <= j < crates.len() && depends_on(
            crates,
            i,
            j,
        )) by {
        if 0 <= i < crates.len() {
            lemma_targets(crates, i, crates.len(), j);
        }
    }
}

/// In an order that is topological for the packages `crates`, every package
/// stands after all the packages that it names among its dependencies.
pub proof fn lemma_order_respects_dependencies(crates: Seq<Crate>, ord: Seq<int>)
    requires
        topological(graph_of(crates), ord),
    ensures
        forall|p: int, q: int|
            0 <= p < ord.len() && 0 <= q < ord.len() && depends_on(crates, ord[p], ord[q]) ==> q
                < p,
{
    lemma_graph_of(crates);
    assert forall|p: int, q: int|
        0 <= p < ord.len() && 0 <= q < ord.len() && depends_on(crates, ord[p], ord[q]) implies q
        < p by {
        assert(0 <= ord[p] < crates.len());
        assert(0 <= ord[q] < crates.len());
        assert(edge(graph_of(crates), ord[p], ord[q]));
    }
}

/// A list without repetition of nodes below `n` has at most `n` items, and
/// exactly `n` where it holds them all.
pub proof fn lemma_bounded_distinct(s: Seq<int>, n: int)
    requires
        n >= 0,
        s.no_duplicates(),
        forall|i: int| 0 <= i < s.len() ==> 0 <= #[trigger] s[i] < n,
    ensures
        s.len() <= n,
        (forall|v: int| 0 <= v < n ==> s.contains(v)) ==> s.len() == n,
{
    s.unique_seq_to_set();
    lemma_int_range(0, n);
    assert(s.to_set().subset_of(set_int_range(0, n))) by {
        assert forall|v: int| s.to_set().contains(v) implies set_int_range(0, n).contains(v) by {
            let i = choose|i: int| 0 <= i < s.len() && s[i] == v;
            assert(0 <= s[i] < n);
        }
    }
    lemma_len_subset(s.to_set(), set_int_range(0, n));
    if forall|v: int| 0 <= v < n ==> s.contains(v) {
        assert(set_int_range(0, n).subset_of(s.to_set())) by {
            assert forall|v: int| set_int_range(0, n).contains(v) implies s.to_set().contains(
                v,
            ) by {
                assert(s.contains(v));
            }
        }
        lemma_len_subset(set_int_range(0, n), s.to_set());
    }
}

/// Every node of a chain is a node of the graph.
pub proof fn lemma_walk_in_range(adj: Seq<Seq<int>>, w: Seq<int>, i: int)
    requires
        well_formed(adj),
        walk(adj, w),
        0 <= i < w.len(),
    ensures
        0 <= w[i] < adj.len(),
{
    if i > 0 {
        assert(step(adj, w, i - 1));
        let a = w[i - 1];
        let k = choose|k: int| 0 <= k < adj[a].len() && adj[a][k] == w[i];
        assert(0 <= adj[a][k] < adj.len());
    }
}

/// Along a chain that starts at `ord[from]`, each node stands at least one
/// place further to the front of `ord` than the one before it.
pub proof fn lemma_walk_descends(
    adj: Seq<Seq<int>>,
    ord: Seq<int>,
    w: Seq<int>,
    i: int,
    from: int,
) -> (q: int)
    requires
        all_settled(adj, ord),
        walk(adj, w),
        0 <= i < w.len(),
        0 <= from < ord.len(),
        ord[from] == w[0],
    ensures
        0 <= q <= from - i,
        ord[q] == w[i],
    decreases i,
{
    if i == 0 {
        from
    } else {
        let q1 = lemma_walk_descends(adj, ord, w, i - 1, from);
        assert(step(adj, w, i - 1));
        assert(settled(adj, ord, q1));
        assert(ord.take(q1).contains(w[i]));
        let q = choose|q: int| 0 <= q < ord.take(q1).len() && ord.take(q1)[q] == w[i];
        q
    }
}

/// A chain longer than the graph has nodes passes some node twice, so the
/// graph has a cycle.
pub proof fn lemma_long_walk_has_cycle(adj: Seq<Seq<int>>, w: Seq<int>)
    requires
        well_formed(adj),
        walk(adj, w),
        w.len() > adj.len(),
    ensures
        has_cycle(adj),
{
    assert forall|i: int| 0 <= i < w.len() implies 0 <= #[trigger] w[i] < adj.len() by {
        lemma_walk_in_range(adj, w, i);
    }
    if w.no_duplicates() {
        lemma_bounded_distinct(w, adj.len() as int);
        assert(false);
    }
    let (i, j) = choose|i: int, j: int|
        0 <= i < w.len() && 0 <= j < w.len() && i != j && w[i] == w[j];
    let (lo, hi) = if i < j {
        (i, j)
    } else {
        (j, i)
    };
    let c = w.subrange(lo, hi + 1);
    assert(walk(adj, c)) by {
        assert forall|t: int| 0 <= t < c.len() - 1 implies #[trigger] step(adj, c, t) by {
            assert(step(adj, w, lo + t));
        }
    }
    assert(c.first() == c.last());
}

/// Where everything in `ord` stands after all it depends on, no node of
/// `ord` is blocked and no cycle passes through one.
pub proof fn lemma_settled_not_blocked(adj: Seq<Seq<int>>, ord: Seq<int>, p: int)
    requires
        all_settled(adj, ord),
        0 <= p < ord.len(),
        ord.len() <= adj.len(),
    ensures
        !blocked(adj, ord[p]),
{
    if blocked(adj, ord[p]) {
        let w = choose|w: Seq<int>| #[trigger]
            walk(adj, w) && w.len() == adj.len() + 1 && w[0] == ord[p];
        let q = lemma_walk_descends(adj, ord, w, adj.len() as int, p);
        assert(false);
    }
}

/// A graph whose nodes can all be put after what they depend on has no
/// cycle.
pub proof fn lemma_settled_no_cycle(adj: Seq<Seq<int>>, ord: Seq<int>)
    requires
        all_settled(adj, ord),
        ord.no_duplicates(),
        forall|v: int| 0 <= v < adj.len() ==> ord.contains(v),
    ensures
        !has_cycle(adj),
{
    if has_cycle(adj) {
        let w = choose|w: Seq<int>| #[trigger]
            walk(adj, w) && w.len() >= 2 && w.first() == w.last();
        assert(ord.contains(w[0]));
        let from = choose|from: int| 0 <= from < ord.len() && ord[from] == w[0];
        let q = lemma_walk_descends(adj, ord, w, w.len() - 1, from);
        assert(ord[q] == ord[from] && q != from);
        assert(false);
    }
}

/// From a node that is not placed, where no node is ready, a chain of any
/// length starts.
pub proof fn lemma_stuck_walk(adj: Seq<Seq<int>>, placed: Seq<bool>, u: int, m: nat) -> (w: Seq<
    int,
>)
    requires
        well_formed(adj),
        placed.len() == adj.len(),
        0 <= u < adj.len(),
        !placed[u],
        forall|v: int| 0 <= v < adj.len() ==> !ready(adj, placed, v),
        m >= 1,
    ensures
        walk(adj, w),
        w.len() == m,
        w[0] == u,
    decreases m,
{
    if m == 1 {
        seq![u]
    } else {
        assert(!ready(adj, placed, u));
        let k = choose|k: int| 0 <= k < adj[u].len() && !placed[#[trigger] adj[u][k]];
        let next = adj[u][k];
        assert(0 <= next < adj.len());
        let rest = lemma_stuck_walk(adj, placed, next, (m - 1) as nat);
        let w = seq![u] + rest;
        assert forall|i: int| 0 <= i < w.len() - 1 implies #[trigger] step(adj, w, i) by {
            if i == 0 {
                assert(w[1] == rest[0]);
                assert(adj[u].contains(next));
            } else {
                assert(step(adj, rest, i - 1));
                assert(w[i] == rest[i - 1]);
                assert(w[i + 1] == rest[i]);
            }
        }
        w
    }
}

/// An order that is topological shows that the graph has no cycle.
pub proof fn lemma_topological_no_cycle(adj: Seq<Seq<int>>, ord: Seq<int>)
    requires
        well_formed(adj),
        topological(adj, ord),
    ensures
        !has_cycle(adj),
{
    assert(all_settled(adj, ord)) by {
        assert forall|p: int| 0 <= p < ord.len() implies #[trigger] settled(adj, ord, p) by {
            assert forall|b: int| edge(adj, ord[p], b) implies ord.take(p).contains(b) by {
                let a = ord[p];
                let k = choose|k: int| 0 <= k < adj[a].len() && adj[a][k] == b;
                assert(0 <= adj[a][k] < adj.len());
                assert(ord.contains(b));
                let q = choose|q: int| 0 <= q < ord.len() && ord[q] == b;
                assert(q < p);
                assert(ord.take(p)[q] == b);
            }
        }
    }
    lemma_settled_no_cycle(adj, ord);
}

/// What `push` does to membership.
pub proof fn lemma_push_contains<A>(s: Seq<A>, v: A, x: A)
    ensures
        s.push(v).contains(x) <==> (s.contains(x) || x == v),
{
    let t = s.push(v);
    if t.contains(x) {
        let k = choose|k: int| 0 <= k < t.len() && t[k] == x;
        if k < s.len() {
            assert(s[k] == x);
        }
    }
    if s.contains(x) {
        let k = choose|k: int| 0 <= k < s.len() && s[k] == x;
        assert(t[k] == x);
    }
    if x == v {
        assert(t[s.len() as int] == x);
    }
}

/// Whether `deps` has an entry under `name`.
pub fn has_dependency(deps: &Vec<Entry>, name: &String) -> (r: bool)
    ensures
        r == names(deps@).contains(name@),
{
    let mut i: usize = 0;
    while i < deps.len()
        invariant
            i <= deps.len(),
            forall|j: int| 0 <= j < i ==> names(deps@)[j] != name@,
        decreases deps.len() - i,
    {
        if deps[i].name == *name {
            assert(names(deps@)[i as int] == name@);
            return true;
        }
        i = i + 1;
    }
    false
}

fn edges_of(crates: &Vec<Crate>, i: usize) -> (out: Vec<usize>)
    requires
        i < crates.len(),
    ensures
        ints(out@) == targets(crates@, i as int, crates.len() as nat),
{
    let n = crates.len();
    let mut out: Vec<usize> = Vec::new();
    let mut j: usize = 0;
    assert(ints(out@) =~= targets(crates@, i as int, 0));
    while j < n
        invariant
            n == crates.len(),
            i < n,
            j <= n,
            ints(out@) == targets(crates@, i as int, j as nat),
        decreases n - j,
    {
        let ghost before = ints(out@);
        if j != i && has_dependency(&crates[i].dependencies, &crates[j].package.name) {
            out.push(j);
            assert(ints(out@) =~= before.push(j as int));
        }
        j = j + 1;
    }
    out
}

impl DependencyGraph {
    /// For each node, the nodes it depends on.
    pub open spec fn adj(&self) -> Seq<Seq<int>> {
        Seq::new(self.edges@.len(), |a: int| ints(self.edges@[a]@))
    }

    /// Whether the graph has one list of edges for each name, and every edge
    /// leads to a node.
    pub open spec fn wf(&self) -> bool {
        self.edges@.len() == self.names@.len() && well_formed(self.adj())
    }

    /// The graph of the packages `crates`, with their names.
    pub fn build(crates: &Vec<Crate>) -> (g: DependencyGraph)
        ensures
            g.wf(),
            g.adj() == graph_of(crates@),
            g.names@.len() == crates.len(),
            forall|i: int| 0 <= i < crates.len() ==> g.names@[i] == crates@[i].package.name,
    {
        let n = crates.len();
        let mut names: Vec<String> = Vec::new();
        let mut edges: Vec<Vec<usize>> = Vec::new();
        let mut i: usize = 0;
        while i < n
            invariant
                n == crates.len(),
                i <= n,
                names.len() == i,
                edges.len() == i,
                forall|a: int| 0 <= a < i ==> names@[a] == crates@[a].package.name,
                forall|a: int|
                    0 <= a < i ==> ints(#[trigger] edges@[a]@) == targets(crates@, a, n as nat),
            decreases n - i,
        {
            names.push(crates[i].package.name.clone());
            edges.push(edges_of(crates, i));
            i = i + 1;
        }
        let g = DependencyGraph { names, edges };
        proof {
            assert(g.adj() =~= graph_of(crates@));
            lemma_graph_of(crates@);
        }
        g
    }

    fn is_ready(&self, placed: &Vec<bool>, v: usize) -> (r: bool)
        requires
            self.wf(),
            placed.len() == self.edges.len(),
            v < self.edges.len(),
        ensures
            r == ready(self.adj(), placed@, v as int),
    {
        if placed[v] {
            return false;
        }
        let deps = &self.edges[v];
        let mut k: usize = 0;
        while k < deps.len()
            invariant
                self.wf(),
                placed.len() == self.edges.len(),
                v < self.edges.len(),
                deps == &self.edges[v as int],
                k <= deps.len(),
                !placed[v as int],
                forall|t: int| 0 <= t < k ==> placed[#[trigger] self.adj()[v as int][t]],
            decreases deps.len() - k,
        {
            assert(self.adj()[v as int][k as int] == deps[k as int]);
            assert(0 <= self.adj()[v as int][k as int] < self.adj().len());
            if !placed[deps[k]] {
                return false;
            }
            k = k + 1;
        }
        true
    }

    /// The nodes that are ready, in the order of declaration.
    fn ready_nodes(&self, placed: &Vec<bool>) -> (out: Vec<usize>)
        requires
            self.wf(),
            placed.len() == self.edges.len(),
        ensures
            ints(out@) == batch(self.adj(), placed@, self.edges.len() as nat),
            forall|a: int, b: int| 0 <= a < b < out.len() ==> out[a] < out[b],
            forall|k: int| 0 <= k < out.len() ==> ready(self.adj(), placed@, out[k] as int),
            forall|v: int|
                0 <= v < self.edges.len() && ready(self.adj(), placed@, v) ==> ints(
                    out@,
                ).contains(v),
    {
        let n = self.edges.len();
        let mut out: Vec<usize> = Vec::new();
        let mut v: usize = 0;
        assert(ints(out@) =~= batch(self.adj(), placed@, 0));
        while v < n
            invariant
                self.wf(),
                n == self.edges.len(),
                placed.len() == n,
                v <= n,
                ints(out@) == batch(self.adj(), placed@, v as nat),
            decreases n - v,
        {
            let ghost before = ints(out@);
            if self.is_ready(placed, v) {
                out.push(v);
                assert(ints(out@) =~= before.push(v as int));
            }
            v = v + 1;
        }
        proof {
            lemma_batch(self.adj(), placed@, n as nat);
            let now = batch(self.adj(), placed@, n as nat);
            assert forall|k: int| 0 <= k < out.len() implies ready(
                self.adj(),
                placed@,
                out[k] as int,
            ) by {
                assert(now.contains(now[k]));
            }
            assert forall|a: int, b: int| 0 <= a < b < out.len() implies out[a] < out[b] by {
                assert(now[a] < now[b]);
                assert(now[a] == out[a] && now[b] == out[b]);
            }
        }
        out
    }

    /// The order in which the packages can be published.
    ///
    /// The nodes that depend on nothing that is still to be placed are
    /// placed together, in the order of declaration; this is repeated until
    /// no node can be placed. The result is `Ok` exactly where the graph has
    /// no cycle, and then holds every node once, each after all that it
    /// depends on. Otherwise it is the first node, in the order of
    /// declaration, that is on a cycle or depends on one.
    pub fn publish_order(&self) -> (r: Result<Vec<usize>, usize>)
        requires
            self.wf(),
        ensures
            match r {
                Ok(order) => {
                    &&& !has_cycle(self.adj())
                    &&& topological(self.adj(), ints(order@))
                    &&& ints(order@) == publish_schedule(self.adj())
                },
                Err(k) => {
                    &&& has_cycle(self.adj())
                    &&& k < self.names.len()
                    &&& blocked(self.adj(), k as int)
                    &&& forall|j: int| 0 <= j < k ==> !blocked(self.adj(), j)
                },
            },
    {
        let n = self.edges.len();
        let ghost adj = self.adj();
        let mut placed: Vec<bool> = Vec::new();
        while placed.len() < n
            invariant
                placed.len() <= n,
                forall|v: int| 0 <= v < placed.len() ==> !placed[v],
            decreases n - placed.len(),
        {
            placed.push(false);
        }
        let mut order: Vec<usize> = Vec::new();
        let mut batch = self.ready_nodes(&placed);
        let ghost passes: nat = 0;
        proof {
            assert(placed@ =~= unplaced(n as nat));
            assert(ints(order@) + schedule(adj, placed@, n as nat) =~= publish_schedule(adj));
        }
        while batch.len() > 0
            invariant
                self.wf(),
                adj == self.adj(),
                n == self.edges.len(),
                placed.len() == n,
                order.len() <= n,
                passes <= order.len(),
                ints(batch@) == crate::graph::batch(adj, placed@, n as nat),
                ints(order@) + schedule(adj, placed@, (n - passes) as nat) == publish_schedule(adj),
                ints(order@).no_duplicates(),
                forall|p: int| 0 <= p < order.len() ==> order[p] < n,
                forall|v: int| 0 <= v < n ==> (placed[v] <==> ints(order@).contains(v)),
                all_settled(adj, ints(order@)),
                forall|a: int, b: int| 0 <= a < b < batch.len() ==> batch[a] < batch[b],
                forall|k: int| 0 <= k < batch.len() ==> ready(adj, placed@, batch[k] as int),
                forall|v: int| 0 <= v < n && ready(adj, placed@, v) ==> ints(batch@).contains(v),
            decreases n - order.len(),
        {
            let ghost ord0 = ints(order@);
            let ghost len0 = order.len();
            let ghost placed0 = placed@;
            proof {
                assert(!ints(order@).contains(batch[0] as int)) by {
                    assert(ready(adj, placed@, batch[0] as int));
                }
                let longer = ints(order@).push(batch[0] as int);
                assert(longer.no_duplicates());
                lemma_bounded_distinct(longer, n as int);
                assert(ints(batch@).take(0) =~= Seq::<int>::empty());
                assert(ord0 + ints(batch@).take(0) =~= ord0);
                assert(placed@ =~= mark(placed0, ints(batch@).take(0))) by {
                    assert forall|v: int| 0 <= v < n implies !ints(batch@).take(0).contains(v) by {}
                }
            }
            proof {
                assert forall|k: int, b: int|
                    0 <= k < batch.len() && edge(adj, batch[k] as int, b) implies ord0.contains(
                    b,
                ) by {
                    let x = batch[k] as int;
                    let t = choose|t: int| 0 <= t < adj[x].len() && adj[x][t] == b;
                    assert(placed[adj[x][t]]);
                    assert(0 <= adj[x][t] < n);
                }
                assert(ints(order@).take(len0 as int) =~= ord0);
            }
            let mut idx: usize = 0;
            while idx < batch.len()
                invariant
                    adj == self.adj(),
                    n == adj.len(),
                    placed.len() == n,
                    idx <= batch.len(),
                    order.len() == len0 + idx,
                    ints(order@).take(len0 as int) == ord0,
                    ints(order@) == ord0 + ints(batch@).take(idx as int),
                    placed@ == mark(placed0, ints(batch@).take(idx as int)),
                    placed0.len() == n,
                    ints(order@).no_duplicates(),
                    forall|p: int| 0 <= p < order.len() ==> order[p] < n,
                    forall|v: int| 0 <= v < n ==> (placed[v] <==> ints(order@).contains(v)),
                    all_settled(adj, ints(order@)),
                    forall|a: int, b: int| 0 <= a < b < batch.len() ==> batch[a] < batch[b],
                    forall|k: int| 0 <= k < batch.len() ==> batch[k] < n,
                    forall|k: int| idx <= k < batch.len() ==> !placed[batch[k] as int],
                    forall|k: int, b: int|
                        0 <= k < batch.len() && edge(adj, batch[k] as int, b) ==> ord0.contains(b),
                decreases batch.len() - idx,
            {
                let x = batch[idx];
                let ghost before = ints(order@);
                placed.set(x, true);
                order.push(x);
                proof {
                    let after = ints(order@);
                    assert(after =~= before.push(x as int));
                    assert(!before.contains(x as int));
                    assert(after.no_duplicates());
                    assert forall|v: int| 0 <= v < n implies (placed[v] <==> after.contains(
                        v,
                    )) by {
                        lemma_push_contains(before, x as int, v);
                    }
                    assert(after.take(len0 as int) =~= before.take(len0 as int));
                    assert forall|p: int| 0 <= p < after.len() implies #[trigger] settled(
                        adj,
                        after,
                        p,
                    ) by {
                        if p < before.len() {
                            assert(settled(adj, before, p));
                            assert(after.take(p) =~= before.take(p));
                            assert(after[p] == before[p]);
                        } else {
                            assert forall|b: int| edge(adj, after[p], b) implies after.take(
                                p,
                            ).contains(b) by {
                                assert(ord0.contains(b));
                                let q = choose|q: int| 0 <= q < ord0.len() && ord0[q] == b;
                                assert(before.take(len0 as int)[q] == b);
                                assert(after.take(p)[q] == b);
                            }
                        }
                    }
                    assert forall|k: int| idx + 1 <= k < batch.len() implies !placed[batch[k] as int] by {
                        assert(batch[idx as int] < batch[k]);
                    }
                    let taken = ints(batch@).take(idx as int);
                    let more = ints(batch@).take(idx + 1);
                    assert(more =~= taken.push(x as int));
                    assert(after =~= ord0 + more);
                    assert(placed@ =~= mark(placed0, more)) by {
                        assert forall|v: int| 0 <= v < n implies placed@[v] == (placed0[v]
                            || more.contains(v)) by {
                            lemma_push_contains(taken, x as int, v);
                        }
                    }
                }
                idx = idx + 1;
            }
            proof {
                lemma_bounded_distinct(ints(order@), n as int);
                let now = ints(batch@);
                assert(now.take(batch.len() as int) =~= now);
                assert(schedule(adj, placed0, (n - passes) as nat) == now + schedule(
                    adj,
                    mark(placed0, now),
                    (n - passes - 1) as nat,
                ));
                assert(ints(order@) + schedule(adj, placed@, (n - passes - 1) as nat) =~= ord0
                    + schedule(adj, placed0, (n - passes) as nat));
                passes = passes + 1;
            }
            batch = self.ready_nodes(&placed);
        }
        proof {
            assert(schedule(adj, placed@, (n - passes) as nat) =~= Seq::<int>::empty());
            assert(ints(order@) =~= publish_schedule(adj));
        }
        proof {
            assert forall|v: int| 0 <= v < n implies !ready(adj, placed@, v) by {
                if ready(adj, placed@, v) {
                    assert(ints(batch@).contains(v));
                }
            }
        }
        let mut k: usize = 0;
        while k < n
            invariant
                self.wf(),
                adj == self.adj(),
                n == self.edges.len(),
                k <= n,
                placed.len() == n,
                order.len() <= n,
                ints(order@).no_duplicates(),
                forall|p: int| 0 <= p < order.len() ==> order[p] < n,
                forall|v: int| 0 <= v < n ==> (placed[v] <==> ints(order@).contains(v)),
                all_settled(adj, ints(order@)),
                forall|v: int| 0 <= v < n ==> !ready(adj, placed@, v),
                ints(order@) == publish_schedule(adj),
                forall|j: int| 0 <= j < k ==> placed[j],
            decreases n - k,
        {
            if !placed[k] {
                proof {
                    let ord = ints(order@);
                    let w = lemma_stuck_walk(adj, placed@, k as int, (n + 1) as nat);
                    lemma_long_walk_has_cycle(adj, w);
                    assert forall|j: int| 0 <= j < k implies !blocked(adj, j) by {
                        assert(placed[j]);
                        assert(ord.contains(j));
                        let p = choose|p: int| 0 <= p < ord.len() && ord[p] == j;
                        lemma_settled_not_blocked(adj, ord, p);
                    }
                }
                return Err(k);
            }
            k = k + 1;
        }
        proof {
            let ord = ints(order@);
            assert forall|v: int| 0 <= v < n implies ord.contains(v) by {
                assert(placed[v]);
            }
            lemma_bounded_distinct(ord, n as int);
            lemma_settled_no_cycle(adj, ord);
            assert forall|p: int, q: int|
                0 <= p < ord.len() && 0 <= q < ord.len() && edge(adj, ord[p], ord[q]) implies q
                < p by {
                assert(settled(adj, ord, p));
                let t = choose|t: int| 0 <= t < ord.take(p).len() && ord.take(p)[t] == ord[q];
                assert(ord[t] == ord[q]);
            }
        }
        Ok(order)
    }
}

} // verus!
