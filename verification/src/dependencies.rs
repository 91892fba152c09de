//! The graph of what has to be done before what.
//!
//! Vertices are handles that the graph gives out itself, one after the other,
//! so a handle is never given twice. An edge from `a` to `b` says that `a`
//! depends on `b`: `b` has to be done first. The graph is kept by `solvent`,
//! which also finds the order in which to do things.

use solvent::{DepGraph, SolventError};
use vstd::prelude::*;

verus! {

/// `solvent::DepGraph`, the graph of the resolver. What a graph holds is
/// known only through the three names below.
#[verifier::external_type_specification]
#[verifier::external_body]
#[verifier::reject_recursive_types(T)]
pub struct ExDepGraph<T: Eq>(DepGraph<T>);

/// The nodes that a `solvent` graph holds.
pub uninterp spec fn graph_nodes(graph: DepGraph<u64>) -> Set<u64>;

/// The edges that a `solvent` graph holds: pairs of a node and a node that it
/// depends on.
pub uninterp spec fn graph_edges(graph: DepGraph<u64>) -> Set<(u64, u64)>;

/// The nodes of a `solvent` graph that were marked as satisfied, which a walk
/// passes over.
pub uninterp spec fn graph_satisfied(graph: DepGraph<u64>) -> Set<u64>;

/// Whether vertex `i` of `path` depends on the vertex behind it.
pub open spec fn is_step(edges: Set<(u64, u64)>, path: Seq<u64>, i: int) -> bool {
    edges.contains((path[i], path[i + 1]))
}

/// Whether `path` leads along edges: each vertex of it depends on the next.
pub open spec fn is_path(edges: Set<(u64, u64)>, path: Seq<u64>) -> bool {
    &&& path.len() > 0
    &&& forall|i: int| 0 <= i < path.len() - 1 ==> #[trigger] is_step(edges, path, i)
}

/// Whether `to` is `from` or something that `from` depends on, directly or
/// through others.
pub open spec fn reaches(edges: Set<(u64, u64)>, from: u64, to: u64) -> bool {
    exists|path: Seq<u64>| is_path(edges, path) && path[0] == from && #[trigger] path.last() == to
}

/// Whether `at` lies on a cycle: it depends on itself, directly or through
/// others.
pub open spec fn on_cycle(edges: Set<(u64, u64)>, at: u64) -> bool {
    exists|path: Seq<u64>|
        is_path(edges, path) && path.len() > 1 && path[0] == at && #[trigger] path.last() == at
}

/// Whether the dependencies of `root` hold a cycle.
pub open spec fn cycle_below(edges: Set<(u64, u64)>, root: u64) -> bool {
    exists|at: u64| #[trigger] reaches(edges, root, at) && on_cycle(edges, at)
}

/// Whether `order` is an order in which to do `root` and all it depends on:
/// it holds exactly these vertices, each once, and each behind everything it
/// depends on.
pub open spec fn is_dependency_order(edges: Set<(u64, u64)>, root: u64, order: Seq<u64>) -> bool {
    &&& order.no_duplicates()
    &&& forall|n: u64| #[trigger] order.contains(n) <==> reaches(edges, root, n)
    &&& forall|i: int, d: u64|
        0 <= i < order.len() && #[trigger] edges.contains((order[i], d)) ==> exists|j: int|
            0 <= j < i && order[j] == d
}

/// Why a walk came to nothing.
#[derive(Copy, Clone, Debug, PartialEq, Eq, Structural)]
pub enum WalkError {
    /// Something depends on itself, directly or through others.
    CycleDetected,
    /// The handle is not one of this graph.
    NoSuchNode,
}

/// `DepGraph::new`: a graph without nodes, edges and marks.
#[verifier::external_body]
fn empty_graph() -> (graph: DepGraph<u64>)
    ensures
        graph_nodes(graph) == Set::<u64>::empty(),
        graph_edges(graph) == Set::<(u64, u64)>::empty(),
        graph_satisfied(graph) == Set::<u64>::empty(),
{
    DepGraph::new()
}

/// `DepGraph::register_dependencies`, with no dependency: the node joins the
/// graph unless it is there, and nothing else changes.
#[verifier::external_body]
fn add_node(graph: &mut DepGraph<u64>, node: u64)
    ensures
        graph_nodes(*final(graph)) == graph_nodes(*old(graph)).insert(node),
        graph_edges(*final(graph)) == graph_edges(*old(graph)),
        graph_satisfied(*final(graph)) == graph_satisfied(*old(graph)),
{
    graph.register_dependencies(node, Vec::new())
}

/// `DepGraph::register_dependency`: both nodes join the graph unless they are
/// there, and so does the edge between them.
#[verifier::external_body]
fn add_edge(graph: &mut DepGraph<u64>, node: u64, depends_on: u64)
    ensures
        graph_nodes(*final(graph)) == graph_nodes(*old(graph)).insert(node).insert(depends_on),
        graph_edges(*final(graph)) == graph_edges(*old(graph)).insert((node, depends_on)),
        graph_satisfied(*final(graph)) == graph_satisfied(*old(graph)),
{
    graph.register_dependency(node, depends_on)
}

/// `DepGraph::dependencies_of`, walked to its end or to its first error.
///
/// On a graph without marks, a walk that succeeds hands out the target and
/// all it depends on, each once and each behind what it depends on; which of
/// several fitting orders comes out is not said. A walk fails with
/// `NoSuchNode` only when the target is no node of the graph, and with
/// `CycleDetected` only when the target's dependencies hold a cycle.
#[verifier::external_body]
fn dependencies_of(graph: &DepGraph<u64>, target: u64) -> (walk: Result<Vec<u64>, WalkError>)
    requires
        graph_satisfied(*graph) == Set::<u64>::empty(),
    ensures
        (match walk {
            Ok(order) => graph_nodes(*graph).contains(target) && is_dependency_order(
                graph_edges(*graph),
                target,
                order@,
            ),
            Err(WalkError::NoSuchNode) => !graph_nodes(*graph).contains(target),
            Err(WalkError::CycleDetected) => graph_nodes(*graph).contains(target) && cycle_below(
                graph_edges(*graph),
                target,
            ),
        }),
{
    let mut order = Vec::new();
    for step in graph.dependencies_of(&target).map_err(|_| WalkError::NoSuchNode)? {
        match step {
            Ok(node) => order.push(*node),
            Err(SolventError::CycleDetected) => return Err(WalkError::CycleDetected),
            Err(SolventError::NoSuchNode) => return Err(WalkError::NoSuchNode),
        }
    }
    Ok(order)
}

/// The handle of a vertex of the dependency graph.
#[derive(Copy, Clone, Debug, PartialEq, Eq, Structural, Hash)]
pub struct Id(u64);

impl View for Id {
    type V = u64;

    /// The number of the handle: how many handles its graph gave out before.
    closed spec fn view(&self) -> u64 {
        self.0
    }
}

impl Id {
    /// Handles with the same number are the same handle.
    pub proof fn lemma_view_injective(a: Id, b: Id)
        requires
            a@ == b@,
        ensures
            a == b,
    {
    }
}

/// The numbers of the handles `ids`.
pub open spec fn id_views(ids: Seq<Id>) -> Seq<u64> {
    Seq::new(ids.len(), |i: int| ids[i]@)
}

/// What a dependency graph holds: how many handles it gave out, and which
/// handle depends on which, each handle by its number.
pub ghost struct DependencyGraphView {
    pub count: nat,
    pub edges: Set<(u64, u64)>,
}

impl DependencyGraphView {
    /// Whether `id` is the number of a handle of this graph.
    pub open spec fn has(self, id: u64) -> bool {
        id < self.count
    }

    /// Whether every edge lies between handles of this graph.
    pub open spec fn edges_within(self) -> bool {
        forall|a: u64, b: u64| #[trigger] self.edges.contains((a, b)) ==> self.has(a) && self.has(b)
    }
}

/// The graph of dependencies between build items.
pub struct DependencyGraph {
    graph: DepGraph<u64>,
    next: u64,
}

impl View for DependencyGraph {
    type V = DependencyGraphView;

    closed spec fn view(&self) -> DependencyGraphView {
        DependencyGraphView { count: self.next as nat, edges: graph_edges(self.graph) }
    }
}

/// A path that is continued by a path stays a path.
pub proof fn lemma_path_concat(edges: Set<(u64, u64)>, p: Seq<u64>, q: Seq<u64>)
    requires
        is_path(edges, p),
        is_path(edges, q),
        p.last() == q[0],
    ensures
        is_path(edges, p + q.drop_first()),
        (p + q.drop_first())[0] == p[0],
        (p + q.drop_first()).last() == q.last(),
{
    let r = p + q.drop_first();
    assert forall|i: int| 0 <= i < r.len() - 1 implies #[trigger] is_step(edges, r, i) by {
        if i < p.len() - 1 {
            assert(is_step(edges, p, i));
        } else {
            let k = i - (p.len() - 1);
            assert(is_step(edges, q, k));
        }
    }
}

/// What is reached from something that is reached, is reached.
pub proof fn lemma_reaches_transitive(edges: Set<(u64, u64)>, a: u64, b: u64, c: u64)
    requires
        reaches(edges, a, b),
        reaches(edges, b, c),
    ensures
        reaches(edges, a, c),
{
    let p = choose|p: Seq<u64>| is_path(edges, p) && p[0] == a && #[trigger] p.last() == b;
    let q = choose|q: Seq<u64>| is_path(edges, q) && q[0] == b && #[trigger] q.last() == c;
    lemma_path_concat(edges, p, q);
    let r = p + q.drop_first();
    assert(r.last() == c);
}

/// Everything reaches itself, and what it depends on.
pub proof fn lemma_reaches_step(edges: Set<(u64, u64)>, a: u64, b: u64)
    ensures
        reaches(edges, a, a),
        edges.contains((a, b)) ==> reaches(edges, a, b),
{
    let one = seq![a];
    assert(is_path(edges, one) && one[0] == a && one.last() == a);
    if edges.contains((a, b)) {
        let two = seq![a, b];
        assert(is_step(edges, two, 0));
        assert(is_path(edges, two) && two[0] == a && two.last() == b);
    }
}

/// Two vertices that depend on each other lie on a cycle, which is below
/// each of them.
pub proof fn lemma_mutual_dependency_is_cycle(edges: Set<(u64, u64)>, a: u64, b: u64)
    requires
        edges.contains((a, b)),
        edges.contains((b, a)),
    ensures
        on_cycle(edges, a),
        cycle_below(edges, a),
{
    let round = seq![a, b, a];
    assert(is_step(edges, round, 0));
    assert(is_step(edges, round, 1));
    assert(is_path(edges, round) && round.len() > 1 && round[0] == a && round.last() == a);
    lemma_reaches_step(edges, a, a);
}

/// In an order of dependencies, what lies on a path from a vertex of the
/// order stands before that vertex, or is the vertex.
proof fn lemma_path_runs_backwards(
    edges: Set<(u64, u64)>,
    root: u64,
    order: Seq<u64>,
    path: Seq<u64>,
    at: int,
)
    requires
        is_dependency_order(edges, root, order),
        is_path(edges, path),
        0 <= at < order.len(),
        order[at] == path[0],
    ensures
        exists|j: int|
            0 <= j <= at && order[j] == path.last() && (path.len() > 1 ==> j < at),
    decreases path.len(),
{
    if path.len() == 1 {
        assert(order[at] == path.last());
    } else {
        assert(is_step(edges, path, 0));
        assert(edges.contains((order[at], path[1])));
        let j = choose|j: int| 0 <= j < at && order[j] == path[1];
        let rest = path.drop_first();
        assert forall|i: int| 0 <= i < rest.len() - 1 implies #[trigger] is_step(
            edges,
            rest,
            i,
        ) by {
            assert(is_step(edges, path, i + 1));
        }
        lemma_path_runs_backwards(edges, root, order, rest, j);
        let k = choose|k: int|
            0 <= k <= j && order[k] == rest.last() && (rest.len() > 1 ==> k < j);
        assert(order[k] == path.last());
    }
}

/// Where there is an order of dependencies there is no cycle.
pub proof fn lemma_order_excludes_cycle(edges: Set<(u64, u64)>, root: u64, order: Seq<u64>)
    requires
        is_dependency_order(edges, root, order),
    ensures
        !cycle_below(edges, root),
{
    if cycle_below(edges, root) {
        let at = choose|at: u64| #[trigger] reaches(edges, root, at) && on_cycle(edges, at);
        let path = choose|path: Seq<u64>|
            is_path(edges, path) && path.len() > 1 && path[0] == at && #[trigger] path.last()
                == at;
        assert(order.contains(at));
        let i = choose|i: int| 0 <= i < order.len() && order[i] == at;
        lemma_path_runs_backwards(edges, root, order, path, i);
        let j = choose|j: int|
            0 <= j <= i && order[j] == path.last() && (path.len() > 1 ==> j < i);
        assert(order[j] == order[i] && j != i);
    }
}

/// In an order of dependencies the root comes last.
pub proof fn lemma_order_ends_in_root(edges: Set<(u64, u64)>, root: u64, order: Seq<u64>)
    requires
        is_dependency_order(edges, root, order),
    ensures
        order.len() > 0,
        order.last() == root,
{
    lemma_reaches_step(edges, root, root);
    assert(order.contains(root));
    let i = choose|i: int| 0 <= i < order.len() && order[i] == root;
    let last = order.last();
    assert(order.contains(last));
    let path = choose|path: Seq<u64>|
        is_path(edges, path) && path[0] == root && #[trigger] path.last() == last;
    lemma_path_runs_backwards(edges, root, order, path, i);
    let j = choose|j: int|
        0 <= j <= i && order[j] == path.last() && (path.len() > 1 ==> j < i);
    assert(order[j] == order[order.len() - 1]);
}

impl DependencyGraph {
    /// The invariant of a graph: its vertices are the handles it gave out,
    /// and nothing in it is marked as done.
    pub closed spec fn wf(&self) -> bool {
        &&& graph_nodes(self.graph) == Set::new(|n: u64| n < self.next)
        &&& graph_satisfied(self.graph) == Set::<u64>::empty()
        &&& self@.edges_within()
    }

    /// What `wf` says of the edges: they lie between handles of the graph.
    pub proof fn lemma_edges_within(&self)
        requires
            self.wf(),
        ensures
            self@.edges_within(),
    {
    }

    /// A graph without vertices.
    pub fn new() -> (graph: Self)
        ensures
            graph.wf(),
            graph@.count == 0,
            graph@.edges == Set::<(u64, u64)>::empty(),
    {
        let graph = DependencyGraph { graph: empty_graph(), next: 0 };
        assert(graph_nodes(graph.graph) =~= Set::new(|n: u64| n < graph.next));
        graph
    }

    /// Adds a vertex without edges and returns its handle, which no earlier
    /// call returned.
    pub fn register(&mut self) -> (id: Id)
        requires
            old(self).wf(),
            old(self)@.count < u64::MAX,
        ensures
            final(self).wf(),
            id@ == old(self)@.count,
            final(self)@.count == old(self)@.count + 1,
            final(self)@.edges == old(self)@.edges,
    {
        let id = Id(self.next);
        add_node(&mut self.graph, id.0);
        self.next = self.next + 1;
        proof {
            assert(graph_nodes(self.graph) =~= Set::new(|n: u64| n < self.next));
            assert forall|a: u64, b: u64| #[trigger] self@.edges.contains((a, b)) implies self@.has(
                a,
            ) && self@.has(b) by {
                assert(old(self)@.edges.contains((a, b)));
            }
        }
        id
    }

    /// Records that `id` depends on `dep`. Both must be handles of this
    /// graph. An edge that is there already changes nothing.
    pub fn link(&mut self, id: Id, dep: Id)
        requires
            old(self).wf(),
            old(self)@.has(id@),
            old(self)@.has(dep@),
        ensures
            final(self).wf(),
            final(self)@.count == old(self)@.count,
            final(self)@.edges == old(self)@.edges.insert((id@, dep@)),
    {
        add_edge(&mut self.graph, id.0, dep.0);
        proof {
            assert(graph_nodes(self.graph) =~= Set::new(|n: u64| n < self.next));
            assert forall|a: u64, b: u64| #[trigger] self@.edges.contains((a, b)) implies self@.has(
                a,
            ) && self@.has(b) by {
                if (a, b) != (id@, dep@) {
                    assert(old(self)@.edges.contains((a, b)));
                }
            }
        }
    }

    /// How many handles the graph can still give out.
    pub fn vacancies(&self) -> (left: u64)
        ensures
            left == u64::MAX - self@.count,
    {
        u64::MAX - self.next
    }

    /// Whether `id` is a handle of this graph.
    pub fn contains(&self, id: Id) -> (has: bool)
        ensures
            has == self@.has(id@),
    {
        id.0 < self.next
    }

    /// The order in which to do `id` and everything it depends on.
    ///
    /// The order holds `id` and all it depends on, directly or through
    /// others, each once and each behind everything it depends on; `id`
    /// itself is last. There is such an order unless `id` is no handle of
    /// this graph or its dependencies hold a cycle, and then the walk fails.
    pub fn walk(&self, id: Id) -> (walk: Result<Vec<Id>, WalkError>)
        requires
            self.wf(),
        ensures
            match walk {
                Ok(order) => is_dependency_order(self@.edges, id@, id_views(order@))
                    && order@.len() > 0 && order@.last() == id,
                Err(WalkError::NoSuchNode) => !self@.has(id@),
                Err(WalkError::CycleDetected) => cycle_below(self@.edges, id@),
            },
            walk is Ok <==> self@.has(id@) && !cycle_below(self@.edges, id@),
    {
        match dependencies_of(&self.graph, id.0) {
            Ok(numbers) => {
                proof {
                    lemma_order_excludes_cycle(self@.edges, id@, numbers@);
                }
                let mut order: Vec<Id> = Vec::new();
                let mut i: usize = 0;
                while i < numbers.len()
                    invariant
                        i <= numbers.len(),
                        id_views(order@) == numbers@.take(i as int),
                    decreases numbers.len() - i,
                {
                    let ghost before = order@;
                    order.push(Id(numbers[i]));
                    proof {
                        let now = id_views(order@);
                        let want = numbers@.take(i + 1);
                        assert(id_views(before).len() == before.len());
                        assert(numbers@.take(i as int).len() == i);
                        assert(now.len() == want.len());
                        assert forall|k: int| 0 <= k < now.len() implies now[k] == want[k] by {
                            if k < i {
                                assert(order@[k] == before[k]);
                                assert(id_views(before)[k] == numbers@.take(i as int)[k]);
                            }
                        }
                        assert(now =~= want);
                    }
                    i = i + 1;
                }
                proof {
                    assert(numbers@.take(numbers.len() as int) =~= numbers@);
                    lemma_order_ends_in_root(self@.edges, id@, numbers@);
                    assert(id_views(order@).last() == order@.last()@);
                    Id::lemma_view_injective(order@.last(), id);
                }
                Ok(order)
            },
            Err(WalkError::NoSuchNode) => Err(WalkError::NoSuchNode),
            Err(WalkError::CycleDetected) => Err(WalkError::CycleDetected),
        }
    }
}

} // verus!
