use vstd::prelude::*;
use vstd::multiset::Multiset;
use petgraph::visit::EdgeRef;
use crate::types::{DepEdge, DepEdgeV, ModuleIR};
use crate::text::str_eq;

verus! {

broadcast use vstd::multiset::group_multiset_axioms;

#[verifier::external_type_specification]
#[verifier::external_body]
#[verifier::reject_recursive_types(N)]
#[verifier::reject_recursive_types(E)]
#[verifier::reject_recursive_types(Ty)]
#[verifier::reject_recursive_types(Ix)]
pub struct ExGraph<N, E, Ty, Ix>(petgraph::graph::Graph<N, E, Ty, Ix>);

#[verifier::external_type_specification]
#[verifier::external_body]
pub struct ExDirected(petgraph::Directed);

/// The underlying petgraph graph type: paths as node weights, dependency
/// edges as edge weights.
pub type PathGraph = petgraph::graph::Graph<String, DepEdge, petgraph::Directed, u32>;

/// The node weights of the underlying graph, by node index: each index the
/// graph has handed out maps to the path stored at it.
pub uninterp spec fn graph_nodes(
    g: PathGraph) -> Map<int, Seq<char>>;

/// The edges of the underlying graph as a multiset of
/// (source index, target index, payload) triples.
pub uninterp spec fn graph_edges(
    g: PathGraph) -> Multiset<(int, int, DepEdgeV)>;

/// Relies on petgraph::graph::Graph::new: an empty directed graph.
#[verifier::external_body]
fn pg_new() -> (r: PathGraph)
    ensures
        graph_nodes(r) =~= Map::empty(),
        graph_edges(r) =~= Multiset::empty(),
{
    petgraph::graph::Graph::new()
}

/// Relies on petgraph::graph::Graph::add_node: appends a node and returns its
/// fresh index, which fits the graph's 32-bit index type; indices of other
/// nodes and the edges are untouched. The call panics when the node count
/// reaches the index type's maximum, which the precondition rules out.
#[verifier::external_body]
fn pg_add_node(
    g: &mut PathGraph,
    weight: String,
) -> (ix: usize)
    requires
        graph_nodes(*old(g)).dom().finite(),
        graph_nodes(*old(g)).dom().len() < 4294967294,
    ensures
        ix <= u32::MAX,
        !graph_nodes(*old(g)).contains_key(ix as int),
        graph_nodes(*final(g)) == graph_nodes(*old(g)).insert(ix as int, weight@),
        graph_edges(*final(g)) == graph_edges(*old(g)),
{
    g.add_node(weight).index()
}

/// Relies on petgraph::graph::Graph::add_edge: appends one directed edge
/// between two existing node indices; nodes are untouched. The call panics
/// on an index the graph has not handed out and when the edge count reaches
/// the index type's maximum, both of which the preconditions rule out.
#[verifier::external_body]
fn pg_add_edge(
    g: &mut PathGraph,
    a: usize,
    b: usize,
    edge: DepEdge,
)
    requires
        a <= u32::MAX,
        b <= u32::MAX,
        graph_nodes(*old(g)).contains_key(a as int),
        graph_nodes(*old(g)).contains_key(b as int),
        graph_edges(*old(g)).len() < 4294967294,
    ensures
        graph_nodes(*final(g)) == graph_nodes(*old(g)),
        graph_edges(*final(g)) == graph_edges(*old(g)).insert(
            (a as int, b as int, edge@),
        ),
{
    let ghost e = edge@;
    g.add_edge(
        petgraph::graph::NodeIndex::new(a),
        petgraph::graph::NodeIndex::new(b),
        edge,
    );
}

/// Relies on petgraph::graph::Graph::edges: for a directed graph, iterates
/// exactly the edges whose source is the given index, an empty iteration for
/// an unknown index.
#[verifier::external_body]
fn pg_fan_out(
    g: &PathGraph,
    a: usize,
) -> (r: usize)
    requires
        a <= u32::MAX,
    ensures
        r == graph_edges(*g).filter(
            |t: (int, int, DepEdgeV)| t.0 == a as int,
        ).len(),
{
    g.edges(petgraph::graph::NodeIndex::new(a)).count()
}

/// Relies on petgraph::graph::Graph::edges_directed with Incoming: for a
/// directed graph, iterates exactly the edges whose target is the given
/// index, an empty iteration for an unknown index.
#[verifier::external_body]
fn pg_fan_in(
    g: &PathGraph,
    a: usize,
) -> (r: usize)
    requires
        a <= u32::MAX,
    ensures
        r == graph_edges(*g).filter(
            |t: (int, int, DepEdgeV)| t.1 == a as int,
        ).len(),
{
    g.edges_directed(petgraph::graph::NodeIndex::new(a), petgraph::Direction::Incoming).count()
}

/// Relies on petgraph::graph::Graph::edges: hands out a copy of the payload
/// of every edge whose source is the given index.
#[verifier::external_body]
fn pg_outgoing(
    g: &PathGraph,
    a: usize,
) -> (r: Vec<DepEdge>)
    requires
        a <= u32::MAX,
    ensures
        r@.len() == graph_edges(*g).filter(
            |t: (int, int, DepEdgeV)| t.0 == a as int,
        ).len(),
        forall|i: int|
            0 <= i < r@.len() ==> exists|t: (int, int, DepEdgeV)|
                graph_edges(*g).contains(t) && t.0 == a as int && t.2 == (#[trigger] r@[i])@,
{
    g.edges(petgraph::graph::NodeIndex::new(a)).map(|e| e.weight().clone()).collect()
}

/// Relies on petgraph::graph::Graph::edges_directed with Incoming: hands out
/// a copy of the payload of every edge whose target is the given index.
#[verifier::external_body]
fn pg_incoming(
    g: &PathGraph,
    a: usize,
) -> (r: Vec<DepEdge>)
    requires
        a <= u32::MAX,
    ensures
        r@.len() == graph_edges(*g).filter(
            |t: (int, int, DepEdgeV)| t.1 == a as int,
        ).len(),
        forall|i: int|
            0 <= i < r@.len() ==> exists|t: (int, int, DepEdgeV)|
                graph_edges(*g).contains(t) && t.1 == a as int && t.2 == (#[trigger] r@[i])@,
{
    g.edges_directed(petgraph::graph::NodeIndex::new(a), petgraph::Direction::Incoming).map(
        |e| e.weight().clone(),
    ).collect()
}

/// Inserting an element into a multiset grows a filtered count by one when
/// the element passes the filter and not at all otherwise.
proof fn lemma_filter_insert<T>(m: Multiset<T>, t: T, pred: spec_fn(T) -> bool)
    ensures
        pred(t) ==> m.insert(t).filter(pred) == m.filter(pred).insert(t),
        !pred(t) ==> m.insert(t).filter(pred) == m.filter(pred),
        pred(t) ==> m.insert(t).filter(pred).len() == m.filter(pred).len() + 1,
        !pred(t) ==> m.insert(t).filter(pred).len() == m.filter(pred).len(),
{
    if pred(t) {
        assert forall|e: T| #[trigger]
            m.insert(t).filter(pred).count(e) == m.filter(pred).insert(t).count(e) by {}
        assert(m.insert(t).filter(pred) =~= m.filter(pred).insert(t));
        vstd::multiset::lemma_insert_len(m.filter(pred), t);
    } else {
        assert forall|e: T| #[trigger]
            m.insert(t).filter(pred).count(e) == m.filter(pred).count(e) by {}
        assert(m.insert(t).filter(pred) =~= m.filter(pred));
    }
}

/// A filter that rejects every present element keeps nothing.
proof fn lemma_filter_none<T>(m: Multiset<T>, pred: spec_fn(T) -> bool)
    requires
        forall|t: T| m.count(t) > 0 ==> !pred(t),
    ensures
        m.filter(pred).len() == 0,
{
    let f = m.filter(pred);
    if f.len() > 0 {
        let e = f.choose();
        assert(f.count(e) > 0);
        assert(m.count(e) > 0 && pred(e));
    }
    assert(f.len() == 0);
}

/// Whether a path occurs in the directory.
pub open spec fn spec_has_in(paths: Seq<(String, usize)>, path: Seq<char>) -> bool {
    exists|i: int| 0 <= i < paths.len() && (#[trigger] paths[i]).0@ == path
}

/// The node index stored for a path in the directory.
pub open spec fn spec_index_in(paths: Seq<(String, usize)>, path: Seq<char>) -> int {
    let i = choose|i: int| 0 <= i < paths.len() && (#[trigger] paths[i]).0@ == path;
    paths[i].1 as int
}

/// The directory's paths are pairwise distinct.
pub open spec fn spec_paths_unique(paths: Seq<(String, usize)>) -> bool {
    forall|i: int, j: int|
        0 <= i < j < paths.len() ==> (#[trigger] paths[i]).0@ != (#[trigger] paths[j]).0@
}

/// In a duplicate-free directory any entry holding a path agrees with
/// `spec_index_in` on its index.
proof fn lemma_index_in_agrees(paths: Seq<(String, usize)>, i: int, path: Seq<char>)
    requires
        spec_paths_unique(paths),
        0 <= i < paths.len(),
        paths[i].0@ == path,
    ensures
        spec_has_in(paths, path),
        spec_index_in(paths, path) == paths[i].1 as int,
{
    let j = choose|j: int| 0 <= j < paths.len() && (#[trigger] paths[j]).0@ == path;
    if i != j {
        if i < j {
            assert(paths[i].0@ != paths[j].0@);
        } else {
            assert(paths[j].0@ != paths[i].0@);
        }
    }
}

/// A directed graph over module path strings. Each path maps to exactly one
/// node — re-adding an existing path is a no-op — and an edge is recorded
/// only between two paths already present; queries on unknown paths answer
/// zero or nothing.
pub struct DependencyGraph {
    graph: PathGraph,
    paths: Vec<(String, usize)>,
    edge_count: usize,
}

impl DependencyGraph {
    /// The path directory and the underlying graph agree: paths are pairwise
    /// distinct, each registered path's index carries it as node weight, and
    /// every edge connects registered indices.
    pub closed spec fn wf(&self) -> bool {
        &&& spec_paths_unique(self.paths@)
        &&& graph_nodes(self.graph).dom().finite()
        &&& graph_nodes(self.graph).dom().len() == self.paths@.len()
        &&& graph_edges(self.graph).len() == self.edge_count
        &&& forall|i: int|
            0 <= i < self.paths@.len() ==> graph_nodes(self.graph).contains_key(
                (#[trigger] self.paths@[i]).1 as int,
            ) && graph_nodes(self.graph)[self.paths@[i].1 as int] == self.paths@[i].0@
                && self.paths@[i].1 <= u32::MAX
        &&& forall|t: (int, int, DepEdgeV)|
            graph_edges(self.graph).count(t) > 0 ==> (exists|i: int|
                0 <= i < self.paths@.len() && (#[trigger] self.paths@[i]).1 == t.0) && (exists|
            i: int|
                0 <= i < self.paths@.len() && (#[trigger] self.paths@[i]).1 == t.1)
    }

    /// How many paths have been added as nodes.
    pub closed spec fn node_count(&self) -> int {
        self.paths@.len() as int
    }

    /// How many edges have been recorded.
    pub closed spec fn edge_total(&self) -> int {
        self.edge_count as int
    }

    /// Whether a path has been added as a node.
    pub closed spec fn spec_has_node(&self, path: Seq<char>) -> bool {
        spec_has_in(self.paths@, path)
    }

    /// The node index of a registered path.
    pub closed spec fn spec_ix(&self, path: Seq<char>) -> int {
        spec_index_in(self.paths@, path)
    }

    /// Number of edges leaving a path's node; zero for an unknown path.
    pub closed spec fn spec_fan_out(&self, path: Seq<char>) -> int {
        if self.spec_has_node(path) {
            graph_edges(self.graph).filter(
                |t: (int, int, DepEdgeV)| t.0 == spec_index_in(self.paths@, path),
            ).len() as int
        } else {
            0
        }
    }

    /// Number of edges entering a path's node; zero for an unknown path.
    pub closed spec fn spec_fan_in(&self, path: Seq<char>) -> int {
        if self.spec_has_node(path) {
            graph_edges(self.graph).filter(
                |t: (int, int, DepEdgeV)| t.1 == spec_index_in(self.paths@, path),
            ).len() as int
        } else {
            0
        }
    }

    /// Whether `e` is the payload of some recorded edge leaving a path's
    /// node.
    pub closed spec fn spec_is_outgoing_payload(&self, path: Seq<char>, e: DepEdgeV) -> bool {
        self.spec_has_node(path) && exists|t: (int, int, DepEdgeV)|
            #[trigger] graph_edges(self.graph).contains(t) && t.0 == spec_index_in(
                self.paths@,
                path,
            ) && t.2 == e
    }

    /// Whether `e` is the payload of some recorded edge entering a path's
    /// node.
    pub closed spec fn spec_is_incoming_payload(&self, path: Seq<char>, e: DepEdgeV) -> bool {
        self.spec_has_node(path) && exists|t: (int, int, DepEdgeV)|
            #[trigger] graph_edges(self.graph).contains(t) && t.1 == spec_index_in(
                self.paths@,
                path,
            ) && t.2 == e
    }

    /// An empty dependency graph.
    pub fn new() -> (r: DependencyGraph)
        ensures
            r.wf(),
            r.node_count() == 0,
            r.edge_total() == 0,
            forall|p: Seq<char>| !r.spec_has_node(p),
            forall|p: Seq<char>| r.spec_fan_out(p) == 0 && r.spec_fan_in(p) == 0,
            forall|p: Seq<char>, e: DepEdgeV| !(#[trigger] r.spec_is_outgoing_payload(p, e)),
            forall|p: Seq<char>, e: DepEdgeV| !(#[trigger] r.spec_is_incoming_payload(p, e)),
    {
        let r = DependencyGraph { graph: pg_new(), paths: Vec::new(), edge_count: 0 };
        proof {
            assert(forall|p: Seq<char>| !r.spec_has_node(p));
        }
        r
    }

    /// Find a path's position in the directory.
    fn find_path(&self, path: &str) -> (r: Option<usize>)
        ensures
            r matches Some(i) ==> i < self.paths@.len() && self.paths@[i as int].0@ == path@,
            r is None ==> !self.spec_has_node(path@),
    {
        let mut i: usize = 0;
        while i < self.paths.len()
            invariant
                0 <= i <= self.paths@.len(),
                forall|k: int| 0 <= k < i ==> (#[trigger] self.paths@[k]).0@ != path@,
            decreases self.paths@.len() - i,
        {
            if str_eq(self.paths[i].0.as_str(), path) {
                return Some(i);
            }
            i = i + 1;
        }
        None
    }

    /// Add a module's path as a node. Re-adding an existing path is a no-op;
    /// otherwise exactly one node is added, as long as the 32-bit index
    /// space is not exhausted. No other path appears or disappears, and no
    /// fan count or edge payload changes.
    pub fn add_module(&mut self, module: &ModuleIR)
        requires
            old(self).wf(),
        ensures
            final(self).wf(),
            final(self).node_count() == if old(self).spec_has_node(module@.path) {
                old(self).node_count()
            } else if old(self).node_count() < 4294967294 {
                old(self).node_count() + 1
            } else {
                old(self).node_count()
            },
            final(self).edge_total() == old(self).edge_total(),
            old(self).spec_has_node(module@.path) || old(self).node_count() < 4294967294
                ==> final(self).spec_has_node(module@.path),
            forall|p: Seq<char>|
                #[trigger] final(self).spec_has_node(p) ==> old(self).spec_has_node(p) || p
                    == module@.path,
            forall|p: Seq<char>|
                old(self).spec_has_node(p) ==> #[trigger] final(self).spec_has_node(p),
            forall|p: Seq<char>|
                #[trigger] final(self).spec_fan_out(p) == old(self).spec_fan_out(p),
            forall|p: Seq<char>|
                #[trigger] final(self).spec_fan_in(p) == old(self).spec_fan_in(p),
            forall|p: Seq<char>, e: DepEdgeV|
                #[trigger] final(self).spec_is_outgoing_payload(p, e) == old(self).spec_is_outgoing_payload(p, e),
            forall|p: Seq<char>, e: DepEdgeV|
                #[trigger] final(self).spec_is_incoming_payload(p, e) == old(self).spec_is_incoming_payload(p, e),
    {
        match self.find_path(module.path.as_str()) {
            Some(i) => {
                proof {
                    lemma_index_in_agrees(self.paths@, i as int, module@.path);
                }
            },
            None => {
                if self.paths.len() >= 4294967294usize {
                    // The underlying 32-bit node indices are exhausted; the
                    // path stays unregistered rather than overflowing them.
                    return ;
                }
                let ghost old_self = *self;
                let ix = pg_add_node(&mut self.graph, module.path.clone());
                self.paths.push((module.path.clone(), ix));
                proof {
                    let op = old_self.paths@;
                    let np = self.paths@;
                    let onodes = graph_nodes(old_self.graph);
                    let edges = graph_edges(old_self.graph);
                    assert(np =~= op.push((module.path, ix)));
                    assert(np[np.len() - 1].0@ == module@.path);
                    // The fresh index differs from every registered index.
                    assert forall|k: int| 0 <= k < op.len() implies (#[trigger] op[k]).1
                        != ix by {
                        assert(onodes.contains_key(op[k].1 as int));
                    }
                    // Well-formedness of the grown directory.
                    assert forall|i: int, j: int| 0 <= i < j < np.len() implies (
                    #[trigger] np[i]).0@ != (#[trigger] np[j]).0@ by {
                        if j < np.len() - 1 {
                            assert(np[i] == op[i] && np[j] == op[j]);
                        } else {
                            assert(np[i] == op[i]);
                            assert(!spec_has_in(op, module@.path));
                        }
                    }
                    assert forall|i: int| 0 <= i < np.len() implies graph_nodes(
                        self.graph,
                    ).contains_key((#[trigger] np[i]).1 as int) && graph_nodes(
                        self.graph,
                    )[np[i].1 as int] == np[i].0@ by {
                        if i < np.len() - 1 {
                            assert(np[i] == op[i]);
                            assert(onodes.contains_key(op[i].1 as int));
                            assert(op[i].1 != ix);
                        }
                    }
                    assert forall|t: (int, int, DepEdgeV)|
                        graph_edges(self.graph).count(t) > 0 implies (exists|i: int|
                        0 <= i < np.len() && (#[trigger] np[i]).1 == t.0) && (exists|i: int|
                        0 <= i < np.len() && (#[trigger] np[i]).1 == t.1) by {
                        assert(edges.count(t) > 0);
                        let w0 = choose|i: int|
                            0 <= i < op.len() && (#[trigger] op[i]).1 == t.0;
                        let w1 = choose|i: int|
                            0 <= i < op.len() && (#[trigger] op[i]).1 == t.1;
                        assert(np[w0].1 == t.0);
                        assert(np[w1].1 == t.1);
                    }
                    assert(self.wf());
                    // Membership: exactly the old paths plus the new one.
                    assert forall|p: Seq<char>| #[trigger]
                        self.spec_has_node(p) == (spec_has_in(op, p) || p == module@.path) by {
                        if self.spec_has_node(p) {
                            let w = choose|w: int|
                                0 <= w < np.len() && (#[trigger] np[w]).0@ == p;
                            if w < op.len() {
                                assert(op[w].0@ == p);
                            }
                        }
                        if spec_has_in(op, p) {
                            let w = choose|w: int|
                                0 <= w < op.len() && (#[trigger] op[w]).0@ == p;
                            assert(np[w].0@ == p);
                        }
                        if p == module@.path {
                            assert(np[np.len() - 1].0@ == p);
                        }
                    }
                    // Fan counts: unchanged for old paths, zero for the new.
                    assert forall|p: Seq<char>| #[trigger] self.spec_fan_out(p)
                        == old_self.spec_fan_out(p) by {
                        if spec_has_in(op, p) {
                            let w = choose|w: int|
                                0 <= w < op.len() && (#[trigger] op[w]).0@ == p;
                            lemma_index_in_agrees(op, w, p);
                            lemma_index_in_agrees(np, w, p);
                            assert(spec_index_in(np, p) == spec_index_in(op, p));
                            assert(self.spec_has_node(p) && old_self.spec_has_node(p));
                        } else if p == module@.path {
                            lemma_index_in_agrees(np, np.len() - 1, p);
                            assert(spec_index_in(np, p) == ix as int);
                            assert forall|t: (int, int, DepEdgeV)| edges.count(t) > 0 implies !(
                            t.0 == ix as int) by {
                                let w0 = choose|i: int|
                                    0 <= i < op.len() && (#[trigger] op[i]).1 == t.0;
                                assert(onodes.contains_key(op[w0].1 as int));
                            }
                            lemma_filter_none(
                                edges,
                                |t: (int, int, DepEdgeV)| t.0 == ix as int,
                            );
                            assert(!old_self.spec_has_node(p));
                        } else {
                            assert(!self.spec_has_node(p) && !old_self.spec_has_node(p));
                        }
                    }
                    assert forall|p: Seq<char>| #[trigger] self.spec_fan_in(p)
                        == old_self.spec_fan_in(p) by {
                        if spec_has_in(op, p) {
                            let w = choose|w: int|
                                0 <= w < op.len() && (#[trigger] op[w]).0@ == p;
                            lemma_index_in_agrees(op, w, p);
                            lemma_index_in_agrees(np, w, p);
                            assert(spec_index_in(np, p) == spec_index_in(op, p));
                            assert(self.spec_has_node(p) && old_self.spec_has_node(p));
                        } else if p == module@.path {
                            lemma_index_in_agrees(np, np.len() - 1, p);
                            assert(spec_index_in(np, p) == ix as int);
                            assert forall|t: (int, int, DepEdgeV)| edges.count(t) > 0 implies !(
                            t.1 == ix as int) by {
                                let w1 = choose|i: int|
                                    0 <= i < op.len() && (#[trigger] op[i]).1 == t.1;
                                assert(onodes.contains_key(op[w1].1 as int));
                            }
                            lemma_filter_none(
                                edges,
                                |t: (int, int, DepEdgeV)| t.1 == ix as int,
                            );
                            assert(!old_self.spec_has_node(p));
                        } else {
                            assert(!self.spec_has_node(p) && !old_self.spec_has_node(p));
                        }
                    }
                    // Edge payloads: the edges are untouched and old paths
                    // keep their indices, so every payload set is unchanged;
                    // the fresh node has no incident edges.
                    assert forall|p: Seq<char>, e: DepEdgeV| #[trigger] self.spec_is_outgoing_payload(
                        p,
                        e,
                    ) == old_self.spec_is_outgoing_payload(p, e) && #[trigger] self.spec_is_incoming_payload(
                        p,
                        e,
                    ) == old_self.spec_is_incoming_payload(p, e) by {
                        if spec_has_in(op, p) {
                            let w = choose|w: int|
                                0 <= w < op.len() && (#[trigger] op[w]).0@ == p;
                            lemma_index_in_agrees(op, w, p);
                            lemma_index_in_agrees(np, w, p);
                            assert(spec_index_in(np, p) == spec_index_in(op, p));
                            assert(self.spec_has_node(p) && old_self.spec_has_node(p));
                        } else if p == module@.path {
                            lemma_index_in_agrees(np, np.len() - 1, p);
                            assert(spec_index_in(np, p) == ix as int);
                            assert(!old_self.spec_has_node(p));
                            if self.spec_is_outgoing_payload(p, e) {
                                let t = choose|t: (int, int, DepEdgeV)|
                                    #[trigger] graph_edges(self.graph).contains(t) && t.0
                                        == spec_index_in(np, p) && t.2 == e;
                                let w0 = choose|i: int|
                                    0 <= i < op.len() && (#[trigger] op[i]).1 == t.0;
                                assert(onodes.contains_key(op[w0].1 as int));
                            }
                            if self.spec_is_incoming_payload(p, e) {
                                let t = choose|t: (int, int, DepEdgeV)|
                                    #[trigger] graph_edges(self.graph).contains(t) && t.1
                                        == spec_index_in(np, p) && t.2 == e;
                                let w1 = choose|i: int|
                                    0 <= i < op.len() && (#[trigger] op[i]).1 == t.1;
                                assert(onodes.contains_key(op[w1].1 as int));
                            }
                        } else {
                            assert(!self.spec_has_node(p) && !old_self.spec_has_node(p));
                        }
                    }
                }
            },
        }
    }

    /// Record one directed edge between two paths. When either endpoint has
    /// not been added as a node, nothing is recorded. When both are present,
    /// the source's fan-out and the target's fan-in each grow by exactly one,
    /// the payload joins the source's outgoing and the target's incoming
    /// edges, and every other path's counts and payloads keep their values.
    pub fn add_edge(&mut self, source: &str, target: &str, edge: DepEdge)
        requires
            old(self).wf(),
        ensures
            final(self).wf(),
            final(self).node_count() == old(self).node_count(),
            final(self).edge_total() == if old(self).spec_has_node(source@) && old(self).spec_has_node(target@) && old(self).edge_total() < 4294967294 {
                old(self).edge_total() + 1
            } else {
                old(self).edge_total()
            },
            forall|p: Seq<char>|
                #[trigger] final(self).spec_has_node(p) == old(self).spec_has_node(p),
            old(self).spec_has_node(source@) && old(self).spec_has_node(target@) && old(self).edge_total() < 4294967294 ==> {
                &&& final(self).spec_fan_out(source@) == old(self).spec_fan_out(source@) + 1
                &&& final(self).spec_fan_in(target@) == old(self).spec_fan_in(target@) + 1
                &&& forall|e: DepEdgeV|
                    #[trigger] final(self).spec_is_outgoing_payload(source@, e) == (old(self).spec_is_outgoing_payload(source@, e) || e == edge@)
                &&& forall|e: DepEdgeV|
                    #[trigger] final(self).spec_is_incoming_payload(target@, e) == (old(self).spec_is_incoming_payload(target@, e) || e == edge@)
                &&& forall|p: Seq<char>|
                    p != source@ ==> #[trigger] final(self).spec_fan_out(p)
                        == old(self).spec_fan_out(p)
                &&& forall|p: Seq<char>|
                    p != target@ ==> #[trigger] final(self).spec_fan_in(p)
                        == old(self).spec_fan_in(p)
                &&& forall|p: Seq<char>, e: DepEdgeV|
                    p != source@ ==> #[trigger] final(self).spec_is_outgoing_payload(p, e)
                        == old(self).spec_is_outgoing_payload(p, e)
                &&& forall|p: Seq<char>, e: DepEdgeV|
                    p != target@ ==> #[trigger] final(self).spec_is_incoming_payload(p, e)
                        == old(self).spec_is_incoming_payload(p, e)
            },
            !(old(self).spec_has_node(source@) && old(self).spec_has_node(target@) && old(self).edge_total() < 4294967294) ==> {
                &&& forall|p: Seq<char>|
                    #[trigger] final(self).spec_fan_out(p) == old(self).spec_fan_out(p)
                        && #[trigger] final(self).spec_fan_in(p) == old(self).spec_fan_in(p)
                &&& forall|p: Seq<char>, e: DepEdgeV|
                    #[trigger] final(self).spec_is_outgoing_payload(p, e) == old(self).spec_is_outgoing_payload(p, e) && #[trigger] final(self).spec_is_incoming_payload(p, e) == old(self).spec_is_incoming_payload(p, e)
            },
    {
        let src = self.find_path(source);
        let tgt = self.find_path(target);
        match (src, tgt) {
            (Some(si), Some(ti)) => {
                if self.edge_count >= 4294967294usize {
                    // The underlying 32-bit edge indices are exhausted; the
                    // edge is dropped rather than overflowing them.
                    return ;
                }
                let a = self.paths[si].1;
                let b = self.paths[ti].1;
                let ghost old_self = *self;
                let ghost trip = (a as int, b as int, edge@);
                proof {
                    lemma_index_in_agrees(self.paths@, si as int, source@);
                    lemma_index_in_agrees(self.paths@, ti as int, target@);
                }
                pg_add_edge(&mut self.graph, a, b, edge);
                self.edge_count = self.edge_count + 1;
                proof {
                    let op = old_self.paths@;
                    let old_edges = graph_edges(old_self.graph);
                    assert(self.paths@ == op);
                    assert(graph_edges(self.graph) == old_edges.insert(trip));
                    // Well-formedness: the new edge connects registered
                    // indices, every old edge still does.
                    assert forall|t: (int, int, DepEdgeV)|
                        graph_edges(self.graph).count(t) > 0 implies (exists|i: int|
                        0 <= i < op.len() && (#[trigger] op[i]).1 == t.0) && (exists|i: int|
                        0 <= i < op.len() && (#[trigger] op[i]).1 == t.1) by {
                        if t != trip {
                            assert(old_edges.count(t) > 0);
                        } else {
                            assert(op[si as int].1 == trip.0);
                            assert(op[ti as int].1 == trip.1);
                        }
                    }
                    assert(self.wf());
                    // Fan counts through the inserted triple.
                    assert forall|p: Seq<char>| spec_has_in(op, p) implies #[trigger] self.spec_fan_out(
                        p,
                    ) == old_self.spec_fan_out(p) + (if spec_index_in(op, p) == a as int {
                        1int
                    } else {
                        0int
                    }) by {
                        lemma_filter_insert(
                            old_edges,
                            trip,
                            |t: (int, int, DepEdgeV)| t.0 == spec_index_in(op, p),
                        );
                    }
                    assert forall|p: Seq<char>| spec_has_in(op, p) implies #[trigger] self.spec_fan_in(
                        p,
                    ) == old_self.spec_fan_in(p) + (if spec_index_in(op, p) == b as int {
                        1int
                    } else {
                        0int
                    }) by {
                        lemma_filter_insert(
                            old_edges,
                            trip,
                            |t: (int, int, DepEdgeV)| t.1 == spec_index_in(op, p),
                        );
                    }
                    // Distinct paths carry distinct indices.
                    assert forall|p: Seq<char>| p != source@ && spec_has_in(op, p) implies
                        spec_index_in(op, p) != a as int by {
                        let w = choose|w: int| 0 <= w < op.len() && (#[trigger] op[w]).0@ == p;
                        lemma_index_in_agrees(op, w, p);
                        if op[w].1 == a {
                            assert(graph_nodes(old_self.graph)[op[w].1 as int] == p);
                            assert(graph_nodes(old_self.graph)[op[si as int].1 as int]
                                == source@);
                        }
                    }
                    assert forall|p: Seq<char>| p != target@ && spec_has_in(op, p) implies
                        spec_index_in(op, p) != b as int by {
                        let w = choose|w: int| 0 <= w < op.len() && (#[trigger] op[w]).0@ == p;
                        lemma_index_in_agrees(op, w, p);
                        if op[w].1 == b {
                            assert(graph_nodes(old_self.graph)[op[w].1 as int] == p);
                            assert(graph_nodes(old_self.graph)[op[ti as int].1 as int]
                                == target@);
                        }
                    }
                    // Payload sets through the inserted triple.
                    let new_edges = graph_edges(self.graph);
                    assert(new_edges.contains(trip));
                    assert(forall|t: (int, int, DepEdgeV)|
                        #[trigger] new_edges.contains(t) ==> old_edges.contains(t) || t
                            == trip);
                    assert(forall|t: (int, int, DepEdgeV)|
                        #[trigger] old_edges.contains(t) ==> new_edges.contains(t));
                    assert(spec_index_in(op, source@) == a as int);
                    assert(spec_index_in(op, target@) == b as int);
                    assert forall|e: DepEdgeV| #[trigger] self.spec_is_outgoing_payload(
                        source@,
                        e,
                    ) == (old_self.spec_is_outgoing_payload(source@, e) || e == edge@) by {
                        if self.spec_is_outgoing_payload(source@, e) {
                            let t = choose|t: (int, int, DepEdgeV)|
                                #[trigger] new_edges.contains(t) && t.0 == spec_index_in(
                                    op,
                                    source@,
                                ) && t.2 == e;
                            if t != trip {
                                assert(old_edges.contains(t));
                            }
                        }
                        if old_self.spec_is_outgoing_payload(source@, e) {
                            let t = choose|t: (int, int, DepEdgeV)|
                                #[trigger] old_edges.contains(t) && t.0 == spec_index_in(
                                    op,
                                    source@,
                                ) && t.2 == e;
                            assert(new_edges.contains(t));
                        }
                        if e == edge@ {
                            assert(new_edges.contains(trip) && trip.0 == spec_index_in(
                                op,
                                source@,
                            ) && trip.2 == e);
                        }
                    }
                    assert forall|e: DepEdgeV| #[trigger] self.spec_is_incoming_payload(
                        target@,
                        e,
                    ) == (old_self.spec_is_incoming_payload(target@, e) || e == edge@) by {
                        if self.spec_is_incoming_payload(target@, e) {
                            let t = choose|t: (int, int, DepEdgeV)|
                                #[trigger] new_edges.contains(t) && t.1 == spec_index_in(
                                    op,
                                    target@,
                                ) && t.2 == e;
                            if t != trip {
                                assert(old_edges.contains(t));
                            }
                        }
                        if old_self.spec_is_incoming_payload(target@, e) {
                            let t = choose|t: (int, int, DepEdgeV)|
                                #[trigger] old_edges.contains(t) && t.1 == spec_index_in(
                                    op,
                                    target@,
                                ) && t.2 == e;
                            assert(new_edges.contains(t));
                        }
                        if e == edge@ {
                            assert(new_edges.contains(trip) && trip.1 == spec_index_in(
                                op,
                                target@,
                            ) && trip.2 == e);
                        }
                    }
                    assert forall|p: Seq<char>, e: DepEdgeV|
                        p != source@ implies #[trigger] self.spec_is_outgoing_payload(p, e)
                        == old_self.spec_is_outgoing_payload(p, e) by {
                        if spec_has_in(op, p) {
                            assert(spec_index_in(op, p) != a as int);
                            if self.spec_is_outgoing_payload(p, e) {
                                let t = choose|t: (int, int, DepEdgeV)|
                                    #[trigger] new_edges.contains(t) && t.0 == spec_index_in(
                                        op,
                                        p,
                                    ) && t.2 == e;
                                assert(t != trip);
                                assert(old_edges.contains(t));
                            }
                            if old_self.spec_is_outgoing_payload(p, e) {
                                let t = choose|t: (int, int, DepEdgeV)|
                                    #[trigger] old_edges.contains(t) && t.0 == spec_index_in(
                                        op,
                                        p,
                                    ) && t.2 == e;
                                assert(new_edges.contains(t));
                            }
                        }
                    }
                    assert forall|p: Seq<char>, e: DepEdgeV|
                        p != target@ implies #[trigger] self.spec_is_incoming_payload(p, e)
                        == old_self.spec_is_incoming_payload(p, e) by {
                        if spec_has_in(op, p) {
                            assert(spec_index_in(op, p) != b as int);
                            if self.spec_is_incoming_payload(p, e) {
                                let t = choose|t: (int, int, DepEdgeV)|
                                    #[trigger] new_edges.contains(t) && t.1 == spec_index_in(
                                        op,
                                        p,
                                    ) && t.2 == e;
                                assert(t != trip);
                                assert(old_edges.contains(t));
                            }
                            if old_self.spec_is_incoming_payload(p, e) {
                                let t = choose|t: (int, int, DepEdgeV)|
                                    #[trigger] old_edges.contains(t) && t.1 == spec_index_in(
                                        op,
                                        p,
                                    ) && t.2 == e;
                                assert(new_edges.contains(t));
                            }
                        }
                    }
                }
            },
            _ => {},
        }
    }

    /// Number of edges leaving a path's node; zero for an unknown path.
    pub fn fan_out(&self, path: &str) -> (r: usize)
        requires
            self.wf(),
        ensures
            r == self.spec_fan_out(path@),
    {
        match self.find_path(path) {
            Some(i) => {
                let ix = self.paths[i].1;
                proof {
                    lemma_index_in_agrees(self.paths@, i as int, path@);
                }
                pg_fan_out(&self.graph, ix)
            },
            None => 0,
        }
    }

    /// Number of edges entering a path's node; zero for an unknown path.
    pub fn fan_in(&self, path: &str) -> (r: usize)
        requires
            self.wf(),
        ensures
            r == self.spec_fan_in(path@),
    {
        match self.find_path(path) {
            Some(i) => {
                let ix = self.paths[i].1;
                proof {
                    lemma_index_in_agrees(self.paths@, i as int, path@);
                }
                pg_fan_in(&self.graph, ix)
            },
            None => 0,
        }
    }

    /// The payloads of the edges leaving a path's node; empty for an unknown
    /// path.
    pub fn get_outgoing(&self, path: &str) -> (r: Vec<DepEdge>)
        requires
            self.wf(),
        ensures
            r@.len() == self.spec_fan_out(path@),
            forall|i: int|
                0 <= i < r@.len() ==> self.spec_is_outgoing_payload(path@, (#[trigger] r@[i])@),
    {
        match self.find_path(path) {
            Some(i) => {
                let ix = self.paths[i].1;
                proof {
                    lemma_index_in_agrees(self.paths@, i as int, path@);
                }
                let r = pg_outgoing(&self.graph, ix);
                proof {
                    assert forall|k: int|
                        0 <= k < r@.len() implies self.spec_is_outgoing_payload(
                        path@,
                        (#[trigger] r@[k])@,
                    ) by {
                        let t = choose|t: (int, int, DepEdgeV)|
                            graph_edges(self.graph).contains(t) && t.0 == ix as int && t.2 == (
                            r@[k])@;
                        assert(graph_edges(self.graph).contains(t) && t.0 == spec_index_in(
                            self.paths@,
                            path@,
                        ) && t.2 == r@[k]@);
                    }
                }
                r
            },
            None => Vec::new(),
        }
    }

    /// The payloads of the edges entering a path's node; empty for an
    /// unknown path.
    pub fn get_incoming(&self, path: &str) -> (r: Vec<DepEdge>)
        requires
            self.wf(),
        ensures
            r@.len() == self.spec_fan_in(path@),
            forall|i: int|
                0 <= i < r@.len() ==> self.spec_is_incoming_payload(path@, (#[trigger] r@[i])@),
    {
        match self.find_path(path) {
            Some(i) => {
                let ix = self.paths[i].1;
                proof {
                    lemma_index_in_agrees(self.paths@, i as int, path@);
                }
                let r = pg_incoming(&self.graph, ix);
                proof {
                    assert forall|k: int|
                        0 <= k < r@.len() implies self.spec_is_incoming_payload(
                        path@,
                        (#[trigger] r@[k])@,
                    ) by {
                        let t = choose|t: (int, int, DepEdgeV)|
                            graph_edges(self.graph).contains(t) && t.1 == ix as int && t.2 == (
                            r@[k])@;
                        assert(graph_edges(self.graph).contains(t) && t.1 == spec_index_in(
                            self.paths@,
                            path@,
                        ) && t.2 == r@[k]@);
                    }
                }
                r
            },
            None => Vec::new(),
        }
    }
}

impl Default for DependencyGraph {
    /// An empty dependency graph.
    fn default() -> (r: DependencyGraph)
        ensures
            r.wf(),
            r.node_count() == 0,
            r.edge_total() == 0,
            forall|p: Seq<char>| !r.spec_has_node(p),
            forall|p: Seq<char>| r.spec_fan_out(p) == 0 && r.spec_fan_in(p) == 0,
            forall|p: Seq<char>, e: DepEdgeV| !(#[trigger] r.spec_is_outgoing_payload(p, e)),
            forall|p: Seq<char>, e: DepEdgeV| !(#[trigger] r.spec_is_incoming_payload(p, e)),
    {
        DependencyGraph::new()
    }
}


} // verus!
