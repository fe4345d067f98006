//! The static graph of the simulated network, kept in petgraph's
//! `StableGraph`. What the graph holds is named here, and each operation
//! that the driver needs is stated over those names.

use petgraph::stable_graph::NodeIndex;
use petgraph::stable_graph::StableGraph;
use petgraph::visit::EdgeRef;
use petgraph::Directed;
use vstd::prelude::*;

verus! {

/// petgraph's `StableGraph`. Nothing inside it is visible to the verifier;
/// what it holds is known through the names below.
#[verifier::external_type_specification]
#[verifier::external_body]
#[verifier::reject_recursive_types(N)]
#[verifier::reject_recursive_types(E)]
#[verifier::reject_recursive_types(Ty)]
#[verifier::reject_recursive_types(Ix)]
pub struct ExStableGraph<N, E, Ty, Ix>(StableGraph<N, E, Ty, Ix>);

/// petgraph's marker for graphs with directed edges.
#[verifier::external_type_specification]
#[verifier::external_body]
pub struct ExDirected(Directed);

/// A node of the graph: the worker thread it is pinned to, and whether its
/// actor has announced itself to the driver.
#[derive(Clone, Copy, Debug, PartialEq, Eq, Structural)]
pub struct GraphNode {
    pub thread: usize,
    pub spawned: bool,
}

/// An edge as seen from its source: the index of the node it leads to, and
/// the handle of the connection it stands for.
#[derive(Clone, Copy, Debug, PartialEq, Eq, Structural)]
pub struct Link {
    pub target: usize,
    pub connection: u64,
}

/// The graph of the network: nodes carry a `GraphNode`, edges the handle of
/// a connection.
pub type NetGraph = StableGraph<GraphNode, u64, Directed, u32>;

/// The node slots of the graph by index: what the node holds, or `None`
/// where a node was removed.
pub uninterp spec fn graph_slots(g: NetGraph) -> Seq<Option<GraphNode>>;

/// The edges that leave each node, in the order in which `edges` walks
/// them.
pub uninterp spec fn graph_links(g: NetGraph) -> Map<int, Seq<Link>>;

/// The number of edge slots of the graph, vacated ones included.
pub uninterp spec fn graph_edge_slots(g: NetGraph) -> nat;

/// No node was removed: every slot holds a node.
pub open spec fn graph_is_dense(g: NetGraph) -> bool {
    forall|i: int| 0 <= i < graph_slots(g).len() ==> (#[trigger] graph_slots(g)[i]) is Some
}

/// Whether `a` is the index of a node.
pub open spec fn graph_has_node(g: NetGraph, a: int) -> bool {
    0 <= a < graph_slots(g).len() && graph_slots(g)[a] is Some
}

/// `StableGraph::new`: a graph without nodes or edges.
#[verifier::external_body]
pub(crate) fn graph_new() -> (fresh: NetGraph)
    ensures
        graph_slots(fresh) == Seq::<Option<GraphNode>>::empty(),
        graph_links(fresh).dom() == Set::<int>::empty(),
        graph_edge_slots(fresh) == 0,
{
    StableGraph::new()
}

/// `StableGraph::node_count`: the number of nodes, which is the number of
/// slots when no node was removed.
#[verifier::external_body]
pub(crate) fn graph_node_count(g: &NetGraph) -> (r: usize)
    ensures
        r <= graph_slots(*g).len(),
        graph_is_dense(*g) ==> r == graph_slots(*g).len(),
{
    g.node_count()
}

/// `StableGraph::add_node` on a graph from which no node was removed: the
/// node takes the next index and has no edges. The call panics when the
/// 32-bit indices are used up.
#[verifier::external_body]
pub(crate) fn graph_add_node(g: &mut NetGraph, weight: GraphNode) -> (r: usize)
    requires
        graph_is_dense(*old(g)),
        graph_slots(*old(g)).len() < u32::MAX,
    ensures
        r == graph_slots(*old(g)).len(),
        graph_slots(*final(g)) == graph_slots(*old(g)).push(Some(weight)),
        graph_links(*final(g)) == graph_links(*old(g)).insert(r as int, Seq::<Link>::empty()),
        graph_edge_slots(*final(g)) == graph_edge_slots(*old(g)),
{
    g.add_node(weight).index()
}

/// `StableGraph::add_edge`: the new edge becomes the first of those that
/// leave `a`; nothing else changes. The call panics when `a` or `b` is no
/// node, or when the 32-bit indices are used up.
#[verifier::external_body]
pub(crate) fn graph_add_edge(g: &mut NetGraph, a: usize, b: usize, connection: u64)
    requires
        graph_has_node(*old(g), a as int),
        graph_has_node(*old(g), b as int),
        graph_slots(*old(g)).len() <= u32::MAX,
        graph_edge_slots(*old(g)) < u32::MAX,
    ensures
        graph_slots(*final(g)) == graph_slots(*old(g)),
        graph_links(*final(g)) == graph_links(*old(g)).insert(
            a as int,
            seq![Link { target: b, connection }] + graph_links(*old(g))[a as int],
        ),
        graph_edge_slots(*final(g)) <= graph_edge_slots(*old(g)) + 1,
{
    g.add_edge(NodeIndex::new(a), NodeIndex::new(b), connection);
}

/// `StableGraph::node_weight`: what the node of index `a` holds, if there
/// is such a node.
#[verifier::external_body]
pub(crate) fn graph_node(g: &NetGraph, a: usize) -> (r: Option<GraphNode>)
    requires
        a <= u32::MAX,
    ensures
        r == if a < graph_slots(*g).len() {
            graph_slots(*g)[a as int]
        } else {
            None
        },
{
    g.node_weight(NodeIndex::new(a)).copied()
}

/// Assignment through `StableGraph::index_mut`: the node of index `a` now
/// holds `weight`; nothing else changes. The call panics when `a` is no
/// node.
#[verifier::external_body]
pub(crate) fn graph_set_node(g: &mut NetGraph, a: usize, weight: GraphNode)
    requires
        graph_has_node(*old(g), a as int),
        graph_slots(*old(g)).len() <= u32::MAX,
    ensures
        graph_slots(*final(g)) == graph_slots(*old(g)).update(a as int, Some(weight)),
        graph_links(*final(g)) == graph_links(*old(g)),
        graph_edge_slots(*final(g)) == graph_edge_slots(*old(g)),
{
    g[NodeIndex::new(a)] = weight;
}

/// `StableGraph::edges`: the edges that leave the node of index `a`, as the
/// iterator yields them; none when `a` is no node.
#[verifier::external_body]
pub(crate) fn graph_edges(g: &NetGraph, a: usize) -> (r: Vec<Link>)
    requires
        a <= u32::MAX,
    ensures
        r@ == if graph_has_node(*g, a as int) {
            graph_links(*g)[a as int]
        } else {
            Seq::<Link>::empty()
        },
{
    g.edges(NodeIndex::new(a))
        .map(|e| Link { target: e.target().index(), connection: *e.weight() })
        .collect()
}

} // verus!
