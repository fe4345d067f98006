//! The driver of the simulation: it owns the graph, admits the nodes in
//! batches, introduces neighbours to each other and ticks the nodes when the
//! network has fallen quiet. Starting actors and sending messages is left
//! to the runtime; each handler answers with what is to be done.

use crate::graph::graph_add_edge;
use crate::graph::graph_add_node;
use crate::graph::graph_edge_slots;
use crate::graph::graph_edges;
use crate::graph::graph_is_dense;
use crate::graph::graph_links;
use crate::graph::graph_new;
use crate::graph::graph_node;
use crate::graph::graph_node_count;
use crate::graph::graph_set_node;
use crate::graph::graph_slots;
use crate::graph::GraphNode;
use crate::graph::Link;
use crate::graph::NetGraph;
use std::collections::HashMap;
use vstd::prelude::*;

verus! {

broadcast use vstd::std_specs::hash::group_hash_axioms;

/// Of so many active nodes, one more is admitted per batch.
pub const ADMISSION_DIVISOR: usize = 20;

/// Time between two wakes of the driver, in nanoseconds.
pub const WAKE_PERIOD_NANOS: u32 = 100_000;

/// Number of worker threads of a driver made by `default`.
pub const DEFAULT_THREADS: usize = 4;

/// Depth of the hierarchy of the generated graph.
pub const LEVELS: usize = 4;

/// Number of nodes of the fully meshed top level.
pub const CORE: usize = 8;

/// How many nodes a level has for each node of the level above it.
pub open spec fn spread_of(level: int) -> nat {
    if level == 0 {
        1
    } else if level == 1 || level == 2 {
        20
    } else {
        10
    }
}

/// To how many nodes of its own level a node is linked.
pub open spec fn links_of(level: int) -> nat {
    if level == 0 {
        CORE as nat
    } else {
        2
    }
}

/// The number of nodes of a level: the top level has `CORE` nodes, and
/// each level below has the nodes of the level above times its spread.
pub open spec fn level_size(level: nat) -> nat
    decreases level,
{
    if level == 0 {
        CORE as nat * spread_of(0)
    } else {
        level_size((level - 1) as nat) * spread_of(level as int)
    }
}

/// The levels have 8, 160, 3200 and 32000 nodes.
pub proof fn lemma_level_sizes()
    ensures
        level_size(0) == 8,
        level_size(1) == 160,
        level_size(2) == 3200,
        level_size(3) == 32000,
{
    reveal_with_fuel(level_size, 5);
}

/// How many nodes the level `level` has for each node of the level above.
pub fn spread(level: usize) -> (r: usize)
    requires
        level < LEVELS,
    ensures
        r == spread_of(level as int),
{
    if level == 0 {
        1
    } else if level <= 2 {
        20
    } else {
        10
    }
}

/// To how many nodes of its own level a node of the level `level` is
/// linked.
pub fn same_level_links(level: usize) -> (r: usize)
    requires
        level < LEVELS,
    ensures
        r == links_of(level as int),
{
    if level == 0 {
        CORE
    } else {
        2
    }
}

/// The number of nodes of the level `level`.
pub fn level_nodes(level: usize) -> (r: usize)
    requires
        level < LEVELS,
    ensures
        r == level_size(level as nat),
{
    proof {
        lemma_level_sizes();
    }
    let mut num_nodes: usize = CORE;
    let mut l: usize = 0;
    while l <= level
        invariant
            l <= level + 1,
            level < LEVELS,
            num_nodes == if l == 0 {
                CORE as nat
            } else {
                level_size((l - 1) as nat)
            },
            num_nodes <= 32000,
        decreases level + 1 - l,
    {
        let factor = spread(l);
        assert(num_nodes * factor <= 32000 * 20) by (nonlinear_arith)
            requires
                num_nodes <= 32000,
                factor <= 20,
        ;
        proof {
            lemma_level_sizes();
        }
        num_nodes = num_nodes * factor;
        l += 1;
    }
    num_nodes
}

/// A node announces to the driver that its actor has started.
#[derive(Clone, Copy, Debug)]
pub struct HelloWorld {
    pub graph_index: usize,
    pub id: u64,
}

/// The driver's timer has fired.
#[derive(Clone, Copy, Debug)]
pub struct Wake;

/// A worker thread is handed to the driver.
#[derive(Clone, Copy, Debug)]
pub struct AddThread;

/// A node reports that a packet was sent.
#[derive(Clone, Copy, Debug)]
pub struct Sent;

/// The actor of the node `index` is to be started on the worker `thread`.
#[derive(Clone, Copy, Debug, PartialEq, Eq, Structural)]
pub struct Activation {
    pub index: usize,
    pub thread: usize,
}

/// The node `to` is to be told of its neighbour `peer`, whose identifier
/// is `id`, over the connection of handle `connection`. The announcement
/// is no reply, so `to` will answer it.
#[derive(Clone, Copy, Debug, PartialEq, Eq, Structural)]
pub struct Introduction {
    pub to: usize,
    pub peer: usize,
    pub id: u64,
    pub connection: u64,
}

/// What is to be done after a wake.
#[derive(Debug)]
pub struct WakeOutcome {
    /// The nodes to start.
    pub activate: Vec<Activation>,
    /// Whether the nodes are ticked.
    pub broadcast: bool,
    /// The nodes to tick: every active node when they are ticked.
    pub tick: Vec<usize>,
}

/// The outcome of a wake as a value.
pub struct WakeOutcomeView {
    pub activate: Seq<Activation>,
    pub broadcast: bool,
    pub tick: Seq<usize>,
}

impl View for WakeOutcome {
    type V = WakeOutcomeView;

    open spec fn view(&self) -> WakeOutcomeView {
        WakeOutcomeView { activate: self.activate@, broadcast: self.broadcast, tick: self.tick@ }
    }
}

/// The state of the driver as a value.
pub struct WorldView {
    /// The nodes of the graph, by index.
    pub nodes: Seq<GraphNode>,
    /// The edges that leave each node, latest first.
    pub links: Seq<Seq<Link>>,
    /// The number of edges that were added.
    pub edges: nat,
    /// The graph index of each identifier that has announced itself.
    pub mapping: Map<u64, usize>,
    /// Number of worker threads.
    pub threads: nat,
    /// Number of nodes that have announced themselves.
    pub active: nat,
    /// Number of nodes that were started and have not announced themselves.
    pub pending: nat,
    /// Whether nodes are still being admitted.
    pub adding: bool,
    /// The count of reported packets at the last wake of the tick phase.
    pub message_no: u64,
    /// The count of reported packets.
    pub last_seen_message: u64,
}

/// The state of a driver is well formed when every node has its list of
/// edges, every edge leads to a node, and the graph fits 32-bit indices.
pub open spec fn world_wf(w: WorldView) -> bool {
    &&& w.links.len() == w.nodes.len()
    &&& w.nodes.len() < u32::MAX
    &&& w.edges < u32::MAX
    &&& forall|a: int, k: int|
        0 <= a < w.links.len() && 0 <= k < w.links[a].len() ==> (#[trigger] w.links[a][k]).target
            < w.nodes.len()
}

/// The driver after the nodes `a` and `b` were connected in both directions
/// over one connection. A node is not connected to itself.
pub open spec fn world_connect(w: WorldView, a: usize, b: usize, connection: u64) -> WorldView {
    if a == b {
        w
    } else {
        WorldView {
            links: w.links.update(
                a as int,
                seq![Link { target: b, connection }] + w.links[a as int],
            ).update(b as int, seq![Link { target: a, connection }] + w.links[b as int]),
            edges: w.edges + 2,
            ..w
        }
    }
}

/// The driver after the node `a` was pinned to the worker thread of the
/// node `b`.
pub open spec fn world_adopt(w: WorldView, a: usize, b: usize) -> WorldView {
    WorldView {
        nodes: w.nodes.update(
            a as int,
            GraphNode { thread: w.nodes[b as int].thread, ..w.nodes[a as int] },
        ),
        ..w
    }
}

/// The driver after `node` was connected with each of `peers`, first to
/// last, and, where `adopt` holds, pinned to the thread of each in turn.
pub open spec fn world_link(w: WorldView, node: usize, peers: Seq<Link>, adopt: bool) -> WorldView
    decreases peers.len(),
{
    if peers.len() == 0 {
        w
    } else {
        let before = world_link(w, node, peers.drop_last(), adopt);
        let peer = peers.last();
        let connected = world_connect(before, node, peer.target, peer.connection);
        if adopt {
            world_adopt(connected, node, peer.target)
        } else {
            connected
        }
    }
}

/// The driver after a level of `count` nodes was added to the graph: the
/// nodes are dealt to the worker threads in turn and have no edges yet.
pub open spec fn world_level(w: WorldView, count: nat) -> WorldView {
    WorldView {
        nodes: w.nodes + Seq::new(
            count,
            |i: int| GraphNode { thread: (i % (DEFAULT_THREADS as int)) as usize, spawned: false },
        ),
        links: w.links + Seq::new(count, |i: int| Seq::<Link>::empty()),
        ..w
    }
}

/// The number of nodes admitted in one batch: a twentieth of the active
/// nodes, and at least one.
pub open spec fn batch_size(active: nat) -> nat {
    if active / 20 > 1 {
        active / 20
    } else {
        1
    }
}

/// The number of nodes that the next batch starts: a full batch, or what is
/// left of the graph.
pub open spec fn admitted(w: WorldView) -> nat {
    if w.active >= w.nodes.len() {
        0
    } else if w.active + batch_size(w.active) <= w.nodes.len() {
        batch_size(w.active)
    } else {
        (w.nodes.len() - w.active) as nat
    }
}

/// The batch that is admitted next: the nodes that follow the active ones
/// by index, each on its thread.
pub open spec fn next_batch(w: WorldView) -> Seq<Activation> {
    Seq::new(
        admitted(w),
        |k: int|
            Activation {
                index: (w.active + k) as usize,
                thread: w.nodes[w.active + k].thread,
            },
    )
}

/// Whether the batch found a node for each of its places, so that more may
/// be left to admit.
pub open spec fn batch_complete(w: WorldView) -> bool {
    w.active + batch_size(w.active) <= w.nodes.len()
}

/// The driver after a batch was admitted.
pub open spec fn world_add_nodes(w: WorldView) -> WorldView {
    WorldView { pending: w.pending + admitted(w), ..w }
}

/// Whether the node of index `t` has announced itself.
pub open spec fn is_spawned(nodes: Seq<GraphNode>, t: int) -> bool {
    0 <= t < nodes.len() && nodes[t].spawned
}

/// The introductions that follow the announcement of `peer`: one for each
/// edge that leaves it towards a node that has announced itself, in the
/// order of the edges.
pub open spec fn introductions(nodes: Seq<GraphNode>, links: Seq<Link>, peer: usize, id: u64)
    -> Seq<Introduction>
    decreases links.len(),
{
    if links.len() == 0 {
        Seq::empty()
    } else {
        let before = introductions(nodes, links.drop_last(), peer, id);
        let link = links.last();
        if is_spawned(nodes, link.target as int) {
            before.push(
                Introduction { to: link.target, peer, id, connection: link.connection },
            )
        } else {
            before
        }
    }
}

/// The driver after the node of index `index` has announced itself under
/// the identifier `id`.
pub open spec fn world_hello(w: WorldView, index: usize, id: u64) -> WorldView {
    WorldView {
        nodes: w.nodes.update(
            index as int,
            GraphNode { spawned: true, ..w.nodes[index as int] },
        ),
        mapping: w.mapping.insert(id, index),
        active: w.active + 1,
        pending: (w.pending - 1) as nat,
        ..w
    }
}

/// The indices below `n` of the nodes that have announced themselves, in
/// ascending order.
pub open spec fn spawned_nodes(nodes: Seq<GraphNode>, n: nat) -> Seq<usize>
    decreases n,
{
    if n == 0 {
        Seq::empty()
    } else if nodes[n - 1].spawned {
        spawned_nodes(nodes, (n - 1) as nat).push((n - 1) as usize)
    } else {
        spawned_nodes(nodes, (n - 1) as nat)
    }
}

/// The driver after the admission step of a wake: a batch is admitted when
/// nodes are still being added and none is pending.
pub open spec fn world_admit(w: WorldView) -> WorldView {
    if w.pending == 0 && w.adding {
        WorldView { adding: batch_complete(w), ..world_add_nodes(w) }
    } else {
        w
    }
}

/// Whether a wake ticks the nodes: all nodes have been admitted, and no
/// packet was reported since the last wake of the tick phase.
pub open spec fn wake_broadcasts(w: WorldView) -> bool {
    !world_admit(w).adding && w.last_seen_message == w.message_no
}

/// The driver after a wake.
pub open spec fn world_wake(w: WorldView) -> WorldView {
    let admitted = world_admit(w);
    if admitted.adding {
        admitted
    } else {
        WorldView { message_no: w.last_seen_message, ..admitted }
    }
}

/// What is to be done after a wake.
pub open spec fn wake_outcome(w: WorldView) -> WakeOutcomeView {
    WakeOutcomeView {
        activate: if w.pending == 0 && w.adding {
            next_batch(w)
        } else {
            Seq::empty()
        },
        broadcast: wake_broadcasts(w),
        tick: if wake_broadcasts(w) {
            spawned_nodes(w.nodes, w.nodes.len())
        } else {
            Seq::empty()
        },
    }
}

/// The driver after a packet was reported.
pub open spec fn world_sent(w: WorldView) -> WorldView {
    WorldView { last_seen_message: (w.last_seen_message + 1) as u64, ..w }
}

/// In the tick phase, a wake that follows a wake ticks the nodes exactly
/// when no packet was reported in between.
pub proof fn lemma_quiescence(w: WorldView, reported: nat)
    requires
        !w.adding,
        w.last_seen_message + reported <= u64::MAX,
    ensures
        wake_broadcasts(sent_times(world_wake(w), reported)) <==> reported == 0,
        !sent_times(world_wake(w), reported).adding,
{
    lemma_sent_times(world_wake(w), reported);
}

/// The driver after `n` packets were reported.
pub open spec fn sent_times(w: WorldView, n: nat) -> WorldView
    decreases n,
{
    if n == 0 {
        w
    } else {
        world_sent(sent_times(w, (n - 1) as nat))
    }
}

/// Reports of packets add up in the count of reported packets and change
/// nothing else.
pub proof fn lemma_sent_times(w: WorldView, n: nat)
    requires
        w.last_seen_message + n <= u64::MAX,
    ensures
        sent_times(w, n) == (WorldView {
            last_seen_message: (w.last_seen_message + n) as u64,
            ..w
        }),
    decreases n,
{
    if n > 0 {
        lemma_sent_times(w, (n - 1) as nat);
    }
}

/// While nodes are pending no batch is admitted, and a batch never starts
/// more nodes than its size nor a node beyond the graph.
pub proof fn lemma_admission(w: WorldView)
    ensures
        w.pending > 0 ==> world_admit(w) == w,
        admitted(w) <= batch_size(w.active),
        w.active + admitted(w) <= w.nodes.len() || admitted(w) == 0,
        batch_size(w.active) >= 1,
        w.active < 40 ==> batch_size(w.active) == 1,
{
}

/// State of the driver.
pub struct World {
    graph: NetGraph,
    edges: usize,
    threads: usize,
    mapping: HashMap<u64, usize>,
    active: usize,
    pending: usize,
    adding: bool,
    message_no: u64,
    last_seen_message: u64,
}

impl View for World {
    type V = WorldView;

    closed spec fn view(&self) -> WorldView {
        WorldView {
            nodes: Seq::new(graph_slots(self.graph).len(), |i: int| graph_slots(self.graph)[i]->0),
            links: Seq::new(graph_slots(self.graph).len(), |i: int| graph_links(self.graph)[i]),
            edges: self.edges as nat,
            mapping: self.mapping@,
            threads: self.threads as nat,
            active: self.active as nat,
            pending: self.pending as nat,
            adding: self.adding,
            message_no: self.message_no,
            last_seen_message: self.last_seen_message,
        }
    }
}

impl World {
    /// The graph holds what the state says: no node was ever removed, each
    /// node has its list of edges, and the count of edges bounds what the
    /// graph has used up.
    pub closed spec fn graph_inv(&self) -> bool {
        &&& graph_is_dense(self.graph)
        &&& forall|i: int|
            0 <= i < graph_slots(self.graph).len() ==> graph_links(self.graph).dom().contains(i)
        &&& graph_edge_slots(self.graph) <= self.edges
    }

    /// Well-formedness of the driver.
    pub open spec fn wf(&self) -> bool {
        self.graph_inv() && world_wf(self@)
    }

    /// A driver with `threads` worker threads and an empty graph, about to
    /// admit nodes.
    pub open spec fn new_view(threads: nat) -> WorldView {
        WorldView {
            nodes: Seq::empty(),
            links: Seq::empty(),
            edges: 0,
            mapping: Map::empty(),
            threads,
            active: 0,
            pending: 0,
            adding: true,
            message_no: 0,
            last_seen_message: 0,
        }
    }

    /// A driver with `threads` worker threads and an empty graph.
    pub fn new(threads: usize) -> (w: World)
        ensures
            w.wf(),
            w@ == World::new_view(threads as nat),
    {
        let w = World {
            graph: graph_new(),
            edges: 0,
            threads,
            mapping: HashMap::new(),
            active: 0,
            pending: 0,
            adding: true,
            last_seen_message: 0,
            message_no: 0,
        };
        assert(w@.nodes =~= Seq::<GraphNode>::empty());
        assert(w@.links =~= Seq::<Seq<Link>>::empty());
        w
    }

    /// Number of nodes of the graph.
    pub fn node_count(&self) -> (r: usize)
        requires
            self.wf(),
        ensures
            r == self@.nodes.len(),
    {
        graph_node_count(&self.graph)
    }

    /// What the node of index `index` holds, if there is such a node.
    pub fn node(&self, index: usize) -> (r: Option<GraphNode>)
        requires
            self.wf(),
        ensures
            r == if index < self@.nodes.len() {
                Some(self@.nodes[index as int])
            } else {
                None
            },
    {
        if index < graph_node_count(&self.graph) {
            graph_node(&self.graph, index)
        } else {
            None
        }
    }

    /// The edges that leave the node of index `index`, latest first; none
    /// when there is no such node.
    pub fn links(&self, index: usize) -> (r: Vec<Link>)
        requires
            self.wf(),
        ensures
            r@ == if index < self@.nodes.len() {
                self@.links[index as int]
            } else {
                Seq::empty()
            },
    {
        if index < graph_node_count(&self.graph) {
            graph_edges(&self.graph, index)
        } else {
            Vec::new()
        }
    }

    /// The graph index of the node that announced itself as `id`.
    pub fn index_of(&self, id: u64) -> (r: Option<usize>)
        ensures
            r == if self@.mapping.contains_key(id) {
                Some(self@.mapping[id])
            } else {
                None
            },
    {
        match self.mapping.get(&id) {
            Some(index) => Some(*index),
            None => None,
        }
    }

    /// Number of edges that were added.
    pub fn edge_count(&self) -> (r: usize)
        ensures
            r == self@.edges,
    {
        self.edges
    }

    /// The count of reported packets.
    pub fn last_seen_message(&self) -> (r: u64)
        ensures
            r == self@.last_seen_message,
    {
        self.last_seen_message
    }

    /// The count of reported packets at the last wake of the tick phase.
    pub fn message_no(&self) -> (r: u64)
        ensures
            r == self@.message_no,
    {
        self.message_no
    }

    /// Number of worker threads.
    pub fn threads(&self) -> (r: usize)
        ensures
            r == self@.threads,
    {
        self.threads
    }

    /// Number of nodes that have announced themselves.
    pub fn active(&self) -> (r: usize)
        ensures
            r == self@.active,
    {
        self.active
    }

    /// Number of nodes that were started and have not announced themselves.
    pub fn pending(&self) -> (r: usize)
        ensures
            r == self@.pending,
    {
        self.pending
    }

    /// Whether nodes are still being admitted.
    pub fn adding(&self) -> (r: bool)
        ensures
            r == self@.adding,
    {
        self.adding
    }

    /// Adds a node that is pinned to the worker `thread`; answers its index.
    pub fn add_node(&mut self, thread: usize) -> (r: usize)
        requires
            old(self).wf(),
            old(self)@.nodes.len() + 1 < u32::MAX,
        ensures
            final(self).wf(),
            r == old(self)@.nodes.len(),
            final(self)@ == (WorldView {
                nodes: old(self)@.nodes.push(GraphNode { thread, spawned: false }),
                links: old(self)@.links.push(Seq::empty()),
                ..old(self)@
            }),
    {
        let r = graph_add_node(&mut self.graph, GraphNode { thread, spawned: false });
        proof {
            assert(self@.nodes =~= old(self)@.nodes.push(GraphNode { thread, spawned: false }));
            assert(self@.links =~= old(self)@.links.push(Seq::empty()));
            assert forall|a: int, k: int|
                0 <= a < self@.links.len() && 0 <= k < self@.links[a].len() implies (
            #[trigger] self@.links[a][k]).target < self@.nodes.len() by {
                assert(self@.links[a] == old(self)@.links[a]);
                assert(old(self)@.links[a][k].target < old(self)@.nodes.len());
            }
        }
        r
    }

    /// Adds the edge from `a` to `b` with the connection of handle
    /// `connection`. It becomes the first of the edges that leave `a`.
    pub fn add_edge(&mut self, a: usize, b: usize, connection: u64)
        requires
            old(self).wf(),
            a < old(self)@.nodes.len(),
            b < old(self)@.nodes.len(),
            old(self)@.edges + 1 < u32::MAX,
        ensures
            final(self).wf(),
            final(self)@ == (WorldView {
                links: old(self)@.links.update(
                    a as int,
                    seq![Link { target: b, connection }] + old(self)@.links[a as int],
                ),
                edges: old(self)@.edges + 1,
                ..old(self)@
            }),
    {
        graph_add_edge(&mut self.graph, a, b, connection);
        self.edges = self.edges + 1;
        proof {
            let after = seq![Link { target: b, connection }] + old(self)@.links[a as int];
            assert(self@.nodes =~= old(self)@.nodes);
            assert(self@.links =~= old(self)@.links.update(a as int, after));
            assert forall|c: int, k: int|
                0 <= c < self@.links.len() && 0 <= k < self@.links[c].len() implies (
            #[trigger] self@.links[c][k]).target < self@.nodes.len() by {
                if c == a {
                    if k > 0 {
                        assert(after[k] == old(self)@.links[a as int][k - 1]);
                    }
                } else {
                    assert(self@.links[c] == old(self)@.links[c]);
                    assert(old(self)@.links[c][k].target < old(self)@.nodes.len());
                }
            }
        }
    }

    /// Connects two nodes in both directions over one connection. A node
    /// is not connected to itself.
    pub fn connect(&mut self, a: usize, b: usize, connection: u64)
        requires
            old(self).wf(),
            a < old(self)@.nodes.len(),
            b < old(self)@.nodes.len(),
            old(self)@.edges + 2 < u32::MAX,
        ensures
            final(self).wf(),
            final(self)@ == world_connect(old(self)@, a, b, connection),
    {
        if a != b {
            self.add_edge(a, b, connection);
            self.add_edge(b, a, connection);
        }
    }

    /// Pins the node `a` to the worker thread of the node `b`.
    pub fn adopt_thread(&mut self, a: usize, b: usize)
        requires
            old(self).wf(),
            a < old(self)@.nodes.len(),
            b < old(self)@.nodes.len(),
        ensures
            final(self).wf(),
            final(self)@ == world_adopt(old(self)@, a, b),
    {
        let from = graph_node(&self.graph, b).unwrap();
        let to = graph_node(&self.graph, a).unwrap();
        graph_set_node(&mut self.graph, a, GraphNode { thread: from.thread, ..to });
        proof {
            assert(self@.nodes =~= world_adopt(old(self)@, a, b).nodes);
            assert(self@.links =~= old(self)@.links);
        }
    }

    /// Adds a level of `count` nodes, dealt to the worker threads in turn;
    /// answers the index of the first of them.
    pub fn add_level(&mut self, count: usize) -> (first: usize)
        requires
            old(self).wf(),
            old(self)@.nodes.len() + count < u32::MAX,
        ensures
            final(self).wf(),
            first == old(self)@.nodes.len(),
            final(self)@ == world_level(old(self)@, count as nat),
    {
        let first = graph_node_count(&self.graph);
        let mut i: usize = 0;
        proof {
            assert(self@.nodes =~= world_level(old(self)@, 0).nodes);
            assert(self@.links =~= world_level(old(self)@, 0).links);
        }
        while i < count
            invariant
                i <= count,
                self.wf(),
                old(self)@.nodes.len() + count < u32::MAX,
                self@ == world_level(old(self)@, i as nat),
            decreases count - i,
        {
            self.add_node(i % DEFAULT_THREADS);
            i += 1;
            proof {
                assert(self@.nodes =~= world_level(old(self)@, i as nat).nodes);
                assert(self@.links =~= world_level(old(self)@, i as nat).links);
            }
        }
        first
    }

    /// Connects `node` with each of `peers`, first to last. Where `adopt`
    /// holds the node is also pinned to the worker thread of each peer in
    /// turn, so that it ends on the thread of the last.
    pub fn link_node(&mut self, node: usize, peers: &Vec<Link>, adopt: bool)
        requires
            old(self).wf(),
            node < old(self)@.nodes.len(),
            forall|k: int| 0 <= k < peers@.len() ==> (#[trigger] peers@[k]).target < old(
                self,
            )@.nodes.len(),
            old(self)@.edges + 2 * peers@.len() < u32::MAX,
        ensures
            final(self).wf(),
            final(self)@ == world_link(old(self)@, node, peers@, adopt),
    {
        let mut k: usize = 0;
        assert(peers@.take(0) =~= Seq::<Link>::empty());
        while k < peers.len()
            invariant
                k <= peers.len(),
                self.wf(),
                self@.nodes.len() == old(self)@.nodes.len(),
                node < self@.nodes.len(),
                forall|j: int| 0 <= j < peers@.len() ==> (#[trigger] peers@[j]).target
                    < self@.nodes.len(),
                self@.edges <= old(self)@.edges + 2 * k,
                old(self)@.edges + 2 * peers@.len() < u32::MAX,
                self@ == world_link(old(self)@, node, peers@.take(k as int), adopt),
            decreases peers.len() - k,
        {
            let peer = peers[k];
            proof {
                assert(peers@.take(k + 1).drop_last() == peers@.take(k as int));
                assert(peers@.take(k + 1).last() == peer);
            }
            self.connect(node, peer.target, peer.connection);
            if adopt {
                self.adopt_thread(node, peer.target);
            }
            k += 1;
        }
        assert(peers@.take(peers.len() as int) == peers@);
    }

    /// What it takes to start the node of index `index`: the worker thread
    /// it is pinned to.
    pub fn activate_node(&self, index: usize) -> (r: Activation)
        requires
            self.wf(),
            index < self@.nodes.len(),
        ensures
            r == (Activation { index, thread: self@.nodes[index as int].thread }),
    {
        let node = graph_node(&self.graph, index).unwrap();
        Activation { index, thread: node.thread }
    }

    /// Admits the next batch: the nodes that follow the active ones, a
    /// twentieth of the number of active nodes and at least one. Answers
    /// the nodes to start and whether the batch was complete; an
    /// incomplete batch ends the admission.
    pub fn add_nodes(&mut self) -> (r: (Vec<Activation>, bool))
        requires
            old(self).wf(),
            old(self)@.pending == 0,
        ensures
            final(self).wf(),
            final(self)@ == world_add_nodes(old(self)@),
            r.0@ == next_batch(old(self)@),
            r.1 == batch_complete(old(self)@),
    {
        let n = graph_node_count(&self.graph);
        let twentieth = self.active / ADMISSION_DIVISOR;
        let batch: usize = if twentieth > 1 {
            twentieth
        } else {
            1
        };
        let mut out: Vec<Activation> = Vec::new();
        let mut k: usize = 0;
        while k < batch
            invariant
                k <= batch,
                batch == batch_size(old(self)@.active),
                n == self@.nodes.len(),
                self.wf(),
                self@ == (WorldView { pending: k as nat, ..old(self)@ }),
                old(self)@.pending == 0,
                k == 0 || old(self)@.active + k <= n,
                out@ == Seq::new(
                    k as nat,
                    |j: int|
                        Activation {
                            index: (old(self)@.active + j) as usize,
                            thread: old(self)@.nodes[old(self)@.active + j].thread,
                        },
                ),
            decreases batch - k,
        {
            if self.active >= n - k {
                proof {
                    assert(admitted(old(self)@) == k);
                    assert(out@ =~= next_batch(old(self)@));
                }
                return (out, false);
            }
            let i = self.active + k;
            out.push(self.activate_node(i));
            self.pending = self.pending + 1;
            k += 1;
            assert(out@ =~= Seq::new(
                k as nat,
                |j: int|
                    Activation {
                        index: (old(self)@.active + j) as usize,
                        thread: old(self)@.nodes[old(self)@.active + j].thread,
                    },
            ));
        }
        proof {
            assert(admitted(old(self)@) == batch);
            assert(out@ =~= next_batch(old(self)@));
        }
        (out, true)
    }

    /// Takes note of a node that has announced itself, and answers the
    /// introductions to make: the node is introduced to each neighbour
    /// that has announced itself already.
    pub fn handle_hello_world(&mut self, msg: HelloWorld) -> (r: Vec<Introduction>)
        requires
            old(self).wf(),
            msg.graph_index < old(self)@.nodes.len(),
            old(self)@.pending > 0,
            old(self)@.active < usize::MAX,
        ensures
            final(self).wf(),
            final(self)@ == world_hello(old(self)@, msg.graph_index, msg.id),
            r@ == introductions(
                final(self)@.nodes,
                old(self)@.links[msg.graph_index as int],
                msg.graph_index,
                msg.id,
            ),
    {
        let index = msg.graph_index;
        let node = graph_node(&self.graph, index).unwrap();
        graph_set_node(&mut self.graph, index, GraphNode { spawned: true, ..node });
        self.mapping.insert(msg.id, index);
        self.active = self.active + 1;
        self.pending = self.pending - 1;
        proof {
            assert(self@.nodes =~= world_hello(old(self)@, index, msg.id).nodes);
            assert(self@.links =~= old(self)@.links);
        }
        let links = graph_edges(&self.graph, index);
        let ghost nodes = self@.nodes;
        let mut out: Vec<Introduction> = Vec::new();
        let mut k: usize = 0;
        assert(links@.take(0) =~= Seq::<Link>::empty());
        while k < links.len()
            invariant
                k <= links.len(),
                self.wf(),
                nodes == self@.nodes,
                index < nodes.len(),
                out@ == introductions(nodes, links@.take(k as int), index, msg.id),
            decreases links.len() - k,
        {
            let link = links[k];
            proof {
                assert(links@.take(k + 1).drop_last() == links@.take(k as int));
                assert(links@.take(k + 1).last() == link);
            }
            let spawned = match self.node(link.target) {
                Some(target) => target.spawned,
                None => false,
            };
            if spawned {
                out.push(
                    Introduction {
                        to: link.target,
                        peer: index,
                        id: msg.id,
                        connection: link.connection,
                    },
                );
            }
            k += 1;
        }
        assert(links@.take(links.len() as int) == links@);
        out
    }

    /// The indices of the nodes that have announced themselves, ascending.
    pub fn active_nodes(&self) -> (r: Vec<usize>)
        requires
            self.wf(),
        ensures
            r@ == spawned_nodes(self@.nodes, self@.nodes.len()),
    {
        let n = graph_node_count(&self.graph);
        let mut out: Vec<usize> = Vec::new();
        let mut i: usize = 0;
        while i < n
            invariant
                i <= n,
                n == self@.nodes.len(),
                self.wf(),
                out@ == spawned_nodes(self@.nodes, i as nat),
            decreases n - i,
        {
            let spawned = match self.node(i) {
                Some(node) => node.spawned,
                None => false,
            };
            if spawned {
                out.push(i);
            }
            i += 1;
        }
        out
    }

    /// The driver's timer has fired. While nodes are being admitted and
    /// none is pending, the next batch is started. Once all nodes are
    /// admitted, the nodes are ticked if no packet was reported since the
    /// last wake, and the count of reported packets is noted.
    pub fn handle_wake(&mut self) -> (r: WakeOutcome)
        requires
            old(self).wf(),
        ensures
            final(self).wf(),
            final(self)@ == world_wake(old(self)@),
            r@ == wake_outcome(old(self)@),
    {
        let mut activate: Vec<Activation> = Vec::new();
        if self.pending == 0 && self.adding {
            let (batch, more) = self.add_nodes();
            activate = batch;
            self.adding = more;
        }
        let mut broadcast = false;
        let mut tick: Vec<usize> = Vec::new();
        if !self.adding {
            if self.last_seen_message == self.message_no {
                broadcast = true;
                tick = self.active_nodes();
            }
            self.message_no = self.last_seen_message;
        }
        WakeOutcome { activate, broadcast, tick }
    }

    /// Takes in one more worker thread; answers its number.
    pub fn handle_add_thread(&mut self) -> (r: usize)
        requires
            old(self).wf(),
            old(self)@.threads < usize::MAX,
        ensures
            final(self).wf(),
            r == old(self)@.threads,
            final(self)@ == (WorldView { threads: old(self)@.threads + 1, ..old(self)@ }),
    {
        let r = self.threads;
        self.threads = self.threads + 1;
        r
    }

    /// Takes note that a packet was sent.
    pub fn handle_sent(&mut self)
        requires
            old(self).wf(),
            old(self)@.last_seen_message < u64::MAX,
        ensures
            final(self).wf(),
            final(self)@ == world_sent(old(self)@),
    {
        self.last_seen_message = self.last_seen_message + 1;
    }
}

impl Default for World {
    /// A driver with four worker threads.
    fn default() -> (w: World)
        ensures
            w.wf(),
            w@ == World::new_view(DEFAULT_THREADS as nat),
    {
        World::new(DEFAULT_THREADS)
    }
}

} // verus!
