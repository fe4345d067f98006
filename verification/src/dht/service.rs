//! The service of one node: what it answers to pings and searches, and what
//! it remembers of those who ask.

use crate::node::Node;
use crate::packet::copy_route;
use crate::packet::full_route;
use crate::packet::reverse_route;
use crate::packet::reversed;
use crate::packet::Packet;
use crate::packet::PacketData;
use crate::packet::RouteHeader;
use std::collections::HashMap;
use super::base::bit_length;
use super::base::lemma_bit_length_max;
use super::base::one_in;
use super::base::DHTNode;
use super::base::DHTNodeView;
use super::knodetable::BUCKET_SIZE;
use super::knodetable::DEFAULT_HASH_SIZE;
use super::knodetable::GenericNodeTable;
use super::knodetable::KNodeTable;
use super::model::all_entries;
use super::model::closest;
use super::model::distance;
use super::model::empty_table;
use super::model::lemma_table_pop_oldest;
use super::model::lemma_table_update;
use super::model::table_pop_oldest;
use super::model::table_update;
use super::model::table_wf;
use super::model::TableView;
use vstd::prelude::*;

verus! {

broadcast use vstd::std_specs::hash::group_hash_axioms;

/// Number of nodes that a search hands back.
pub const MAX_NODE_COUNT: usize = 16;

/// The service of the simulation: a Kademlia table and no stored values.
pub type DHT = GenDHT<KNodeTable, ()>;

/// Result of the find operations: either data or the nodes closest to it.
#[derive(Debug)]
pub enum FindResult<TData> {
    Value(TData),
    ClosestNodes(Vec<DHTNode>),
    Nothing,
}

/// State of the service of one node.
#[derive(Debug)]
pub struct GenDHT<TNodeTable, TData> where
    TNodeTable: GenericNodeTable,
    TData: Send + Sync + Clone,
{
    node_id: u64,
    table: TNodeTable,
    data: HashMap<u64, TData>,
    clean_needed: bool,
}

/// The service as a value: the identifier it serves, its table, the values
/// it holds, and whether a bucket has refused a node since the last clean.
pub struct DhtView<TData> {
    pub node_id: u64,
    pub table: TableView,
    pub data: Map<u64, TData>,
    pub clean_needed: bool,
}

/// A service is well formed when its table is, serves its own identifier
/// and has a bucket for every distance between 64-bit identifiers.
pub open spec fn dht_wf<TData>(d: DhtView<TData>) -> bool {
    &&& table_wf(d.table)
    &&& d.table.this_id == d.node_id
    &&& d.table.hash_size == DEFAULT_HASH_SIZE
}

/// What remembering `node` does to the service: nothing for the node
/// itself; otherwise the table is told, and a refusal is noted.
pub open spec fn dht_update<TData>(d: DhtView<TData>, node: DHTNodeView) -> DhtView<TData> {
    if node.id == d.node_id {
        d
    } else {
        DhtView {
            table: table_update(d.table, node).0,
            clean_needed: d.clean_needed || !table_update(d.table, node).1,
            ..d
        }
    }
}

/// The nodes of the service that are nearest to `id`, as a search hands
/// them back.
pub open spec fn dht_closest<TData>(d: DhtView<TData>, id: u64) -> Seq<DHTNodeView> {
    closest(all_entries(d.table.buckets), id, MAX_NODE_COUNT as nat)
}

/// Remembering a node keeps the service well formed and leaves its values
/// alone.
pub proof fn lemma_dht_update<TData>(d: DhtView<TData>, node: DHTNodeView)
    requires
        dht_wf(d),
    ensures
        dht_wf(dht_update(d, node)),
        dht_update(d, node).node_id == d.node_id,
        dht_update(d, node).data == d.data,
        d.clean_needed ==> dht_update(d, node).clean_needed,
{
    if node.id != d.node_id {
        lemma_bit_length_max(distance(d.table.this_id, node.id));
        lemma_table_update(d.table, node);
    }
}

impl<TData: Send + Sync + Clone> View for GenDHT<KNodeTable, TData> {
    type V = DhtView<TData>;

    closed spec fn view(&self) -> DhtView<TData> {
        DhtView {
            node_id: self.node_id,
            table: self.table@,
            data: self.data@,
            clean_needed: self.clean_needed,
        }
    }
}

impl<TData: Send + Sync + Clone> GenDHT<KNodeTable, TData> {
    /// Well-formedness of the service.
    pub open spec fn wf(&self) -> bool {
        dht_wf(self@)
    }

    /// The service of the node `node_id` before it has heard of anybody:
    /// 64 empty buckets of 32 nodes, and no values.
    pub open spec fn new_view(node_id: u64) -> DhtView<TData> {
        DhtView {
            node_id,
            table: empty_table(node_id, BUCKET_SIZE as nat, DEFAULT_HASH_SIZE as nat),
            data: Map::<u64, TData>::empty(),
            clean_needed: false,
        }
    }

    /// A service for the node `node_id` that knows nobody and holds nothing.
    pub fn new(node_id: u64) -> (d: Self)
        ensures
            d.wf(),
            d@ == Self::new_view(node_id),
    {
        GenDHT {
            node_id: node_id,
            table: KNodeTable::new(node_id),
            data: HashMap::new(),
            clean_needed: false,
        }
    }

    /// Processes a ping: remembers the sender and answers `true`.
    pub fn on_ping(&mut self, sender: &DHTNode) -> (r: bool)
        requires
            old(self).wf(),
        ensures
            final(self).wf(),
            final(self)@ == dht_update(old(self)@, sender@),
            r,
    {
        self.update(sender);
        true
    }

    /// Processes a search for nodes: answers with the nodes nearest to `id`
    /// that were known before the request, then remembers the sender.
    pub fn on_find_node(&mut self, sender: &DHTNode, id: &u64) -> (r: Vec<DHTNode>)
        requires
            old(self).wf(),
        ensures
            final(self).wf(),
            final(self)@ == dht_update(old(self)@, sender@),
            r.deep_view() == dht_closest(old(self)@, *id),
    {
        let res = self.table.find(id, MAX_NODE_COUNT);
        self.update(sender);
        res
    }

    /// Processes a search for a value: remembers the sender, then answers
    /// with the value under `id` if there is one, else with the nearest
    /// nodes, the sender among them if it was taken in.
    pub fn on_find_value(&mut self, sender: &DHTNode, id: &u64) -> (r: FindResult<TData>)
        requires
            old(self).wf(),
        ensures
            final(self).wf(),
            final(self)@ == dht_update(old(self)@, sender@),
            match r {
                FindResult::Value(v) => old(self)@.data.contains_key(*id) && cloned(
                    old(self)@.data[*id],
                    v,
                ),
                FindResult::ClosestNodes(nodes) => !old(self)@.data.contains_key(*id)
                    && nodes.deep_view() == dht_closest(final(self)@, *id),
                FindResult::Nothing => false,
            },
    {
        self.update(sender);
        let found = self.data.get(id);
        match found {
            Some(value) => FindResult::Value(value.clone()),
            None => FindResult::ClosestNodes(self.table.find(id, MAX_NODE_COUNT)),
        }
    }

    /// Remembers a node. The node itself is passed over; a refusal by a full
    /// bucket is noted for the next clean.
    pub fn update(&mut self, node: &DHTNode)
        requires
            old(self).wf(),
        ensures
            final(self).wf(),
            final(self)@ == dht_update(old(self)@, node@),
    {
        proof {
            lemma_dht_update(self@, node@);
        }
        if node.id == self.node_id {
            return ;
        }
        proof {
            lemma_bit_length_max(distance(self.table@.this_id, node.id));
        }
        if !self.table.update(node) {
            self.clean_needed = true;
        }
    }

    /// The table of known nodes.
    pub fn table(&self) -> (r: &KNodeTable)
        ensures
            r@ == self@.table,
    {
        &self.table
    }

    /// The identifier that the service serves.
    pub fn node_id(&self) -> (r: u64)
        ensures
            r == self@.node_id,
    {
        self.node_id
    }

    /// A random identifier of the width of the table: it has no more bits
    /// than the table has buckets.
    pub fn random_id(&self) -> (r: u64)
        requires
            self.wf(),
        ensures
            bit_length(r) <= self@.table.hash_size,
    {
        self.table.random_id()
    }

    /// Whether a bucket has refused a node since the last clean.
    pub fn clean_needed(&self) -> (r: bool)
        ensures
            r == self@.clean_needed,
    {
        self.clean_needed
    }

    /// Makes room where a node was refused: takes the oldest node out of
    /// each full bucket and hands them out, to be probed and told again if
    /// they answer. Does nothing when no node was refused.
    pub fn clean(&mut self) -> (r: Vec<DHTNode>)
        requires
            old(self).wf(),
        ensures
            final(self).wf(),
            !final(self)@.clean_needed,
            final(self)@.node_id == old(self)@.node_id,
            final(self)@.data == old(self)@.data,
            old(self)@.clean_needed ==> (final(self)@.table, r.deep_view()) == table_pop_oldest(
                old(self)@.table,
            ),
            !old(self)@.clean_needed ==> final(self)@.table == old(self)@.table && r.deep_view()
                == Seq::<DHTNodeView>::empty(),
    {
        if self.clean_needed {
            proof {
                lemma_table_pop_oldest(self.table@);
            }
            self.clean_needed = false;
            self.table.pop_oldest()
        } else {
            let r: Vec<DHTNode> = Vec::new();
            assert(r.deep_view() =~= Seq::<DHTNodeView>::empty());
            r
        }
    }
}


/// Asks a neighbour to take note of the sender.
#[derive(Clone, Copy, Debug)]
pub struct Ping;

/// Asks the destination for the nodes it knows nearest to `goal`.
#[derive(Debug)]
pub struct DHTLookup {
    pub goal: u64,
    /// The route on which the question was sent.
    pub path_to: Vec<u64>,
}

/// The nodes that the asked node knows nearest to `goal`, nearest first.
#[derive(Debug)]
pub struct DHTLookupReply {
    pub goal: u64,
    pub reply: Vec<DHTNode>,
}

/// Where an iterative search stands after a decision.
#[derive(Debug)]
pub enum LookupStep {
    /// No candidate is left: the search has failed.
    NotFound,
    /// The goal is known; this is how to reach it.
    Found(DHTNode),
    /// The head of `candidates` is to be asked with `packet`. The search
    /// goes on with `lookup_reply` when it answers and with `lookup_failed`
    /// when it cannot be reached.
    Ask { packet: Packet<DHTLookup>, candidates: Vec<DHTNode> },
}

/// A step of a search as a value.
pub enum LookupStepView {
    NotFound,
    Found(DHTNodeView),
    Ask { header: RouteHeader, goal: u64, path_to: Seq<u64>, candidates: Seq<DHTNodeView> },
}

impl View for LookupStep {
    type V = LookupStepView;

    open spec fn view(&self) -> LookupStepView {
        match self {
            LookupStep::NotFound => LookupStepView::NotFound,
            LookupStep::Found(n) => LookupStepView::Found(n@),
            LookupStep::Ask { packet, candidates } => LookupStepView::Ask {
                header: packet.header(),
                goal: packet.data.goal,
                path_to: packet.data.path_to@,
                candidates: candidates.deep_view(),
            },
        }
    }
}

impl DeepView for LookupStep {
    type V = LookupStepView;

    open spec fn deep_view(&self) -> LookupStepView {
        self@
    }
}

/// The candidates with which a search sets out: the bootstrap search skips
/// the first, which is the nearest known, so that the probe reaches a
/// remote node.
pub open spec fn lookup_candidates(nodes: Seq<DHTNodeView>, init: bool) -> Seq<DHTNodeView> {
    if init && nodes.len() > 0 {
        nodes.drop_first()
    } else {
        nodes
    }
}

/// What a search for `goal` by the node `self_id` does with its candidates:
/// it fails when there is none or the first is the node itself, it ends
/// when the first is the goal, and else it asks the first along its route.
pub open spec fn lookup_decision(self_id: u64, goal: u64, candidates: Seq<DHTNodeView>)
    -> LookupStepView {
    if candidates.len() == 0 || candidates[0].id == self_id {
        LookupStepView::NotFound
    } else if candidates[0].id == goal {
        LookupStepView::Found(
            DHTNodeView { id: candidates[0].id, route: candidates[0].route.push(self_id) },
        )
    } else {
        LookupStepView::Ask {
            header: RouteHeader {
                from: self_id,
                des: candidates[0].id,
                route: candidates[0].route,
            },
            goal,
            path_to: candidates[0].route,
            candidates,
        }
    }
}

/// The first step of a search: from the given candidates, or from the
/// nearest nodes of the table when none are given.
pub open spec fn lookup_start<TData>(
    d: DhtView<TData>,
    goal: u64,
    seed: Option<Seq<DHTNodeView>>,
    init: bool,
) -> LookupStepView {
    let nodes = match seed {
        Some(s) => s,
        None => dht_closest(d, goal),
    };
    lookup_decision(d.node_id, goal, lookup_candidates(nodes, init))
}

/// A node of an answer as seen from the asking node: its route is extended
/// by the hops that lead to the node that answered.
pub open spec fn extended(n: DHTNodeView, back: Seq<u64>) -> DHTNodeView {
    DHTNodeView { id: n.id, route: n.route + back }
}

/// The service after it has been told of the nodes of an answer, first to
/// last, each with its route extended by `back`.
pub open spec fn dht_merge<TData>(d: DhtView<TData>, nodes: Seq<DHTNodeView>, back: Seq<u64>)
    -> DhtView<TData>
    decreases nodes.len(),
{
    if nodes.len() == 0 {
        d
    } else {
        dht_update(dht_merge(d, nodes.drop_last(), back), extended(nodes.last(), back))
    }
}

/// How a search goes on after an answer that came in over `back`: it ends
/// when the first node of the answer is the goal, and else starts again
/// from the nodes of the answer.
pub open spec fn lookup_after_reply(
    self_id: u64,
    goal: u64,
    init: bool,
    reply: Seq<DHTNodeView>,
    back: Seq<u64>,
) -> LookupStepView {
    if reply.len() > 0 && reply[0].id == goal {
        LookupStepView::Found(
            DHTNodeView { id: reply[0].id, route: reply[0].route + back.reverse() },
        )
    } else {
        lookup_decision(self_id, goal, lookup_candidates(reply, init))
    }
}

/// How a search goes on when the first candidate could not be reached: with
/// the candidates that are left.
pub open spec fn lookup_after_failure(self_id: u64, goal: u64, candidates: Seq<DHTNodeView>)
    -> LookupStepView {
    if candidates.len() == 0 {
        LookupStepView::NotFound
    } else {
        lookup_decision(self_id, goal, candidates.drop_first())
    }
}

/// Merging an answer keeps the service well formed, and tells it of none
/// that carries the service's own identifier.
pub proof fn lemma_dht_merge<TData>(d: DhtView<TData>, nodes: Seq<DHTNodeView>, back: Seq<u64>)
    requires
        dht_wf(d),
    ensures
        dht_wf(dht_merge(d, nodes, back)),
        dht_merge(d, nodes, back).node_id == d.node_id,
        dht_merge(d, nodes, back).data == d.data,
        (forall|i: int| 0 <= i < nodes.len() ==> nodes[i].id == d.node_id) ==> dht_merge(
            d,
            nodes,
            back,
        ) == d,
    decreases nodes.len(),
{
    if nodes.len() > 0 {
        lemma_dht_merge(d, nodes.drop_last(), back);
        lemma_dht_update(dht_merge(d, nodes.drop_last(), back), extended(nodes.last(), back));
        if forall|i: int| 0 <= i < nodes.len() ==> nodes[i].id == d.node_id {
            assert forall|i: int| 0 <= i < nodes.drop_last().len() implies nodes.drop_last()[i].id
                == d.node_id by {
                assert(nodes.drop_last()[i] == nodes[i]);
            }
            assert(nodes[nodes.len() - 1].id == d.node_id);
        }
    }
}

/// Copies a list of nodes.
pub fn copy_nodes(nodes: &Vec<DHTNode>) -> (out: Vec<DHTNode>)
    ensures
        out.deep_view() == nodes.deep_view(),
{
    let mut out: Vec<DHTNode> = Vec::new();
    let mut i: usize = 0;
    assert(out.deep_view() =~= nodes.deep_view().take(0));
    while i < nodes.len()
        invariant
            i <= nodes.len(),
            out.deep_view() == nodes.deep_view().take(i as int),
        decreases nodes.len() - i,
    {
        let ghost before = out.deep_view();
        out.push(nodes[i].clone());
        assert(out.deep_view() =~= before.push(nodes@[i as int]@));
        assert(nodes.deep_view().take(i + 1) =~= before.push(nodes@[i as int]@));
        i += 1;
    }
    assert(nodes.deep_view().take(nodes.len() as int) =~= nodes.deep_view());
    out
}

impl Node {
    /// Decides what a search for `goal` does with its candidates.
    pub fn lookup_step(&self, goal: u64, closest: Vec<DHTNode>) -> (r: LookupStep)
        ensures
            r@ == lookup_decision(self.id, goal, closest.deep_view()),
    {
        if closest.len() < 1 || closest[0].id == self.id {
            return LookupStep::NotFound;
        }
        if closest[0].id == goal {
            let mut r = closest[0].clone();
            r.route.push(self.id);
            return LookupStep::Found(r);
        }
        let r = copy_route(&closest[0].route);
        let des = closest[0].id;
        LookupStep::Ask {
            packet: Packet {
                from: self.id,
                des,
                route: copy_route(&r),
                data: DHTLookup { goal, path_to: r },
            },
            candidates: closest,
        }
    }

    /// Starts a search for `goal`: from `current_nodes` if there are any,
    /// else from the nearest nodes of the table. The bootstrap search, with
    /// `init`, passes over the first candidate.
    pub fn dht_lookup(&self, goal: u64, current_nodes: Option<Vec<DHTNode>>, init: bool) -> (r:
        LookupStep)
        requires
            self.wf(),
        ensures
            r@ == lookup_start(
                self.dht@,
                goal,
                match current_nodes {
                    Some(c) => Some(c.deep_view()),
                    None => None,
                },
                init,
            ),
    {
        let mut closest = match current_nodes {
            Some(c) => c,
            None => self.dht.table.find(&goal, MAX_NODE_COUNT),
        };
        let ghost nodes = closest.deep_view();
        if init && closest.len() > 0 {
            closest.remove(0);
            assert(closest.deep_view() =~= nodes.drop_first());
        }
        self.lookup_step(goal, closest)
    }

    /// Takes in the answer to a question of a search: every node of the
    /// answer is told to the service, with its route extended by the way
    /// back to the node that answered; then the search ends or goes on.
    pub fn lookup_reply(&mut self, goal: u64, init: bool, response: &Packet<DHTLookupReply>) -> (r:
        LookupStep)
        requires
            old(self).wf(),
        ensures
            final(self).wf(),
            same_but_dht(old(self), final(self)),
            final(self).dht@ == dht_merge(
                old(self).dht@,
                response.data.reply.deep_view(),
                full_route(response.header()),
            ),
            r@ == lookup_after_reply(
                old(self).id,
                goal,
                init,
                response.data.reply.deep_view(),
                full_route(response.header()),
            ),
    {
        let back = response.get_full_route();
        let ghost nodes = response.data.reply.deep_view();
        let mut i: usize = 0;
        assert(nodes.take(0) =~= Seq::<DHTNodeView>::empty());
        while i < response.data.reply.len()
            invariant
                i <= response.data.reply.len(),
                nodes == response.data.reply.deep_view(),
                back@ == full_route(response.header()),
                self.wf(),
                same_but_dht(old(self), self),
                self.dht@ == dht_merge(old(self).dht@, nodes.take(i as int), back@),
            decreases response.data.reply.len() - i,
        {
            let mut node = response.data.reply[i].clone();
            let mut hops = copy_route(&back);
            node.route.append(&mut hops);
            proof {
                assert(nodes.take(i + 1).drop_last() == nodes.take(i as int));
                assert(nodes.take(i + 1).last() == response.data.reply@[i as int]@);
                assert(node@ == extended(response.data.reply@[i as int]@, back@));
            }
            self.dht.update(&node);
            i += 1;
        }
        assert(nodes.take(nodes.len() as int) == nodes);
        if response.data.reply.len() > 0 && response.data.reply[0].id == goal {
            let mut found = response.data.reply[0].clone();
            let mut hop = reverse_route(&back);
            found.prepend(&mut hop);
            LookupStep::Found(found)
        } else {
            self.dht_lookup(goal, Some(copy_nodes(&response.data.reply)), init)
        }
    }

    /// Goes on with a search whose question could not be delivered: the
    /// candidate that was asked is dropped, and the next one is tried.
    pub fn lookup_failed(&self, goal: u64, candidates: Vec<DHTNode>) -> (r: LookupStep)
        ensures
            r@ == lookup_after_failure(self.id, goal, candidates.deep_view()),
    {
        let mut rest = candidates;
        if rest.len() == 0 {
            return LookupStep::NotFound;
        }
        let ghost nodes = rest.deep_view();
        rest.remove(0);
        assert(rest.deep_view() =~= nodes.drop_first());
        self.lookup_step(goal, rest)
    }
}

/// Two states of a node that differ in nothing but the service.
pub open spec fn same_but_dht(before: &Node, after: &Node) -> bool {
    &&& after.id == before.id
    &&& after.graph_index == before.graph_index
    &&& after.neighbours == before.neighbours
    &&& after.neighbours_map == before.neighbours_map
    &&& after.dht_init == before.dht_init
}

/// The sender of a ping as the receiver remembers it: under the hops of the
/// packet, its destination and its source, read backwards.
pub open spec fn ping_sender(h: RouteHeader) -> DHTNodeView {
    DHTNodeView { id: h.from, route: full_route(h).push(h.from).reverse() }
}

/// The sender of a question as the asked node remembers it: under the hops
/// of the packet, read backwards.
pub open spec fn lookup_sender(h: RouteHeader) -> DHTNodeView {
    DHTNodeView { id: h.from, route: h.route.reverse() }
}

impl PacketData for Ping {
    type Reply = ();

    open spec fn processed(packet: &Packet<Ping>, before: &Node, after: &Node, reply: &()) -> bool {
        &&& same_but_dht(before, after)
        &&& after.dht@ == dht_update(before.dht@, ping_sender(packet.header()))
    }

    fn process(packet: &Packet<Ping>, node: &mut Node) -> (r: ()) {
        let mut r = packet.get_full_route();
        r.push(packet.from);
        let r = reverse_route(&r);
        node.dht.on_ping(&DHTNode { id: packet.from, route: r });
    }
}

impl PacketData for DHTLookup {
    type Reply = Packet<DHTLookupReply>;

    open spec fn processed(
        packet: &Packet<DHTLookup>,
        before: &Node,
        after: &Node,
        reply: &Packet<DHTLookupReply>,
    ) -> bool {
        &&& same_but_dht(before, after)
        &&& after.dht@ == dht_update(before.dht@, lookup_sender(packet.header()))
        &&& reply.header() == reversed(packet.header())
        &&& reply.data.goal == packet.data.goal
        &&& reply.data.reply.deep_view() == dht_closest(before.dht@, packet.data.goal)
    }

    fn process(packet: &Packet<DHTLookup>, node: &mut Node) -> (r: Packet<DHTLookupReply>) {
        let sender = DHTNode { id: packet.from, route: reverse_route(&packet.route) };
        let r = node.dht.on_find_node(&sender, &packet.data.goal);
        Packet::new(packet.reverse(), DHTLookupReply { reply: r, goal: packet.data.goal })
    }
}

impl PacketData for DHTLookupReply {
    type Reply = ();

    open spec fn processed(
        packet: &Packet<DHTLookupReply>,
        before: &Node,
        after: &Node,
        reply: &(),
    ) -> bool {
        *after == *before
    }

    fn process(packet: &Packet<DHTLookupReply>, node: &mut Node) -> (r: ()) {
    }
}


/// One neighbour in so many is pinged on a tick.
pub const TICK_SAMPLE: u32 = 10;

/// What a node wants done on a tick.
#[derive(Debug)]
pub enum TickAction {
    /// Send this ping; its answer is of no interest.
    SendPing(Packet<Ping>),
    /// A search for `goal` has been started and stands at `step`; `init`
    /// marks the bootstrap search.
    Lookup { goal: u64, init: bool, step: LookupStep },
}

/// An action of a tick as a value.
pub enum TickActionView {
    SendPing(RouteHeader),
    Lookup { goal: u64, init: bool, step: LookupStepView },
}

impl View for TickAction {
    type V = TickActionView;

    open spec fn view(&self) -> TickActionView {
        match self {
            TickAction::SendPing(p) => TickActionView::SendPing(p.header()),
            TickAction::Lookup { goal, init, step } => TickActionView::Lookup {
                goal: *goal,
                init: *init,
                step: step@,
            },
        }
    }
}

impl DeepView for TickAction {
    type V = TickActionView;

    open spec fn deep_view(&self) -> TickActionView {
        self@
    }
}

/// The search for `goal` that a tick starts, as it stands after its first
/// step.
pub open spec fn tick_lookup<TData>(d: DhtView<TData>, goal: u64, init: bool) -> TickActionView {
    TickActionView::Lookup { goal, init, step: lookup_start(d, goal, None, init) }
}

/// The header of a ping to a neighbour: the neighbour is the one hop and
/// the destination.
pub open spec fn ping_header(from: u64, to: u64) -> RouteHeader {
    RouteHeader { from, des: to, route: seq![to] }
}

/// What a tick does for the first `n` neighbours: each neighbour whose draw
/// came out true is pinged, and a search for the identifier drawn with it
/// is started.
pub open spec fn neighbour_actions<TData>(
    d: DhtView<TData>,
    neighbours: Seq<u64>,
    draws: Seq<(bool, u64)>,
    n: nat,
) -> Seq<TickActionView>
    decreases n,
{
    if n == 0 {
        Seq::empty()
    } else {
        let before = neighbour_actions(d, neighbours, draws, (n - 1) as nat);
        if draws[n - 1].0 {
            before.push(TickActionView::SendPing(ping_header(d.node_id, neighbours[n - 1]))).push(
                tick_lookup(d, draws[n - 1].1, false),
            )
        } else {
            before
        }
    }
}

/// What a tick does: on the first tick, when the node has not `started`
/// yet, the bootstrap search for the node's own identifier; then the pings
/// and searches for the neighbours drawn.
pub open spec fn tick_actions<TData>(
    d: DhtView<TData>,
    started: bool,
    neighbours: Seq<u64>,
    draws: Seq<(bool, u64)>,
) -> Seq<TickActionView> {
    let bootstrap = if !started {
        seq![tick_lookup(d, d.node_id, true)]
    } else {
        Seq::empty()
    };
    bootstrap + neighbour_actions(d, neighbours, draws, neighbours.len())
}

impl Node {
    /// The periodic work of a node, given for each neighbour whether it is
    /// drawn and the identifier to search for.
    pub fn tick_with(&mut self, draws: &Vec<(bool, u64)>) -> (r: Vec<TickAction>)
        requires
            old(self).wf(),
            draws@.len() == old(self).neighbours@.len(),
        ensures
            final(self).wf(),
            final(self).dht_init,
            final(self).id == old(self).id,
            final(self).graph_index == old(self).graph_index,
            final(self).neighbours == old(self).neighbours,
            final(self).neighbours_map == old(self).neighbours_map,
            final(self).dht == old(self).dht,
            r.deep_view() == tick_actions(
                old(self).dht@,
                old(self).dht_init,
                old(self).neighbour_ids(),
                draws@,
            ),
    {
        let mut out: Vec<TickAction> = Vec::new();
        let ghost d = self.dht@;
        let ghost ids = self.neighbour_ids();
        if !self.dht_init {
            let step = self.dht_lookup(self.id, None, true);
            out.push(TickAction::Lookup { goal: self.id, init: true, step });
        }
        let ghost bootstrap = out.deep_view();
        assert(bootstrap =~= if !self.dht_init {
            seq![tick_lookup(d, d.node_id, true)]
        } else {
            Seq::empty()
        });
        let mut i: usize = 0;
        assert(out.deep_view() =~= bootstrap + neighbour_actions(d, ids, draws@, 0));
        while i < self.neighbours.len()
            invariant
                i <= self.neighbours.len(),
                draws@.len() == self.neighbours@.len(),
                self.wf(),
                *self == *old(self),
                d == self.dht@,
                ids == self.neighbour_ids(),
                out.deep_view() == bootstrap + neighbour_actions(d, ids, draws@, i as nat),
            decreases self.neighbours.len() - i,
        {
            let ghost before = out.deep_view();
            if draws[i].0 {
                let to = self.neighbours[i].id;
                let mut route: Vec<u64> = Vec::new();
                route.push(to);
                let ping = Packet { from: self.id, des: to, route, data: Ping };
                assert(ping.header().route =~= seq![to]);
                out.push(TickAction::SendPing(ping));
                let goal = draws[i].1;
                let step = self.dht_lookup(goal, None, false);
                out.push(TickAction::Lookup { goal, init: false, step });
                assert(out.deep_view() =~= before.push(
                    TickActionView::SendPing(ping_header(d.node_id, ids[i as int])),
                ).push(tick_lookup(d, draws@[i as int].1, false)));
            }
            i += 1;
            assert(out.deep_view() =~= bootstrap + neighbour_actions(d, ids, draws@, i as nat));
        }
        self.dht_init = true;
        out
    }

    /// The periodic work of a node. Each neighbour is drawn with one chance
    /// in ten; a neighbour that is drawn is pinged, and a search for a
    /// random identifier is started. The first tick also starts the
    /// bootstrap search for the node's own identifier.
    pub fn dht_tick(&mut self) -> (r: Vec<TickAction>)
        requires
            old(self).wf(),
        ensures
            final(self).wf(),
            final(self).dht_init,
            final(self).id == old(self).id,
            final(self).graph_index == old(self).graph_index,
            final(self).neighbours == old(self).neighbours,
            final(self).neighbours_map == old(self).neighbours_map,
            final(self).dht == old(self).dht,
            exists|draws: Seq<(bool, u64)>|
                draws.len() == old(self).neighbours@.len() && r.deep_view() == #[trigger] tick_actions(
                    old(self).dht@,
                    old(self).dht_init,
                    old(self).neighbour_ids(),
                    draws,
                ),
    {
        let mut draws: Vec<(bool, u64)> = Vec::new();
        let mut i: usize = 0;
        while i < self.neighbours.len()
            invariant
                i <= self.neighbours.len(),
                draws@.len() == i,
                self.wf(),
                *self == *old(self),
            decreases self.neighbours.len() - i,
        {
            let drawn = one_in(TICK_SAMPLE);
            let goal = self.dht.random_id();
            draws.push((drawn, goal));
            i += 1;
        }
        self.tick_with(&draws)
    }
}

} // verus!
