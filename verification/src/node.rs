//! The state of a node actor and what it decides when a message arrives.
//! Sending is left to the runtime: each handler answers with what is to be
//! sent, and to which neighbour.

use crate::dht::base::one_in;
use crate::dht::base::GenericId;
use crate::dht::service::DHT;
use crate::packet::Packet;
use crate::packet::PacketData;
use crate::packet::RouteHeader;
use std::collections::HashMap;
use vstd::prelude::*;

verus! {

broadcast use vstd::std_specs::hash::group_hash_axioms;

/// A directly wired peer. Its place in the list of neighbours is the handle
/// under which the runtime keeps the peer's address and connection.
#[derive(Clone, Copy, Debug)]
pub struct NeighbourData {
    pub id: u64,
}

/// A node announces itself to another node.
#[derive(Clone, Copy, Debug)]
pub struct HelloNode {
    /// Identifier of the node that announces itself.
    pub id: u64,
    /// Whether this answers an announcement of the receiver.
    pub reply: bool,
}

/// The driver asks a node to do its periodic work.
#[derive(Clone, Copy, Debug)]
pub struct Tick;

/// What became of an announcement.
#[derive(Clone, Copy, Debug, PartialEq, Eq, Structural)]
pub enum HelloOutcome {
    /// The peer was a neighbour already; nothing changed.
    Known,
    /// The peer is now the neighbour of this index. When `respond` holds
    /// the node owes it the mirrored announcement, marked as a reply.
    Added { index: usize, respond: bool },
}

/// A packet on its way to the neighbour of index `neighbour`.
pub struct Forward<T> {
    pub neighbour: usize,
    pub packet: Packet<T>,
}

/// What a node did with a packet that reached it.
pub enum Handled<T, R> {
    /// The packet was for this node; this is its answer.
    Replied(R),
    /// The packet goes on. When `notify` holds the driver is told that a
    /// packet was sent.
    Forwarded { hop: Forward<T>, notify: bool },
}

/// One in so many forwarded packets is reported to the driver.
pub const SENT_SAMPLE: u32 = 100;

/// State of a node actor.
pub struct Node {
    pub id: u64,
    pub graph_index: usize,
    pub neighbours: Vec<NeighbourData>,
    pub neighbours_map: HashMap<u64, usize>,
    pub dht: DHT,
    pub dht_init: bool,
}

/// The hop that a packet takes next: the last of its route, or the
/// destination itself when the route is used up.
pub open spec fn next_hop(h: RouteHeader) -> u64 {
    if h.route.len() > 0 {
        h.route.last()
    } else {
        h.des
    }
}

/// The header of a packet after it has taken its next hop.
pub open spec fn advanced(h: RouteHeader) -> RouteHeader {
    if h.route.len() > 0 {
        RouteHeader { route: h.route.drop_last(), ..h }
    } else {
        h
    }
}

impl Node {
    /// The identifiers of the neighbours, in the order they were added.
    pub open spec fn neighbour_ids(&self) -> Seq<u64> {
        Seq::new(self.neighbours@.len(), |i: int| self.neighbours@[i].id)
    }

    /// Whether `id` is a neighbour.
    pub open spec fn knows(&self, id: u64) -> bool {
        self.neighbours_map@.contains_key(id)
    }

    /// A node is well formed when its service is and serves the node's
    /// identifier, and the index of the neighbours says of each identifier
    /// where in the list it stands.
    pub open spec fn wf(&self) -> bool {
        &&& self.dht.wf()
        &&& self.dht@.node_id == self.id
        &&& forall|i: int|
            0 <= i < self.neighbours@.len() ==> self.neighbours_map@.contains_key(
                #[trigger] self.neighbours@[i].id,
            ) && self.neighbours_map@[self.neighbours@[i].id] == i
        &&& forall|k: u64| #[trigger]
            self.neighbours_map@.contains_key(k) ==> self.neighbours_map@[k]
                < self.neighbours@.len() && self.neighbours@[self.neighbours_map@[k] as int].id
                == k
    }

    /// A node without neighbours under the identifier `id`.
    pub fn with_id(id: u64, graph_index: usize) -> (n: Node)
        ensures
            n.wf(),
            n.id == id,
            n.graph_index == graph_index,
            n.neighbours@.len() == 0,
            !n.dht_init,
            n.dht@ == DHT::new_view(id),
    {
        Node {
            id,
            neighbours: Vec::new(),
            graph_index,
            neighbours_map: HashMap::new(),
            dht: DHT::new(id),
            dht_init: false,
        }
    }

    /// A node without neighbours under a random identifier.
    pub fn new(graph_index: usize) -> (n: Node)
        ensures
            n.wf(),
            n.graph_index == graph_index,
            n.neighbours@.len() == 0,
            !n.dht_init,
            n.dht@ == DHT::new_view(n.id),
    {
        Node::with_id(u64::gen(64), graph_index)
    }

    /// Where in the list of neighbours `id` stands, if it is a neighbour.
    pub fn neighbour_index(&self, id: u64) -> (r: Option<usize>)
        requires
            self.wf(),
        ensures
            match r {
                Some(i) => {
                    &&& self.knows(id)
                    &&& i == self.neighbours_map@[id]
                    &&& i < self.neighbours@.len()
                    &&& self.neighbours@[i as int].id == id
                },
                None => !self.knows(id),
            },
    {
        match self.neighbours_map.get(&id) {
            Some(i) => Some(*i),
            None => None,
        }
    }

    /// Takes note of a peer that announces itself. A peer that is known
    /// already changes nothing; a new one is appended and indexed, and is
    /// owed an answer unless its announcement was one.
    pub fn handle_hello(&mut self, msg: HelloNode) -> (r: HelloOutcome)
        requires
            old(self).wf(),
        ensures
            final(self).wf(),
            final(self).id == old(self).id,
            final(self).graph_index == old(self).graph_index,
            final(self).dht == old(self).dht,
            final(self).dht_init == old(self).dht_init,
            old(self).knows(msg.id) ==> r == HelloOutcome::Known && final(self).neighbours@ == old(
                self,
            ).neighbours@ && final(self).neighbours_map@ == old(self).neighbours_map@,
            !old(self).knows(msg.id) ==> r == (HelloOutcome::Added {
                index: old(self).neighbours@.len() as usize,
                respond: !msg.reply,
            }) && final(self).neighbours@ == old(self).neighbours@.push(
                NeighbourData { id: msg.id },
            ) && final(self).neighbours_map@ == old(self).neighbours_map@.insert(
                msg.id,
                old(self).neighbours@.len() as usize,
            ),
    {
        if !self.neighbours_map.contains_key(&msg.id) {
            let index = self.neighbours.len();
            self.neighbours_map.insert(msg.id, index);
            self.neighbours.push(NeighbourData { id: msg.id });
            proof {
                let map = self.neighbours_map@;
                assert forall|i: int| 0 <= i < self.neighbours@.len() implies map.contains_key(
                    #[trigger] self.neighbours@[i].id,
                ) && map[self.neighbours@[i].id] == i by {
                    if i < index {
                        assert(old(self).neighbours@[i].id == self.neighbours@[i].id);
                    }
                }
            }
            HelloOutcome::Added { index, respond: !msg.reply }
        } else {
            HelloOutcome::Known
        }
    }

    /// Whether `hop` is the next hop of `msg` from this node: it names the
    /// neighbour that is the packet's next hop, and carries the packet with
    /// that hop taken off its route.
    pub open spec fn forwards<T>(&self, msg: &Packet<T>, hop: &Forward<T>) -> bool {
        &&& hop.neighbour == self.neighbours_map@[next_hop(msg.header())]
        &&& hop.neighbour < self.neighbours@.len()
        &&& self.neighbours@[hop.neighbour as int].id == next_hop(msg.header())
        &&& hop.packet.header() == advanced(msg.header())
        &&& hop.packet.data == msg.data
    }

    /// Chooses the neighbour that a packet of this node's own goes to, and
    /// takes that hop off its route.
    pub fn send_packet<T>(&self, msg: Packet<T>) -> (r: Forward<T>)
        requires
            self.wf(),
            self.knows(next_hop(msg.header())),
        ensures
            self.forwards(&msg, &r),
    {
        let mut msg = msg;
        let ghost before = msg.route@;
        let next = match msg.route.pop() {
            Some(hop) => hop,
            None => msg.des,
        };
        assert(before.len() > 0 ==> msg.route@ == before.drop_last());
        let index = *self.neighbours_map.get(&next).unwrap();
        Forward { neighbour: index, packet: msg }
    }

    /// Chooses the neighbour that a packet passing through goes to, and
    /// takes that hop off its route.
    pub fn fwd<T>(&self, msg: Packet<T>) -> (r: Forward<T>)
        requires
            self.wf(),
            self.knows(next_hop(msg.header())),
        ensures
            self.forwards(&msg, &r),
    {
        self.send_packet(msg)
    }

    /// Whether a packet can be handled: one for this node has used up its
    /// route, and any other names a neighbour as its next hop.
    pub open spec fn can_handle<T>(&self, msg: &Packet<T>) -> bool {
        if msg.des == self.id {
            msg.route@.len() == 0
        } else {
            msg.route@.len() > 0 && self.knows(msg.route@.last())
        }
    }

    /// Tells whether a packet can be handled.
    pub fn accepts<T>(&self, msg: &Packet<T>) -> (r: bool)
        requires
            self.wf(),
        ensures
            r == self.can_handle(msg),
    {
        if msg.des == self.id {
            msg.route.len() == 0
        } else {
            msg.route.len() > 0 && self.neighbours_map.contains_key(
                &msg.route[msg.route.len() - 1],
            )
        }
    }

    /// What handling `msg` makes of the node and what it answers: a packet
    /// for this node is processed and answered; any other leaves the node
    /// as it is and goes on to the neighbour that is its next hop.
    pub open spec fn handled<T: PacketData>(
        before: &Node,
        after: &Node,
        msg: &Packet<T>,
        r: &Handled<T, T::Reply>,
    ) -> bool {
        if msg.des == before.id {
            r matches Handled::Replied(reply) && T::processed(msg, before, after, reply)
        } else {
            *after == *before && (r matches Handled::Forwarded { hop, .. } && before.forwards(
                msg,
                hop,
            ))
        }
    }

    /// Handles a packet, given whether the driver is to be told of a
    /// forwarded one.
    pub fn route_packet<T: PacketData>(&mut self, msg: Packet<T>, notify: bool) -> (r: Handled<
        T,
        T::Reply,
    >)
        requires
            old(self).wf(),
            old(self).can_handle(&msg),
        ensures
            final(self).wf(),
            Node::handled(old(self), final(self), &msg, &r),
            r matches Handled::Forwarded { notify: told, .. } ==> told == notify,
    {
        if msg.des == self.id {
            let reply = T::process(&msg, self);
            Handled::Replied(reply)
        } else {
            Handled::Forwarded { hop: self.fwd(msg), notify }
        }
    }

    /// Handles a packet as `route_packet` does; one forwarded packet in a
    /// hundred, drawn at random, is reported to the driver.
    pub fn handle_packet<T: PacketData>(&mut self, msg: Packet<T>) -> (r: Handled<T, T::Reply>)
        requires
            old(self).wf(),
            old(self).can_handle(&msg),
        ensures
            final(self).wf(),
            Node::handled(old(self), final(self), &msg, &r),
    {
        let notify = one_in(SENT_SAMPLE);
        self.route_packet(msg, notify)
    }
}

} // verus!
