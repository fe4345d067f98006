//! Building blocks of a simulated peer-to-peer overlay: identifiers under the
//! XOR metric, a Kademlia node table, source-routed packets and the decision
//! logic of the node and driver actors. Every function here is verified; the
//! actor runtime that moves the messages lives outside this library.

pub mod dht;
pub mod graph;
pub mod node;
pub mod packet;
pub mod world;
