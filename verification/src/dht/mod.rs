//! Kademlia-style distributed hash table: identifiers, node tables and the
//! service that a node builds on them.

pub use self::base::DHTNode;
pub use self::base::DHTNodeView;
pub use self::base::GenericId;
pub use self::knodetable::GenericNodeTable;
pub use self::knodetable::KBucket;
pub use self::knodetable::KNodeTable;
pub use self::service::GenDHT;

pub mod base;
pub mod knodetable;
pub mod model;
pub mod protocol;
pub mod service;
