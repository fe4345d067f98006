//! Generic protocol bits for custom protocols on top of the table.

use super::base::DHTNode;
use vstd::prelude::*;

verus! {

/// Payload in the request.
pub enum RequestPayload<TId> {
    Ping,
    FindNode(TId),
}

/// Request structure.
pub struct Request<TId> {
    pub caller: DHTNode,
    pub request_id: TId,
    pub payload: RequestPayload<TId>,
}

/// Payload in the response.
pub enum ResponsePayload<TAddr> {
    NodesFound(Vec<DHTNode>),
    RouteFound(TAddr),
    NoResult,
}

/// Response structure.
pub struct Response<TId, TAddr> {
    pub request: Request<TId>,
    pub responder: DHTNode,
    pub payload: ResponsePayload<TAddr>,
}

} // verus!
