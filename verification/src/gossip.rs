use vstd::prelude::*;

verus! {

/// The peer-discovery message nodes gossip to each other: the sender's peer
/// id and its known peers as (peer id, address) text pairs.  The transport
/// that carries it lives outside the library and has no feedback path into
/// the engine.
pub struct GossipMessage {
    pub sender: String,
    pub known_peers: Vec<(String, String)>,
}

} // verus!
