use vstd::prelude::*;

verus! {

/// A network message from a client to this node.
pub enum OutEvent {
    /// A message to relay to the peer `dst_id`.
    Relay { dst_id: Vec<u8>, data: Vec<u8> },
    /// A request for the peers of the network.
    GetNetworkState,
}

/// A network message from this node to a client.
pub enum InEvent {
    /// A message relayed from the peer `src_id`.
    Relay { src_id: Vec<u8>, data: Vec<u8> },
    /// The peers of the network.
    NetworkState { state: Vec<Vec<u8>> },
}

impl Default for InEvent {
    /// An empty network state.
    fn default() -> (r: Self)
        ensures
            r matches InEvent::NetworkState { state } && state@.len() == 0,
    {
        InEvent::NetworkState { state: Vec::new() }
    }
}

} // verus!
