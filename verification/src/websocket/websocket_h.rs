use vstd::prelude::*;

verus! {

/// A message of the websocket interface: an event name and its data.
pub struct SocketMessage {
    pub event: String,
    pub data: String,
}

} // verus!
