//! Named peer-to-peer signalling channels: the bookkeeping between script
//! calls, the per-frame tick, and the transport that carries the traffic.
//!
//! `hub` holds the state of every channel (callbacks, outgoing queues,
//! disconnect requests, peer registries) and the operations on it, each
//! stated over the plain-value model `hub::HubModel`. `routing` computes
//! peer transitions and the deliveries of a queue; `peer` reads and writes
//! peer identifiers; `laws` states what holds across operations.

mod channel_map;
pub mod hub;
pub mod laws;
pub mod lua_type;
pub mod peer;
pub mod routing;

pub use hub::{
    check_connect, Callbacks, ChannelHub, ConnectError, ScriptCall, SendError, TickReport,
    SIGNALING_BASE,
};
pub use lua_type::LuaType;
pub use peer::{peer_text, Recipient, BROADCAST};
pub use routing::{
    peer_transitions, peers_absent_from, route, Delivery, Outgoing, PeerEvent, Routed,
};
