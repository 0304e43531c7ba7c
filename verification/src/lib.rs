//! Client-side networking core of the game client: the binary frame codecs,
//! the connection state machine that drives a WebSocket transport, the
//! protocol metadata registry and the configuration-table store.

pub mod client;
pub mod codec;
pub mod config;
pub mod dispatcher;
pub mod event;
pub mod netcore;
pub mod order;
pub mod reflect;
pub mod registry;
pub mod schema;
pub mod session;
pub mod text;
pub mod transport;
pub mod wire;
