use vstd::prelude::*;

verus! {

/// What the transport layer reports to the game scripts.
#[derive(Clone, Debug)]
pub enum NetEvent {
    /// The WebSocket is connected.
    Connected,
    /// The connection was closed, failed or could not be established.
    Disconnected { reason: String },
    /// Success frame: key and raw protobuf body bytes (no deserialization).
    Message { key: u16, body: Vec<u8> },
    /// Error frame: key and error code (no body).
    Error { key: u16, err_code: u16 },
    /// A frame handed through unchanged by the dispatcher: key, error code and
    /// body bytes as they were framed.
    RawMessage { key: u16, err: u16, body: Vec<u8> },
}

} // verus!
