use vstd::prelude::*;

verus! {

/// The three states of a transport-level connection.
#[derive(Clone, Copy, Debug, PartialEq, Eq, Structural)]
pub enum ConnectionState {
    Disconnected,
    Connecting,
    Connected,
}

/// The name a state is reported by to scripts.
pub open spec fn state_label(s: ConnectionState) -> Seq<char> {
    match s {
        ConnectionState::Disconnected => "disconnected"@,
        ConnectionState::Connecting => "connecting"@,
        ConnectionState::Connected => "connected"@,
    }
}

impl ConnectionState {
    /// The state's name: `disconnected`, `connecting` or `connected`.
    pub fn label(&self) -> (r: &'static str)
        ensures
            r@ == state_label(*self),
    {
        match self {
            ConnectionState::Disconnected => "disconnected",
            ConnectionState::Connecting => "connecting",
            ConnectionState::Connected => "connected",
        }
    }
}

/// The three states are reported as `disconnected`, `connecting` and
/// `connected`, and no two alike.
pub proof fn lemma_state_label_law()
    ensures
        state_label(ConnectionState::Disconnected) == "disconnected"@,
        state_label(ConnectionState::Connecting) == "connecting"@,
        state_label(ConnectionState::Connected) == "connected"@,
        state_label(ConnectionState::Disconnected) != state_label(ConnectionState::Connecting),
        state_label(ConnectionState::Disconnected) != state_label(ConnectionState::Connected),
        state_label(ConnectionState::Connecting) != state_label(ConnectionState::Connected),
{
    reveal_strlit("disconnected");
    reveal_strlit("connecting");
    reveal_strlit("connected");
    assert("disconnected"@.len() != "connecting"@.len());
    assert("disconnected"@.len() != "connected"@.len());
    assert("connecting"@.len() != "connected"@.len());
}

/// Connection bookkeeping shared by the client.
pub struct Session {
    pub state: ConnectionState,
}

impl Session {
    /// A fresh session starts disconnected.
    pub fn new() -> (s: Self)
        ensures
            s.state == ConnectionState::Disconnected,
    {
        Session { state: ConnectionState::Disconnected }
    }

    pub fn reset(&mut self)
        ensures
            final(self).state == ConnectionState::Disconnected,
    {
        self.state = ConnectionState::Disconnected;
    }

    pub fn on_connecting(&mut self)
        ensures
            final(self).state == ConnectionState::Connecting,
    {
        self.state = ConnectionState::Connecting;
    }

    pub fn on_connected(&mut self)
        ensures
            final(self).state == ConnectionState::Connected,
    {
        self.state = ConnectionState::Connected;
    }

    pub fn on_disconnected(&mut self)
        ensures
            final(self).state == ConnectionState::Disconnected,
    {
        self.state = ConnectionState::Disconnected;
    }
}

} // verus!
