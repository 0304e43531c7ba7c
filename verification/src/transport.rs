use vstd::prelude::*;

use crate::text::{decimal, push_decimal};

verus! {

/// Commands from the client to the I/O side of the transport.
pub enum TransportCmd {
    Send(Vec<u8>),
    Close,
}

/// What the I/O side of the transport reports.
#[derive(Debug)]
pub enum RawNetEvent {
    Connected,
    Message(Vec<u8>),
    Disconnected(String),
    Error(String),
}

/// What one read from the WebSocket produced.
pub enum WsRead {
    Binary(Vec<u8>),
    Ping(Vec<u8>),
    /// The server sent a close frame.
    Close,
    /// A text, pong or other frame.
    Other,
    /// No data yet (the read timed out or would block).
    WouldBlock,
    /// The peer reset the connection without a closing handshake.
    ResetWithoutClosingHandshake,
    /// The connection is closed.
    ConnectionClosed,
    /// Any other read error, with its text.
    Failed(String),
}

/// What the I/O loop does after a read.
pub enum IoStep {
    /// Report the event and keep going.
    Deliver(RawNetEvent),
    /// Answer a ping with a pong carrying the same payload, then flush.
    Pong(Vec<u8>),
    /// Nothing to do.
    Idle,
    /// Report the event and end the loop.
    Stop(RawNetEvent),
}

/// What went wrong on the I/O side, with the error's text.
pub enum IoFailure {
    InvalidUrl(String),
    TcpConnect(String),
    BadRequest(String),
    Handshake(String),
    Send(String),
    Flush(String),
    Read(String),
}

/// The text reported for a failure.
pub open spec fn failure_text(f: IoFailure) -> Seq<char> {
    match f {
        IoFailure::InvalidUrl(e) => "invalid URL: "@ + e@,
        IoFailure::TcpConnect(e) => "TCP connect failed: "@ + e@,
        IoFailure::BadRequest(e) => "bad request: "@ + e@,
        IoFailure::Handshake(e) => "WS handshake failed: "@ + e@,
        IoFailure::Send(e) => "send failed: "@ + e@,
        IoFailure::Flush(e) => "flush failed: "@ + e@,
        IoFailure::Read(e) => "read error: "@ + e@,
    }
}

/// The event reporting a failure: an `Error` with the failure's text.
pub fn failure_event(f: IoFailure) -> (ev: RawNetEvent)
    ensures
        ev matches RawNetEvent::Error(m) && m@ == failure_text(f),
{
    let ghost g = f;
    let (prefix, detail) = match f {
        IoFailure::InvalidUrl(e) => ("invalid URL: ", e),
        IoFailure::TcpConnect(e) => ("TCP connect failed: ", e),
        IoFailure::BadRequest(e) => ("bad request: ", e),
        IoFailure::Handshake(e) => ("WS handshake failed: ", e),
        IoFailure::Send(e) => ("send failed: ", e),
        IoFailure::Flush(e) => ("flush failed: ", e),
        IoFailure::Read(e) => ("read error: ", e),
    };
    let mut m = String::new();
    m.append(prefix);
    m.append(detail.as_str());
    assert(m@ == failure_text(g));
    RawNetEvent::Error(m)
}

/// What the I/O loop does with a read: binary frames are delivered, pings
/// answered, a close frame, a reset or a closed connection end the loop with
/// a disconnection (`server_close`, `connection_reset`, `connection_closed`),
/// any other error ends it with a `read error`; everything else is ignored.
pub fn on_read(r: WsRead) -> (step: IoStep)
    ensures
        match r {
            WsRead::Binary(d) => step matches IoStep::Deliver(RawNetEvent::Message(m)) && m@ == d@,
            WsRead::Ping(p) => step matches IoStep::Pong(q) && q@ == p@,
            WsRead::Close => step matches IoStep::Stop(RawNetEvent::Disconnected(m)) && m@
                == "server_close"@,
            WsRead::ResetWithoutClosingHandshake => step matches IoStep::Stop(
                RawNetEvent::Disconnected(m),
            ) && m@ == "connection_reset"@,
            WsRead::ConnectionClosed => step matches IoStep::Stop(RawNetEvent::Disconnected(m))
                && m@ == "connection_closed"@,
            WsRead::Failed(e) => step matches IoStep::Stop(RawNetEvent::Error(m)) && m@
                == failure_text(IoFailure::Read(e)),
            WsRead::Other => step is Idle,
            WsRead::WouldBlock => step is Idle,
        },
{
    match r {
        WsRead::Binary(d) => IoStep::Deliver(RawNetEvent::Message(d)),
        WsRead::Ping(p) => IoStep::Pong(p),
        WsRead::Close => IoStep::Stop(RawNetEvent::Disconnected(String::from_str("server_close"))),
        WsRead::ResetWithoutClosingHandshake => IoStep::Stop(
            RawNetEvent::Disconnected(String::from_str("connection_reset")),
        ),
        WsRead::ConnectionClosed => IoStep::Stop(
            RawNetEvent::Disconnected(String::from_str("connection_closed")),
        ),
        WsRead::Failed(e) => IoStep::Stop(failure_event(IoFailure::Read(e))),
        WsRead::Other => IoStep::Idle,
        WsRead::WouldBlock => IoStep::Idle,
    }
}

/// Whether a step is one a read can give (see `on_read`): only messages are
/// delivered, and only a disconnection or an error ends the loop.
pub open spec fn read_step(s: IoStep) -> bool {
    match s {
        IoStep::Deliver(e) => e is Message,
        IoStep::Stop(e) => e is Disconnected || e is Error,
        _ => true,
    }
}

/// The events the I/O loop reports, after the connection itself, for a
/// series of steps: each delivered event in order, then the event of the
/// first step that ends the loop; no step after that one is taken.
pub open spec fn loop_events(steps: Seq<IoStep>) -> Seq<RawNetEvent>
    decreases steps.len(),
{
    if steps.len() == 0 {
        Seq::empty()
    } else {
        match steps[0] {
            IoStep::Deliver(e) => seq![e] + loop_events(steps.drop_first()),
            IoStep::Stop(e) => seq![e],
            _ => loop_events(steps.drop_first()),
        }
    }
}

/// Every read gives a step of that shape.
pub proof fn lemma_reads_give_read_steps(r: WsRead, step: IoStep)
    requires
        match r {
            WsRead::Binary(d) => step matches IoStep::Deliver(RawNetEvent::Message(m)) && m@ == d@,
            WsRead::Ping(p) => step matches IoStep::Pong(q) && q@ == p@,
            WsRead::Close => step matches IoStep::Stop(RawNetEvent::Disconnected(_)),
            WsRead::ResetWithoutClosingHandshake => step matches IoStep::Stop(
                RawNetEvent::Disconnected(_),
            ),
            WsRead::ConnectionClosed => step matches IoStep::Stop(RawNetEvent::Disconnected(_)),
            WsRead::Failed(_) => step matches IoStep::Stop(RawNetEvent::Error(_)),
            WsRead::Other => step is Idle,
            WsRead::WouldBlock => step is Idle,
        },
    ensures
        read_step(step),
{
}

/// Over a whole connection the I/O loop reports, after the connection, only
/// messages, and at most one disconnection or error, which is the last event
/// it reports.
pub proof fn lemma_loop_event_order(steps: Seq<IoStep>)
    requires
        forall|i: int| 0 <= i < steps.len() ==> read_step(#[trigger] steps[i]),
    ensures
        forall|j: int|
            0 <= j < loop_events(steps).len() && !(#[trigger] loop_events(steps)[j] is Message) ==> j
                == loop_events(steps).len() - 1,
        forall|j: int|
            0 <= j < loop_events(steps).len() ==> ((#[trigger] loop_events(steps)[j]) is Message
                || loop_events(steps)[j] is Disconnected || loop_events(steps)[j] is Error),
    decreases steps.len(),
{
    if steps.len() > 0 {
        let rest = steps.drop_first();
        assert forall|i: int| 0 <= i < rest.len() implies read_step(#[trigger] rest[i]) by {
            assert(rest[i] == steps[i + 1]);
        }
        lemma_loop_event_order(rest);
        assert(read_step(steps[0]));
        match steps[0] {
            IoStep::Deliver(e) => {
                let ev = loop_events(steps);
                assert(ev =~= seq![e] + loop_events(rest));
                assert forall|j: int| 0 < j < ev.len() implies ev[j] == loop_events(rest)[j - 1] by {}
            },
            _ => {},
        }
    }
}

/// What the command channel of the I/O loop yielded.
pub enum CmdPoll {
    Cmd(TransportCmd),
    /// No command is waiting.
    Empty,
    /// The client side of the channel is gone.
    Dropped,
}

/// What the I/O loop does with a command.
pub enum CmdStep {
    /// Send the frame, then flush; a failed send ends the loop.
    SendFrame(Vec<u8>),
    /// Close the WebSocket, report the disconnection and end the loop.
    CloseAndStop(RawNetEvent),
    /// Close the WebSocket and end the loop without reporting anything.
    CloseSilently,
    /// Go on to reading.
    Read,
}

/// The I/O loop's handling of the command channel: frames are sent, a close
/// request ends the loop reporting `client_close`, a dropped channel ends it
/// silently, an empty channel moves on to reading.
pub fn on_command(c: CmdPoll) -> (step: CmdStep)
    ensures
        match c {
            CmdPoll::Cmd(TransportCmd::Send(d)) => step matches CmdStep::SendFrame(f) && f@ == d@,
            CmdPoll::Cmd(TransportCmd::Close) => step matches CmdStep::CloseAndStop(
                RawNetEvent::Disconnected(m),
            ) && m@ == "client_close"@,
            CmdPoll::Empty => step is Read,
            CmdPoll::Dropped => step is CloseSilently,
        },
{
    match c {
        CmdPoll::Cmd(TransportCmd::Send(d)) => CmdStep::SendFrame(d),
        CmdPoll::Cmd(TransportCmd::Close) => CmdStep::CloseAndStop(
            RawNetEvent::Disconnected(String::from_str("client_close")),
        ),
        CmdPoll::Empty => CmdStep::Read,
        CmdPoll::Dropped => CmdStep::CloseSilently,
    }
}

/// The host and port that `url::Url` parses out of a URL (the port absent
/// when it is the scheme's default), or the parse error's text.
pub uninterp spec fn url_authority(s: Seq<char>) -> Result<(Option<Seq<char>>, Option<u16>), Seq<char>>;

/// `url::Url::parse`, reduced to the parsed URL's `host_str` and `port`; the
/// error is rendered with its `Display` form. Parsing depends on the text
/// alone.
#[verifier::external_body]
fn parse_url_authority(s: &str) -> (r: Result<(Option<String>, Option<u16>), String>)
    ensures
        match r {
            Ok((h, p)) => url_authority(s@) == Ok::<(Option<Seq<char>>, Option<u16>), Seq<char>>(
                (
                    match h {
                        Some(x) => Some(x@),
                        None => None,
                    },
                    p,
                ),
            ),
            Err(e) => url_authority(s@) == Err::<(Option<Seq<char>>, Option<u16>), Seq<char>>(e@),
        },
{
    match url::Url::parse(s) {
        Ok(u) => Ok((u.host_str().map(|h| h.to_string()), u.port())),
        Err(e) => Err(e.to_string()),
    }
}

/// The `host:port` address to open a TCP connection to for a WebSocket URL:
/// its host, else 127.0.0.1, and its port, else 80.
pub open spec fn socket_addr_of(host: Option<Seq<char>>, port: Option<u16>) -> Seq<char> {
    let h = match host {
        Some(h) => h,
        None => "127.0.0.1"@,
    };
    let p: u16 = match port {
        Some(p) => p,
        None => 80,
    };
    h + ":"@ + decimal(p as nat)
}

/// The TCP address for a WebSocket URL, or the failure event when the URL
/// does not parse.
pub fn socket_addr(url: &str) -> (r: Result<String, RawNetEvent>)
    ensures
        match r {
            Ok(a) => url_authority(url@) matches Ok((h, p)) && a@ == socket_addr_of(h, p),
            Err(ev) => url_authority(url@) matches Err(e) && ev matches RawNetEvent::Error(m) && m@
                == "invalid URL: "@ + e,
        },
{
    match parse_url_authority(url) {
        Ok((host, port)) => {
            let mut a = match host {
                Some(h) => h,
                None => String::from_str("127.0.0.1"),
            };
            let p: u16 = match port {
                Some(p) => p,
                None => 80,
            };
            a.append(":");
            push_decimal(&mut a, p as u64);
            Ok(a)
        },
        Err(e) => Err(failure_event(IoFailure::InvalidUrl(e))),
    }
}

/// Each failure is reported as its own prefix followed by the error's text:
/// "invalid URL: ", "TCP connect failed: ", "bad request: ", "WS handshake
/// failed: ", "send failed: ", "flush failed: ", "read error: ".
pub proof fn lemma_failure_text_law(e: String)
    ensures
        failure_text(IoFailure::InvalidUrl(e)) == "invalid URL: "@ + e@,
        failure_text(IoFailure::TcpConnect(e)) == "TCP connect failed: "@ + e@,
        failure_text(IoFailure::BadRequest(e)) == "bad request: "@ + e@,
        failure_text(IoFailure::Handshake(e)) == "WS handshake failed: "@ + e@,
        failure_text(IoFailure::Send(e)) == "send failed: "@ + e@,
        failure_text(IoFailure::Flush(e)) == "flush failed: "@ + e@,
        failure_text(IoFailure::Read(e)) == "read error: "@ + e@,
{
}

/// The TCP address of a URL is its host, or 127.0.0.1 without one, a colon,
/// and its port in decimal, or 80 without one.
pub proof fn lemma_socket_addr_law(host: Option<Seq<char>>, port: Option<u16>)
    ensures
        socket_addr_of(host, port) == (match host {
            Some(h) => h,
            None => "127.0.0.1"@,
        }) + ":"@ + decimal(
            (match port {
                Some(p) => p,
                None => 80u16,
            }) as nat,
        ),
{
}

} // verus!
