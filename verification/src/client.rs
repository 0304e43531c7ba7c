use vstd::prelude::*;
use vstd::slice::slice_to_vec;

use crate::codec::{spec_decode, PacketCodec};
use crate::event::NetEvent;
use crate::session::{ConnectionState, Session};
use crate::text::{decimal, push_decimal};
use crate::transport::RawNetEvent;

verus! {

/// Reconnect interval of a new client, in milliseconds.
pub const DEFAULT_RECONNECT_INTERVAL_MS: u64 = 3000;

/// Reconnect attempts of a new client.
pub const DEFAULT_RECONNECT_MAX_RETRIES: u32 = 5;

/// The shortest reconnect interval a client accepts, in milliseconds.
pub const MIN_RECONNECT_INTERVAL_MS: u64 = 1000;

/// The abstract state of a client: everything its decisions depend on.
#[verifier::ext_equal]
pub struct ClientView {
    /// Whether the client holds a live transport.
    pub transport_open: bool,
    pub state: ConnectionState,
    /// Frames waiting for a connection, oldest first.
    pub pending: Seq<Seq<u8>>,
    pub last_url: Seq<char>,
    pub reconnect_enabled: bool,
    pub reconnect_interval_ms: u64,
    pub reconnect_max_retries: u32,
    pub reconnect_attempt: u32,
    /// When the transport last reported a lost connection.
    pub last_disconnect_ms: Option<u64>,
}

/// The byte contents of a list of frames.
pub open spec fn frames_view(v: Seq<Vec<u8>>) -> Seq<Seq<u8>> {
    v.map_values(|p: Vec<u8>| p@)
}

/// The WebSocket URL of a server.
pub open spec fn ws_url(host: Seq<char>, port: u16, path: Seq<char>) -> Seq<char> {
    "ws://"@ + host + ":"@ + decimal(port as nat) + path
}

/// A new client: disconnected, nothing queued, no server yet, and automatic
/// reconnection on (every 3 seconds, at most 5 attempts).
pub open spec fn initial_view() -> ClientView {
    ClientView {
        transport_open: false,
        state: ConnectionState::Disconnected,
        pending: Seq::empty(),
        last_url: Seq::empty(),
        reconnect_enabled: true,
        reconnect_interval_ms: DEFAULT_RECONNECT_INTERVAL_MS,
        reconnect_max_retries: DEFAULT_RECONNECT_MAX_RETRIES,
        reconnect_attempt: 0,
        last_disconnect_ms: None,
    }
}

/// An explicit disconnect: reconnecting is switched off, the transport is
/// dropped and the queue is emptied.
pub open spec fn after_disconnect(v: ClientView) -> ClientView {
    ClientView {
        reconnect_enabled: false,
        transport_open: false,
        state: ConnectionState::Disconnected,
        pending: Seq::empty(),
        ..v
    }
}

/// A connect: any existing transport is first disconnected as above.
pub open spec fn after_connect(v: ClientView, url: Seq<char>) -> ClientView {
    let w = if v.transport_open {
        after_disconnect(v)
    } else {
        v
    };
    ClientView {
        state: ConnectionState::Connecting,
        reconnect_attempt: 0,
        last_url: url,
        transport_open: true,
        ..w
    }
}

/// New reconnect settings; the interval is floored at one second.
pub open spec fn after_set_reconnect(
    v: ClientView,
    enabled: bool,
    interval_ms: u64,
    max_retries: u32,
) -> ClientView {
    ClientView {
        reconnect_enabled: enabled,
        reconnect_interval_ms: if interval_ms < MIN_RECONNECT_INTERVAL_MS {
            MIN_RECONNECT_INTERVAL_MS
        } else {
            interval_ms
        },
        reconnect_max_retries: max_retries,
        ..v
    }
}

/// A frame goes straight to the transport only when connected with a live
/// transport; otherwise it is queued.
pub open spec fn send_transmits(v: ClientView) -> bool {
    v.state == ConnectionState::Connected && v.transport_open
}

pub open spec fn after_send(v: ClientView, data: Seq<u8>) -> ClientView {
    if send_transmits(v) {
        v
    } else {
        ClientView { pending: v.pending.push(data), ..v }
    }
}

/// A frame that the transport refused goes back to the end of the queue.
pub open spec fn after_requeue(v: ClientView, data: Seq<u8>) -> ClientView {
    ClientView { pending: v.pending.push(data), ..v }
}

/// A reconnect is due when reconnecting is on, no transport is held, attempts
/// remain, a server was connected to before, and the reconnect interval has
/// passed since the transport reported the connection lost.
pub open spec fn reconnect_fires(v: ClientView, now_ms: u64) -> bool {
    &&& v.reconnect_enabled
    &&& !v.transport_open
    &&& v.reconnect_attempt < v.reconnect_max_retries
    &&& v.last_url.len() > 0
    &&& match v.last_disconnect_ms {
        Some(t) => now_ms >= t && now_ms - t >= v.reconnect_interval_ms,
        None => false,
    }
}

pub open spec fn after_reconnect(v: ClientView) -> ClientView {
    ClientView {
        reconnect_attempt: (v.reconnect_attempt + 1) as u32,
        state: ConnectionState::Connecting,
        transport_open: true,
        last_disconnect_ms: None,
        ..v
    }
}

/// The transport reports a connection: the attempt counter is reset and the
/// whole queue is handed out.
pub open spec fn after_transport_connected(v: ClientView) -> ClientView {
    ClientView {
        state: ConnectionState::Connected,
        reconnect_attempt: 0,
        pending: Seq::empty(),
        ..v
    }
}

/// The state after the transport reports an event at time `now_ms`.
pub open spec fn after_transport_event(v: ClientView, e: RawNetEvent, now_ms: u64) -> ClientView {
    match e {
        RawNetEvent::Connected => after_transport_connected(v),
        RawNetEvent::Disconnected(_) => after_transport_lost(v, now_ms),
        RawNetEvent::Error(_) => after_transport_lost(v, now_ms),
        RawNetEvent::Message(_) => v,
    }
}

/// The state after the transport reports a batch of events, in order, at
/// time `now_ms`.
pub open spec fn after_transport_events(v: ClientView, es: Seq<RawNetEvent>, now_ms: u64) -> ClientView
    decreases es.len(),
{
    if es.len() == 0 {
        v
    } else {
        after_transport_event(after_transport_events(v, es.drop_last(), now_ms), es.last(), now_ms)
    }
}

/// The frames handed to the transport on connection: the queue, in order, if a
/// transport is held; none (the queue is dropped) otherwise.
pub open spec fn connected_flush(v: ClientView) -> Seq<Seq<u8>> {
    if v.transport_open {
        v.pending
    } else {
        Seq::empty()
    }
}

/// The transport reports the connection lost or failed.
pub open spec fn after_transport_lost(v: ClientView, now_ms: u64) -> ClientView {
    ClientView {
        state: ConnectionState::Disconnected,
        transport_open: false,
        last_disconnect_ms: Some(now_ms),
        ..v
    }
}

/// After flushing `packets`, of which the first `sent` were accepted: the
/// refused frame and every frame after it go back to the end of the queue, in
/// order.
pub open spec fn after_finish_flush(v: ClientView, packets: Seq<Seq<u8>>, sent: int) -> ClientView {
    ClientView { pending: v.pending + packets.subrange(sent, packets.len() as int), ..v }
}

/// The event a received frame becomes: an error frame an `Error` event, a
/// success frame a `Message` event with its body, an undecodable frame none.
pub open spec fn frame_event(data: Seq<u8>, ev: Option<NetEvent>) -> bool {
    match spec_decode(data) {
        Ok((k, e, b)) => if e != 0 {
            ev matches Some(NetEvent::Error { key, err_code }) && key == k && err_code == e
        } else {
            ev matches Some(NetEvent::Message { key, body }) && key == k && body@ == b
        },
        Err(_) => ev is None,
    }
}

/// What the driver must do after the client handled a transport event.
pub struct PollOutcome {
    /// The event to report, if any.
    pub event: Option<NetEvent>,
    /// Whether the driver must drop its transport.
    pub release_transport: bool,
    /// Frames to send now, in order; report the result with `finish_flush`.
    pub flush: Vec<Vec<u8>>,
}

/// What the driver must do for a connect.
pub struct ConnectPlan {
    /// Close and drop the transport held so far.
    pub close_existing: bool,
    /// Open a transport to this URL.
    pub url: String,
}

/// The decision side of the network client: connection state, send queue and
/// reconnect policy. A driver owns the transport, performs what the client's
/// methods hand back and reports what the transport says.
pub struct NetClient {
    transport_open: bool,
    session: Session,
    pending_packets: Vec<Vec<u8>>,
    last_url: String,
    reconnect_enabled: bool,
    reconnect_interval_ms: u64,
    reconnect_max_retries: u32,
    reconnect_attempt: u32,
    last_disconnect_ms: Option<u64>,
}

impl View for NetClient {
    type V = ClientView;

    closed spec fn view(&self) -> ClientView {
        ClientView {
            transport_open: self.transport_open,
            state: self.session.state,
            pending: frames_view(self.pending_packets@),
            last_url: self.last_url@,
            reconnect_enabled: self.reconnect_enabled,
            reconnect_interval_ms: self.reconnect_interval_ms,
            reconnect_max_retries: self.reconnect_max_retries,
            reconnect_attempt: self.reconnect_attempt,
            last_disconnect_ms: self.last_disconnect_ms,
        }
    }
}

impl NetClient {
    pub fn new() -> (c: Self)
        ensures
            c@ == initial_view(),
    {
        let c = NetClient {
            transport_open: false,
            session: Session::new(),
            pending_packets: Vec::new(),
            last_url: String::new(),
            reconnect_enabled: true,
            reconnect_interval_ms: DEFAULT_RECONNECT_INTERVAL_MS,
            reconnect_max_retries: DEFAULT_RECONNECT_MAX_RETRIES,
            reconnect_attempt: 0,
            last_disconnect_ms: None,
        };
        assert(c@ =~= initial_view());
        c
    }

    /// Starts a connection to `ws://{host}:{port}{path}`, first disconnecting
    /// (which clears the queue and switches reconnecting off) if a transport is
    /// held.
    pub fn connect(&mut self, host: &str, port: u16, path: &str) -> (plan: ConnectPlan)
        ensures
            plan.close_existing == old(self)@.transport_open,
            plan.url@ == ws_url(host@, port, path@),
            final(self)@ == after_connect(old(self)@, ws_url(host@, port, path@)),
    {
        let close_existing = self.transport_open;
        if close_existing {
            self.disconnect();
        }
        self.session.reset();
        self.session.on_connecting();
        self.reconnect_attempt = 0;
        let mut url = String::new();
        url.append("ws://");
        url.append(host);
        url.append(":");
        push_decimal(&mut url, port as u64);
        url.append(path);
        assert(url@ =~= ws_url(host@, port, path@));
        self.last_url = url.clone();
        self.transport_open = true;
        assert(self@ =~= after_connect(old(self)@, ws_url(host@, port, path@)));
        ConnectPlan { close_existing, url }
    }

    /// Drops the connection: reconnecting is switched off and queued frames are
    /// discarded. Returns whether a transport was held, which the driver must
    /// then close and drop.
    pub fn disconnect(&mut self) -> (had_transport: bool)
        ensures
            had_transport == old(self)@.transport_open,
            final(self)@ == after_disconnect(old(self)@),
    {
        let had_transport = self.transport_open;
        self.reconnect_enabled = false;
        self.transport_open = false;
        self.session.on_disconnected();
        self.pending_packets.clear();
        assert(self@ =~= after_disconnect(old(self)@));
        had_transport
    }

    /// Sets the reconnect policy; intervals under one second count as one
    /// second.
    pub fn set_reconnect(&mut self, enabled: bool, interval_ms: u64, max_retries: u32)
        ensures
            final(self)@ == after_set_reconnect(old(self)@, enabled, interval_ms, max_retries),
    {
        self.reconnect_enabled = enabled;
        self.reconnect_interval_ms = if interval_ms < MIN_RECONNECT_INTERVAL_MS {
            MIN_RECONNECT_INTERVAL_MS
        } else {
            interval_ms
        };
        self.reconnect_max_retries = max_retries;
        assert(self@ =~= after_set_reconnect(old(self)@, enabled, interval_ms, max_retries));
    }

    pub fn connection_state(&self) -> (s: ConnectionState)
        ensures
            s == self@.state,
    {
        self.session.state
    }

    /// Sends a pre-encoded frame: while not connected (or without a transport)
    /// it is queued and `None` comes back; otherwise the frame comes back for
    /// the driver to hand to the transport, and to `requeue` if refused.
    pub fn send_raw(&mut self, data: Vec<u8>) -> (to_send: Option<Vec<u8>>)
        ensures
            final(self)@ == after_send(old(self)@, data@),
            to_send is Some <==> send_transmits(old(self)@),
            to_send matches Some(d) ==> d@ == data@,
    {
        if self.session.state == ConnectionState::Disconnected || self.session.state
            == ConnectionState::Connecting || !self.transport_open {
            let ghost old_pending = self.pending_packets@;
            let ghost d = data@;
            self.pending_packets.push(data);
            assert(frames_view(self.pending_packets@) =~= frames_view(old_pending).push(d));
            assert(self@ =~= after_send(old(self)@, d));
            None
        } else {
            Some(data)
        }
    }

    /// Puts back a frame the transport refused, at the end of the queue.
    pub fn requeue(&mut self, data: Vec<u8>)
        ensures
            final(self)@ == after_requeue(old(self)@, data@),
    {
        let ghost old_pending = self.pending_packets@;
        let ghost d = data@;
        self.pending_packets.push(data);
        assert(frames_view(self.pending_packets@) =~= frames_view(old_pending).push(d));
        assert(self@ =~= after_requeue(old(self)@, d));
    }

    /// The reconnect step of a poll at time `now_ms`: when a reconnect is due,
    /// counts the attempt and hands back the URL to open.
    pub fn poll_reconnect(&mut self, now_ms: u64) -> (url: Option<String>)
        ensures
            url is Some <==> reconnect_fires(old(self)@, now_ms),
            url matches Some(u) ==> u@ == old(self)@.last_url,
            final(self)@ == if reconnect_fires(old(self)@, now_ms) {
                after_reconnect(old(self)@)
            } else {
                old(self)@
            },
    {
        let due = match self.last_disconnect_ms {
            Some(t) => now_ms >= t && now_ms - t >= self.reconnect_interval_ms,
            None => false,
        };
        if self.reconnect_enabled && !self.transport_open && self.reconnect_attempt
            < self.reconnect_max_retries && !self.last_url.as_str().is_empty() && due {
            self.reconnect_attempt = self.reconnect_attempt + 1;
            self.session.on_connecting();
            self.transport_open = true;
            self.last_disconnect_ms = None;
            assert(self@ =~= after_reconnect(old(self)@));
            Some(self.last_url.clone())
        } else {
            None
        }
    }

    /// Handles one event reported by the transport at time `now_ms`.
    pub fn handle_transport_event(&mut self, raw: RawNetEvent, now_ms: u64) -> (out: PollOutcome)
        ensures
            final(self)@ == after_transport_event(old(self)@, raw, now_ms),
            match raw {
                RawNetEvent::Connected => {
                    &&& final(self)@ == after_transport_connected(old(self)@)
                    &&& frames_view(out.flush@) == connected_flush(old(self)@)
                    &&& !out.release_transport
                    &&& out.event matches Some(NetEvent::Connected)
                },
                RawNetEvent::Disconnected(reason) => {
                    &&& final(self)@ == after_transport_lost(old(self)@, now_ms)
                    &&& out.flush@.len() == 0
                    &&& out.release_transport
                    &&& out.event matches Some(NetEvent::Disconnected { reason: r })
                    &&& r@ == reason@
                },
                RawNetEvent::Error(message) => {
                    &&& final(self)@ == after_transport_lost(old(self)@, now_ms)
                    &&& out.flush@.len() == 0
                    &&& out.release_transport
                    &&& out.event matches Some(NetEvent::Disconnected { reason: r })
                    &&& r@ == message@
                },
                RawNetEvent::Message(data) => {
                    &&& final(self)@ == old(self)@
                    &&& out.flush@.len() == 0
                    &&& !out.release_transport
                    &&& frame_event(data@, out.event)
                },
            },
    {
        match raw {
            RawNetEvent::Connected => {
                self.session.on_connected();
                self.reconnect_attempt = 0;
                let mut packets: Vec<Vec<u8>> = Vec::new();
                std::mem::swap(&mut packets, &mut self.pending_packets);
                let flush = if self.transport_open {
                    packets
                } else {
                    Vec::new()
                };
                assert(frames_view(self.pending_packets@) =~= Seq::<Seq<u8>>::empty());
                assert(frames_view(flush@) =~= connected_flush(old(self)@));
                assert(self@ =~= after_transport_connected(old(self)@));
                PollOutcome { event: Some(NetEvent::Connected), release_transport: false, flush }
            },
            RawNetEvent::Disconnected(reason) => {
                self.lose_transport(now_ms);
                PollOutcome {
                    event: Some(NetEvent::Disconnected { reason }),
                    release_transport: true,
                    flush: Vec::new(),
                }
            },
            RawNetEvent::Error(message) => {
                self.lose_transport(now_ms);
                PollOutcome {
                    event: Some(NetEvent::Disconnected { reason: message }),
                    release_transport: true,
                    flush: Vec::new(),
                }
            },
            RawNetEvent::Message(data) => {
                let event = match PacketCodec::decode(data.as_slice()) {
                    Ok((key, err, body)) => {
                        if err != 0 {
                            Some(NetEvent::Error { key, err_code: err })
                        } else {
                            Some(NetEvent::Message { key, body: slice_to_vec(body) })
                        }
                    },
                    Err(_) => None,
                };
                PollOutcome { event, release_transport: false, flush: Vec::new() }
            },
        }
    }

    fn lose_transport(&mut self, now_ms: u64)
        ensures
            final(self)@ == after_transport_lost(old(self)@, now_ms),
    {
        self.session.on_disconnected();
        self.transport_open = false;
        self.last_disconnect_ms = Some(now_ms);
        assert(self@ =~= after_transport_lost(old(self)@, now_ms));
    }

    /// Reports how a flush went: the transport accepted the first `sent` of
    /// `packets`. The refused frame and all frames after it go back to the
    /// queue, in order, so no frame is lost.
    pub fn finish_flush(&mut self, packets: Vec<Vec<u8>>, sent: usize)
        requires
            sent <= packets@.len(),
        ensures
            final(self)@ == after_finish_flush(old(self)@, frames_view(packets@), sent as int),
    {
        let ghost all = frames_view(packets@);
        let mut i: usize = sent;
        while i < packets.len()
            invariant
                sent <= i <= packets@.len(),
                all == frames_view(packets@),
                self@ == (ClientView {
                    pending: old(self)@.pending + all.subrange(sent as int, i as int),
                    ..old(self)@
                }),
            decreases packets@.len() - i,
        {
            let frame = packets[i].clone();
            self.requeue(frame);
            assert(all.subrange(sent as int, i + 1) =~= all.subrange(sent as int, i as int).push(
                all[i as int],
            ));
            assert(old(self)@.pending + all.subrange(sent as int, i + 1) =~= (old(self)@.pending
                + all.subrange(sent as int, i as int)).push(all[i as int]));
            i = i + 1;
        }
        assert(self@ =~= after_finish_flush(old(self)@, all, sent as int));
    }
}

/// Setting the reconnect policy sets exactly the three settings it is given
/// (an interval under one second becomes one second) and nothing else; with
/// reconnecting switched off, no reconnect is ever due.
pub proof fn lemma_set_reconnect_law(v: ClientView, enabled: bool, interval_ms: u64, max_retries: u32)
    ensures
        ({
            let w = after_set_reconnect(v, enabled, interval_ms, max_retries);
            &&& w.reconnect_enabled == enabled
            &&& w.reconnect_max_retries == max_retries
            &&& interval_ms >= 1000 ==> w.reconnect_interval_ms == interval_ms
            &&& interval_ms < 1000 ==> w.reconnect_interval_ms == 1000
            &&& w.transport_open == v.transport_open && w.state == v.state && w.pending == v.pending
            &&& w.last_url == v.last_url && w.reconnect_attempt == v.reconnect_attempt
            &&& w.last_disconnect_ms == v.last_disconnect_ms
            &&& !enabled ==> forall|now: u64| !#[trigger] reconnect_fires(w, now)
        }),
{
}

/// A reconnect is due exactly when reconnecting is on, no transport is held,
/// fewer attempts than the limit were made, a server was connected to, and
/// the connection was lost at least the interval ago. A reconnect opens a
/// transport, counts one attempt and waits for the connection; once the
/// transport connects, frames go straight to it and the frames queued
/// meanwhile are handed to it in order.
pub proof fn lemma_reconnect_law(v: ClientView, now_ms: u64)
    ensures
        reconnect_fires(v, now_ms) <==> (v.reconnect_enabled && !v.transport_open
            && v.reconnect_attempt < v.reconnect_max_retries && v.last_url.len() > 0 && (
        v.last_disconnect_ms matches Some(t) && now_ms >= t && now_ms - t
            >= v.reconnect_interval_ms)),
        reconnect_fires(v, now_ms) ==> ({
            let w = after_reconnect(v);
            &&& w.transport_open
            &&& w.state == ConnectionState::Connecting
            &&& w.reconnect_attempt == v.reconnect_attempt + 1
            &&& w.last_disconnect_ms is None
            &&& w.pending == v.pending && w.last_url == v.last_url
            &&& w.reconnect_enabled == v.reconnect_enabled
            &&& w.reconnect_interval_ms == v.reconnect_interval_ms
            &&& w.reconnect_max_retries == v.reconnect_max_retries
            &&& send_transmits(after_transport_connected(w))
            &&& connected_flush(w) == v.pending
        }),
{
}

/// A connect opens a transport to the URL `ws://{host}:{port}{path}`, waits
/// for the connection and resets the attempt counter; when a transport was
/// held, it is first dropped with the queue and reconnecting is switched off;
/// otherwise the queue and the policy stay.
pub proof fn lemma_connect_law(v: ClientView, host: Seq<char>, port: u16, path: Seq<char>)
    ensures
        ws_url(host, port, path) == "ws://"@ + host + ":"@ + decimal(port as nat) + path,
        ({
            let w = after_connect(v, ws_url(host, port, path));
            &&& w.transport_open && w.state == ConnectionState::Connecting
            &&& w.reconnect_attempt == 0 && w.last_url == ws_url(host, port, path)
            &&& w.reconnect_interval_ms == v.reconnect_interval_ms
            &&& w.reconnect_max_retries == v.reconnect_max_retries
            &&& w.last_disconnect_ms == v.last_disconnect_ms
            &&& v.transport_open ==> w.pending.len() == 0 && !w.reconnect_enabled
            &&& !v.transport_open ==> w.pending == v.pending && w.reconnect_enabled
                == v.reconnect_enabled
        }),
{
}

/// The transport's reports: a connection leaves the client connected with
/// the attempt counter reset and hands over the queue in order (all of it
/// when a transport is held); a loss leaves it disconnected without
/// transport, the loss time recorded and the queue kept; a message changes
/// nothing. A disconnect switches reconnecting off, drops the transport and
/// the queue. A send queues the frame at the end unless connected with a
/// transport. After a flush in which the first `sent` frames were accepted,
/// the rest go back to the end of the queue in order.
pub proof fn lemma_transport_reports_law(
    v: ClientView,
    now_ms: u64,
    data: Seq<u8>,
    packets: Seq<Seq<u8>>,
    sent: int,
)
    requires
        0 <= sent <= packets.len(),
    ensures
        after_transport_connected(v).state == ConnectionState::Connected,
        after_transport_connected(v).reconnect_attempt == 0,
        after_transport_connected(v).pending.len() == 0,
        after_transport_connected(v).transport_open == v.transport_open,
        v.transport_open ==> connected_flush(v) == v.pending,
        after_transport_lost(v, now_ms).state == ConnectionState::Disconnected,
        !after_transport_lost(v, now_ms).transport_open,
        after_transport_lost(v, now_ms).last_disconnect_ms == Some(now_ms),
        after_transport_lost(v, now_ms).pending == v.pending,
        after_transport_lost(v, now_ms).reconnect_attempt == v.reconnect_attempt,
        !after_disconnect(v).reconnect_enabled && !after_disconnect(v).transport_open,
        after_disconnect(v).state == ConnectionState::Disconnected,
        after_disconnect(v).pending.len() == 0,
        send_transmits(v) <==> (v.state == ConnectionState::Connected && v.transport_open),
        send_transmits(v) ==> after_send(v, data) == v,
        !send_transmits(v) ==> after_send(v, data).pending == v.pending.push(data),
        after_finish_flush(v, packets, sent).pending == v.pending + packets.subrange(
            sent,
            packets.len() as int,
        ),
{
}

/// A received success frame is reported as a message with its key and
/// exactly its body; an error frame as an error with its key and code.
pub proof fn lemma_frame_event_law(key: u16, err: u16, body: Seq<u8>, trailing: Seq<u8>, ev: Option<NetEvent>)
    requires
        body.len() <= u32::MAX,
    ensures
        frame_event(crate::codec::response_frame(key, 0, body) + trailing, ev) ==> (ev matches Some(
            NetEvent::Message { key: k, body: b },
        ) && k == key && b@ == body),
        err != 0 && frame_event(crate::codec::error_frame(key, err) + trailing, ev) ==> (ev matches Some(
            NetEvent::Error { key: k, err_code },
        ) && k == key && err_code == err),
{
    crate::codec::lemma_decode_response_frame(key, body, trailing);
    if err != 0 {
        crate::codec::lemma_decode_error_frame(key, err, trailing);
    }
}

/// Sending a series of frames, one after another.
pub open spec fn send_all(v: ClientView, frames: Seq<Seq<u8>>) -> ClientView
    decreases frames.len(),
{
    if frames.len() == 0 {
        v
    } else {
        after_send(send_all(v, frames.drop_last()), frames.last())
    }
}

/// While the client is not connected with a live transport, every frame sent
/// is queued behind the ones already waiting, in order, and nothing else
/// changes.
pub proof fn lemma_frames_queue_while_not_connected(v: ClientView, frames: Seq<Seq<u8>>)
    requires
        !send_transmits(v),
    ensures
        send_all(v, frames) == (ClientView { pending: v.pending + frames, ..v }),
    decreases frames.len(),
{
    if frames.len() == 0 {
        assert(v.pending + frames =~= v.pending);
        assert(send_all(v, frames) =~= (ClientView { pending: v.pending + frames, ..v }));
    } else {
        lemma_frames_queue_while_not_connected(v, frames.drop_last());
        assert(v.pending + frames.drop_last() + seq![frames.last()] =~= v.pending + frames);
        assert(send_all(v, frames) =~= (ClientView { pending: v.pending + frames, ..v }));
    }
}

/// Frames sent while connecting reach the transport, all of them and in the
/// order they were sent, as soon as the transport reports the connection;
/// the queue is then empty.
pub proof fn lemma_queued_frames_delivered_on_connect(v: ClientView, frames: Seq<Seq<u8>>)
    requires
        v.state != ConnectionState::Connected,
        v.transport_open,
    ensures
        connected_flush(send_all(v, frames)) == v.pending + frames,
        after_transport_connected(send_all(v, frames)).pending.len() == 0,
        after_transport_connected(send_all(v, frames)).state == ConnectionState::Connected,
{
    lemma_frames_queue_while_not_connected(v, frames);
}

/// While connected with a live transport, sending never queues anything.
pub proof fn lemma_connected_sends_bypass_queue(v: ClientView, frames: Seq<Seq<u8>>)
    requires
        send_transmits(v),
    ensures
        send_all(v, frames) == v,
    decreases frames.len(),
{
    if frames.len() > 0 {
        lemma_connected_sends_bypass_queue(v, frames.drop_last());
    }
}

/// An explicit disconnect stops automatic reconnection, at any time, and
/// leaves nothing queued.
pub proof fn lemma_disconnect_stops_reconnect(v: ClientView, now_ms: u64)
    ensures
        !reconnect_fires(after_disconnect(v), now_ms),
        after_disconnect(v).pending.len() == 0,
        after_disconnect(v).state == ConnectionState::Disconnected,
{
}

/// Once the transport reports the connection lost at time `t`, with
/// reconnecting on, attempts left and a known server, a reconnect is due
/// exactly when the reconnect interval has passed since `t`.
pub proof fn lemma_reconnect_schedule(v: ClientView, t: u64, now_ms: u64)
    requires
        v.reconnect_enabled,
        v.reconnect_attempt < v.reconnect_max_retries,
        v.last_url.len() > 0,
    ensures
        reconnect_fires(after_transport_lost(v, t), now_ms) <==> (now_ms >= t && now_ms - t
            >= v.reconnect_interval_ms),
{
}

/// After a batch of transport events, the last event that concerns the
/// connection decides the state: a connection leaves the client connected
/// with the attempt counter reset and the queue handed out; a loss leaves it
/// disconnected, without transport, with the loss time recorded. A batch of
/// messages only changes nothing.
pub proof fn lemma_transport_batch(v: ClientView, es: Seq<RawNetEvent>, now_ms: u64)
    ensures
        (forall|i: int| 0 <= i < es.len() ==> (#[trigger] es[i]) is Message) ==> after_transport_events(
            v,
            es,
            now_ms,
        ) == v,
        forall|j: int|
            #![trigger es[j]]
            0 <= j < es.len() && !(es[j] is Message) && (forall|i: int|
                j < i < es.len() ==> (#[trigger] es[i]) is Message) ==> {
                let w = after_transport_events(v, es, now_ms);
                &&& es[j] is Connected ==> w.state == ConnectionState::Connected
                    && w.reconnect_attempt == 0 && w.pending.len() == 0
                &&& !(es[j] is Connected) ==> w.state == ConnectionState::Disconnected
                    && !w.transport_open && w.last_disconnect_ms == Some(now_ms)
            },
    decreases es.len(),
{
    if es.len() > 0 {
        let init = es.drop_last();
        lemma_transport_batch(v, init, now_ms);
        assert forall|i: int| 0 <= i < init.len() implies init[i] == es[i] by {}
        if !(es.last() is Message) {
            assert forall|j: int|
                #![trigger es[j]]
                0 <= j < es.len() && !(es[j] is Message) && (forall|i: int|
                    j < i < es.len() ==> (#[trigger] es[i]) is Message) implies j == es.len() - 1 by {
                if j < es.len() - 1 {
                    assert(es[es.len() - 1] is Message);
                }
            }
        } else {
            assert forall|j: int|
                #![trigger es[j]]
                0 <= j < es.len() && !(es[j] is Message) && (forall|i: int|
                    j < i < es.len() ==> (#[trigger] es[i]) is Message) implies j < init.len() && (
                forall|i: int| j < i < init.len() ==> (#[trigger] init[i]) is Message) by {
                assert forall|i: int| j < i < init.len() implies (#[trigger] init[i]) is Message by {
                    assert(init[i] == es[i]);
                }
            }
        }
    }
}

/// The number of reconnects a series of steps performs: a step `(true, t)`
/// is a poll at time `t`, a step `(false, t)` the transport reporting the
/// connection lost at time `t`.
pub open spec fn reconnect_count(v: ClientView, steps: Seq<(bool, u64)>) -> nat
    decreases steps.len(),
{
    if steps.len() == 0 {
        0
    } else {
        let w = run_steps(v, steps.drop_last());
        let (poll, t) = steps.last();
        reconnect_count(v, steps.drop_last()) + if poll && reconnect_fires(w, t) {
            1nat
        } else {
            0nat
        }
    }
}

/// The state after a series of polls and connection losses (see
/// `reconnect_count`).
pub open spec fn run_steps(v: ClientView, steps: Seq<(bool, u64)>) -> ClientView
    decreases steps.len(),
{
    if steps.len() == 0 {
        v
    } else {
        let w = run_steps(v, steps.drop_last());
        let (poll, t) = steps.last();
        if poll {
            if reconnect_fires(w, t) {
                after_reconnect(w)
            } else {
                w
            }
        } else {
            after_transport_lost(w, t)
        }
    }
}

/// However many times the client polls and loses its connection, without a
/// connection succeeding and without a new connect, disconnect or policy
/// change, automatic reconnection opens at most as many transports as
/// attempts remain; every attempt is counted.
pub proof fn lemma_reconnect_bound(v: ClientView, steps: Seq<(bool, u64)>)
    requires
        v.reconnect_attempt <= v.reconnect_max_retries,
    ensures
        run_steps(v, steps).reconnect_attempt == v.reconnect_attempt + reconnect_count(v, steps),
        reconnect_count(v, steps) <= v.reconnect_max_retries - v.reconnect_attempt,
        run_steps(v, steps).reconnect_max_retries == v.reconnect_max_retries,
    decreases steps.len(),
{
    if steps.len() > 0 {
        lemma_reconnect_bound(v, steps.drop_last());
    }
}

/// Once the retry limit is reached, no reconnect is attempted any more, at any
/// time, until a connection succeeds or a new connect resets the count.
pub proof fn lemma_retry_limit_stops_reconnect(v: ClientView, now_ms: u64, t: u64)
    requires
        v.reconnect_attempt >= v.reconnect_max_retries,
    ensures
        !reconnect_fires(v, now_ms),
        !reconnect_fires(after_transport_lost(v, t), now_ms),
        after_transport_connected(v).reconnect_attempt == 0,
{
}

/// No transition but a change of the reconnect policy lets the attempt counter
/// exceed the retry limit: each reconnect counts one attempt, and only while
/// attempts remain.
pub proof fn lemma_attempts_within_limit(v: ClientView, now_ms: u64, data: Seq<u8>, url: Seq<char>)
    requires
        v.reconnect_attempt <= v.reconnect_max_retries,
    ensures
        reconnect_fires(v, now_ms) ==> after_reconnect(v).reconnect_attempt == v.reconnect_attempt
            + 1 && after_reconnect(v).reconnect_attempt <= v.reconnect_max_retries,
        after_transport_lost(v, now_ms).reconnect_attempt <= v.reconnect_max_retries,
        after_transport_connected(v).reconnect_attempt == 0,
        after_connect(v, url).reconnect_attempt == 0,
        after_disconnect(v).reconnect_attempt <= v.reconnect_max_retries,
        after_send(v, data).reconnect_attempt <= v.reconnect_max_retries,
{
}

} // verus!
