use gclient::client::NetClient;
use gclient::event::NetEvent;
use gclient::session::{ConnectionState, Session};
use gclient::transport::RawNetEvent;

#[test]
fn session_transitions() {
    let mut s = Session::new();
    assert_eq!(s.state, ConnectionState::Disconnected);
    s.on_connecting();
    assert_eq!(s.state, ConnectionState::Connecting);
    s.on_connected();
    assert_eq!(s.state, ConnectionState::Connected);
    s.on_disconnected();
    assert_eq!(s.state, ConnectionState::Disconnected);
    s.on_connected();
    s.reset();
    assert_eq!(s.state, ConnectionState::Disconnected);
}

#[test]
fn state_labels() {
    assert_eq!(ConnectionState::Disconnected.label(), "disconnected");
    assert_eq!(ConnectionState::Connecting.label(), "connecting");
    assert_eq!(ConnectionState::Connected.label(), "connected");
}

#[test]
fn connect_builds_ws_url() {
    let mut c = NetClient::new();
    assert_eq!(c.connection_state(), ConnectionState::Disconnected);
    let plan = c.connect("127.0.0.1", 8080, "/ws");
    assert!(!plan.close_existing);
    assert_eq!(plan.url, "ws://127.0.0.1:8080/ws");
    assert_eq!(c.connection_state(), ConnectionState::Connecting);
}

#[test]
fn frames_queue_until_connected_then_flush_in_order() {
    let mut c = NetClient::new();
    c.connect("host", 1, "");
    assert!(c.send_raw(vec![1]).is_none());
    assert!(c.send_raw(vec![2, 2]).is_none());
    let out = c.handle_transport_event(RawNetEvent::Connected, 10);
    assert!(matches!(out.event, Some(NetEvent::Connected)));
    assert!(!out.release_transport);
    assert_eq!(out.flush, vec![vec![1], vec![2, 2]]);
    assert_eq!(c.connection_state(), ConnectionState::Connected);
    // once connected, frames go straight to the transport
    assert_eq!(c.send_raw(vec![3]), Some(vec![3]));
}

#[test]
fn refused_flush_keeps_refused_and_later_frames() {
    let mut c = NetClient::new();
    c.connect("host", 1, "");
    c.send_raw(vec![1]);
    c.send_raw(vec![2]);
    c.send_raw(vec![3]);
    let out = c.handle_transport_event(RawNetEvent::Connected, 0);
    // the transport accepted the first frame and refused the second
    c.finish_flush(out.flush, 1);
    let again = c.handle_transport_event(RawNetEvent::Connected, 0);
    assert_eq!(again.flush, vec![vec![2], vec![3]]);
}

#[test]
fn refused_send_is_requeued() {
    let mut c = NetClient::new();
    c.connect("host", 1, "");
    c.handle_transport_event(RawNetEvent::Connected, 0);
    let frame = c.send_raw(vec![7, 7]).unwrap();
    c.requeue(frame);
    let out = c.handle_transport_event(RawNetEvent::Connected, 0);
    assert_eq!(out.flush, vec![vec![7, 7]]);
}

#[test]
fn messages_become_events() {
    let mut c = NetClient::new();
    let ok = c.handle_transport_event(RawNetEvent::Message(vec![2, 0, 0, 0, 2, 0, 0, 0, 8, 9]), 0);
    match ok.event {
        Some(NetEvent::Message { key, body }) => {
            assert_eq!(key, 2);
            assert_eq!(body, vec![8, 9]);
        }
        other => panic!("expected Message, got {:?}", other),
    }
    let err = c.handle_transport_event(RawNetEvent::Message(vec![2, 0, 42, 0]), 0);
    match err.event {
        Some(NetEvent::Error { key, err_code }) => {
            assert_eq!(key, 2);
            assert_eq!(err_code, 42);
        }
        other => panic!("expected Error, got {:?}", other),
    }
    let bad = c.handle_transport_event(RawNetEvent::Message(vec![2, 0]), 0);
    assert!(bad.event.is_none());
}

#[test]
fn lost_connection_then_reconnect_after_interval() {
    let mut c = NetClient::new();
    c.set_reconnect(true, 3000, 2);
    c.connect("h", 9, "/p");
    let lost = c.handle_transport_event(RawNetEvent::Disconnected(String::from("server_close")), 1000);
    assert!(lost.release_transport);
    match lost.event {
        Some(NetEvent::Disconnected { reason }) => assert_eq!(reason, "server_close"),
        other => panic!("expected Disconnected, got {:?}", other),
    }
    assert_eq!(c.connection_state(), ConnectionState::Disconnected);
    assert!(c.poll_reconnect(3999).is_none());
    assert_eq!(c.poll_reconnect(4000), Some(String::from("ws://h:9/p")));
    assert_eq!(c.connection_state(), ConnectionState::Connecting);
    // a second loss and a second attempt; then the limit of two is reached
    c.handle_transport_event(RawNetEvent::Error(String::from("read error: x")), 5000);
    assert!(c.poll_reconnect(8000).is_some());
    c.handle_transport_event(RawNetEvent::Error(String::from("read error: x")), 9000);
    assert!(c.poll_reconnect(100000).is_none());
}

#[test]
fn connected_event_resets_attempts() {
    let mut c = NetClient::new();
    c.set_reconnect(true, 1000, 1);
    c.connect("h", 9, "");
    c.handle_transport_event(RawNetEvent::Disconnected(String::from("x")), 0);
    assert!(c.poll_reconnect(1000).is_some());
    c.handle_transport_event(RawNetEvent::Connected, 1500);
    c.handle_transport_event(RawNetEvent::Disconnected(String::from("x")), 2000);
    assert!(c.poll_reconnect(3000).is_some());
}

#[test]
fn explicit_disconnect_clears_queue_and_stops_reconnect() {
    let mut c = NetClient::new();
    c.set_reconnect(true, 1000, 5);
    c.connect("h", 9, "");
    c.send_raw(vec![1]);
    assert!(c.disconnect());
    assert!(!c.disconnect());
    assert!(c.poll_reconnect(u64::MAX).is_none());
    let plan = c.connect("h", 9, "");
    assert!(!plan.close_existing);
    let out = c.handle_transport_event(RawNetEvent::Connected, 0);
    assert!(out.flush.is_empty());
}

#[test]
fn reconnecting_while_connected_closes_the_old_transport() {
    let mut c = NetClient::new();
    c.connect("a", 1, "");
    c.send_raw(vec![5]);
    let plan = c.connect("b", 2, "/x");
    assert!(plan.close_existing);
    assert_eq!(plan.url, "ws://b:2/x");
    let out = c.handle_transport_event(RawNetEvent::Connected, 0);
    assert!(out.flush.is_empty(), "connecting anew drops the queue");
}

#[test]
fn reconnect_interval_is_at_least_one_second() {
    let mut c = NetClient::new();
    c.set_reconnect(true, 10, 3);
    c.connect("h", 9, "");
    c.handle_transport_event(RawNetEvent::Disconnected(String::from("x")), 0);
    assert!(c.poll_reconnect(999).is_none());
    assert!(c.poll_reconnect(1000).is_some());
}

#[test]
fn reconnect_never_fires_without_a_server() {
    let mut c = NetClient::new();
    c.set_reconnect(true, 1000, 3);
    assert!(c.poll_reconnect(1_000_000).is_none());
}

#[test]
fn reconnect_is_on_by_default() {
    let mut c = NetClient::new();
    c.connect("h", 9, "/p");
    for attempt in 0..5u64 {
        let t = attempt * 10_000;
        c.handle_transport_event(RawNetEvent::Disconnected(String::from("x")), t);
        assert!(c.poll_reconnect(t + 2999).is_none());
        assert_eq!(c.poll_reconnect(t + 3000), Some(String::from("ws://h:9/p")));
    }
    c.handle_transport_event(RawNetEvent::Disconnected(String::from("x")), 100_000);
    assert!(c.poll_reconnect(1_000_000).is_none());
    assert_eq!(c.connection_state(), ConnectionState::Disconnected);
}
