use gclient::transport::{
    failure_event, on_command, on_read, socket_addr, CmdPoll, CmdStep, IoFailure, IoStep,
    RawNetEvent, TransportCmd, WsRead,
};

#[test]
fn reads_become_steps() {
    match on_read(WsRead::Binary(vec![1, 2])) {
        IoStep::Deliver(RawNetEvent::Message(d)) => assert_eq!(d, vec![1, 2]),
        _ => panic!("binary frames are delivered"),
    }
    match on_read(WsRead::Ping(vec![9])) {
        IoStep::Pong(p) => assert_eq!(p, vec![9]),
        _ => panic!("pings are answered"),
    }
    match on_read(WsRead::Close) {
        IoStep::Stop(RawNetEvent::Disconnected(r)) => assert_eq!(r, "server_close"),
        _ => panic!("a close frame ends the loop"),
    }
    match on_read(WsRead::ResetWithoutClosingHandshake) {
        IoStep::Stop(RawNetEvent::Disconnected(r)) => assert_eq!(r, "connection_reset"),
        _ => panic!("a reset ends the loop"),
    }
    match on_read(WsRead::ConnectionClosed) {
        IoStep::Stop(RawNetEvent::Disconnected(r)) => assert_eq!(r, "connection_closed"),
        _ => panic!("a closed connection ends the loop"),
    }
    match on_read(WsRead::Failed(String::from("boom"))) {
        IoStep::Stop(RawNetEvent::Error(r)) => assert_eq!(r, "read error: boom"),
        _ => panic!("read errors end the loop"),
    }
    assert!(matches!(on_read(WsRead::WouldBlock), IoStep::Idle));
    assert!(matches!(on_read(WsRead::Other), IoStep::Idle));
}

#[test]
fn commands_become_steps() {
    match on_command(CmdPoll::Cmd(TransportCmd::Send(vec![4]))) {
        CmdStep::SendFrame(f) => assert_eq!(f, vec![4]),
        _ => panic!("frames are sent"),
    }
    match on_command(CmdPoll::Cmd(TransportCmd::Close)) {
        CmdStep::CloseAndStop(RawNetEvent::Disconnected(r)) => assert_eq!(r, "client_close"),
        _ => panic!("close requests end the loop"),
    }
    assert!(matches!(on_command(CmdPoll::Empty), CmdStep::Read));
    assert!(matches!(on_command(CmdPoll::Dropped), CmdStep::CloseSilently));
}

#[test]
fn failure_texts() {
    match failure_event(IoFailure::TcpConnect(String::from("refused"))) {
        RawNetEvent::Error(m) => assert_eq!(m, "TCP connect failed: refused"),
        other => panic!("unexpected {:?}", other),
    }
    match failure_event(IoFailure::Handshake(String::from("bad"))) {
        RawNetEvent::Error(m) => assert_eq!(m, "WS handshake failed: bad"),
        other => panic!("unexpected {:?}", other),
    }
}

#[test]
fn socket_addresses_of_urls() {
    assert_eq!(socket_addr("ws://127.0.0.1:8080/ws").unwrap(), "127.0.0.1:8080");
    assert_eq!(socket_addr("ws://example.com/ws").unwrap(), "example.com:80");
    assert_eq!(socket_addr("ws://example.com:80/").unwrap(), "example.com:80");
    match socket_addr("not a url") {
        Err(RawNetEvent::Error(m)) => assert!(m.starts_with("invalid URL: ")),
        other => panic!("unexpected {:?}", other),
    }
}
