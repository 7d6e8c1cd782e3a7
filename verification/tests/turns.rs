use peanut::client::ClientState;
use peanut::event::{ReadResult, Readiness, WriteResult};
use peanut::http::ContentType;
use peanut::server::Server;
use peanut::turn::{Fault, Turn, TurnAction, TurnEvent, TurnStage};

const READABLE: Readiness = Readiness {
    readable: true,
    writable: false,
    read_closed: false,
    write_closed: false,
    error: false,
};

const BOTH: Readiness = Readiness { writable: true, ..READABLE };

const UPGRADE: &[u8] = b"GET /chat HTTP/1.1\r\nConnection: Upgrade\r\nSec-WebSocket-Key: dGhlIHNhbXBsZSBub25jZQ==\r\n\r\n";

/// A server with a connection in slot 0 and another in slot 1.
fn two() -> Server {
    let mut server = Server::default();
    server.accept();
    server.accept();
    server
}

/// Begins a turn on slot 0 and lets `bytes` arrive, after which there are none for now.
fn arrive(server: &mut Server, ready: Readiness, bytes: &[u8]) -> (Turn, TurnAction) {
    let (mut turn, action) = server.begin_turn(0, ready);
    assert!(matches!(action, TurnAction::Read));
    let action = server.take_turn(&mut turn, TurnEvent::Read(ReadResult::Bytes(bytes.to_vec())));
    assert!(matches!(action, TurnAction::Read));
    let action = server.take_turn(&mut turn, TurnEvent::Read(ReadResult::WouldBlock));
    (turn, action)
}

/// Upgrades the connection of slot 0.
fn upgrade(server: &mut Server) {
    let (mut turn, _) = arrive(server, READABLE, UPGRADE);
    server.take_turn(&mut turn, TurnEvent::Replied);
    assert!(matches!(
        server.take_turn(&mut turn, TurnEvent::Connected(true)),
        TurnAction::Done
    ));
}

#[test]
fn upgrade_takes_its_turn() {
    let mut server = two();
    let (mut turn, action) = arrive(&mut server, BOTH, UPGRADE);
    match action {
        TurnAction::Reply(reply) => {
            assert!(reply.ends_with("Accept: s3pPLMBiTxaQ9kYGzzhZRbK+xOo=\r\n\r\n"))
        }
        _ => panic!(),
    }
    assert_eq!(turn.stage, TurnStage::Replying);
    assert_eq!(server.state_of(0), ClientState::PreHandshake);
    let action = server.take_turn(&mut turn, TurnEvent::Replied);
    assert!(matches!(action, TurnAction::Connect));
    assert_eq!(server.state_of(0), ClientState::PreHandshake);
    let action = server.take_turn(&mut turn, TurnEvent::Connected(true));
    assert!(matches!(action, TurnAction::Write));
    assert_eq!(server.state_of(0), ClientState::PostHandshake);
    let action = server.take_turn(&mut turn, TurnEvent::Written(WriteResult::Written));
    assert!(matches!(action, TurnAction::Done));
    assert_eq!(turn, Turn { id: 0, ready: BOTH, stage: TurnStage::Over });
    assert_eq!(server.state_of(1), ClientState::PreHandshake);
}

#[test]
fn refused_connection_is_gone() {
    let mut server = two();
    let (mut turn, _) = arrive(&mut server, BOTH, UPGRADE);
    server.take_turn(&mut turn, TurnEvent::Replied);
    let action = server.take_turn(&mut turn, TurnEvent::Connected(false));
    assert!(matches!(action, TurnAction::Deregister));
    assert_eq!(turn.stage, TurnStage::Over);
    assert!(!server.has_client(0));
    assert!(server.has_client(1));
}

#[test]
fn messages_take_their_turn() {
    let mut server = two();
    upgrade(&mut server);
    let frame = [0x82, 0x82, 0, 0, 0, 0, b'h', b'i'];
    let (mut turn, action) = arrive(&mut server, BOTH, &[frame, frame].concat());
    assert!(matches!(action, TurnAction::Message));
    assert_eq!(server.client_mut(0).read(2), b"hi".to_vec());
    let action = server.take_turn(&mut turn, TurnEvent::Messaged(true));
    assert!(matches!(action, TurnAction::Message));
    assert_eq!(server.client_mut(0).read(2), b"hi".to_vec());
    let action = server.take_turn(&mut turn, TurnEvent::Messaged(true));
    assert!(matches!(action, TurnAction::Write));
    let action = server.take_turn(&mut turn, TurnEvent::Written(WriteResult::Failed));
    assert!(matches!(action, TurnAction::Drop));
    assert!(!server.has_client(0));
}

#[test]
fn message_that_fails_ends_the_connection() {
    let mut server = two();
    upgrade(&mut server);
    let (mut turn, action) = arrive(&mut server, BOTH, &[0x82, 0x80, 1, 2, 3, 4]);
    assert!(matches!(action, TurnAction::Message));
    let action = server.take_turn(&mut turn, TurnEvent::Messaged(false));
    assert!(matches!(action, TurnAction::Deregister));
    assert!(!server.has_client(0));
}

#[test]
fn close_ends_the_connection() {
    let mut server = two();
    upgrade(&mut server);
    let (_, action) = arrive(&mut server, BOTH, &[0x88, 0x80]);
    assert!(matches!(action, TurnAction::Deregister));
    assert!(!server.has_client(0));
}

#[test]
fn part_of_a_frame_ends_the_turn() {
    let mut server = two();
    upgrade(&mut server);
    let (turn, action) = arrive(&mut server, READABLE, &[0x82, 0x85, 1]);
    assert!(matches!(action, TurnAction::Done));
    assert_eq!(turn.stage, TurnStage::Over);
    assert!(server.has_client(0));
}

#[test]
fn requests_take_their_turn() {
    let mut server = two();
    server.resource("/", "index.html");
    let (mut turn, action) = arrive(&mut server, BOTH, b"GET / HTTP/1.1\r\n\r\n");
    match action {
        TurnAction::HandOut { path, content_type } => {
            assert_eq!(path, "index.html");
            assert_eq!(content_type, ContentType::Html);
        }
        _ => panic!(),
    }
    assert!(matches!(
        server.take_turn(&mut turn, TurnEvent::Responded(true)),
        TurnAction::Done
    ));
    let (mut turn, action) = arrive(&mut server, BOTH, b"GET /x HTTP/1.1\r\n\r\n");
    match action {
        TurnAction::Respond(response) => assert_eq!(response, "HTTP/1.1 404 Not Found\r\n\r\n"),
        _ => panic!(),
    }
    assert!(matches!(
        server.take_turn(&mut turn, TurnEvent::Responded(false)),
        TurnAction::Deregister
    ));
    assert!(!server.has_client(0));
}

#[test]
fn text_that_is_none_is_ignored() {
    let mut server = two();
    let (_, action) = arrive(&mut server, BOTH, &[0xff, 0xfe]);
    assert!(matches!(action, TurnAction::Done));
    assert_eq!(server.client_mut(0).room(), 1024);
}

#[test]
fn end_of_stream_ends_the_turn() {
    let mut server = two();
    let (mut turn, _) = server.begin_turn(0, BOTH);
    let action = server.take_turn(&mut turn, TurnEvent::Read(ReadResult::Bytes(Vec::new())));
    assert!(matches!(action, TurnAction::Deregister));
    assert!(!server.has_client(0));
    let closed = Readiness { readable: false, read_closed: true, ..READABLE };
    let (turn, action) = server.begin_turn(1, closed);
    assert!(matches!(action, TurnAction::Drop));
    assert_eq!(turn.stage, TurnStage::Over);
    assert!(!server.has_client(1));
}

#[test]
fn faults_stop_the_server() {
    let no_key: &[u8] = b"GET / HTTP/1.1\r\nConnection: Upgrade\r\n\r\n";
    for (request, fault) in [(no_key, Fault::NoKey), (b"GET", Fault::NoPath)] {
        let mut server = two();
        match arrive(&mut server, BOTH, request) {
            (turn, TurnAction::Stop(found)) => {
                assert_eq!(found, fault);
                assert_eq!(turn.stage, TurnStage::Over);
            }
            _ => panic!(),
        }
    }
    let frames = [
        ([0x02, 0x80], Fault::Continuation),
        ([0x81, 0x80], Fault::UnknownOpcode),
        ([0x82, 0xfe], Fault::LongPayload),
        ([0x82, 0xff], Fault::LongPayload),
    ];
    for (head, fault) in frames {
        let mut server = two();
        upgrade(&mut server);
        match arrive(&mut server, BOTH, &head) {
            (_, TurnAction::Stop(found)) => assert_eq!(found, fault),
            _ => panic!(),
        }
    }
}
