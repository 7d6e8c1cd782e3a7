use peanut::client::{ClientState, DataStep};
use peanut::http::ContentType;
use peanut::server::{content_type_of, Served, Server, MAX_CLIENTS};

const UPGRADE: &str = "GET /chat HTTP/1.1\r\nConnection: Upgrade\r\nSec-WebSocket-Key: dGhlIHNhbXBsZSBub25jZQ==\r\n\r\n";

/// A server that serves `request` on its first connection.
fn serve(server: &mut Server, request: &[u8]) -> Served {
    let id = server.accept().unwrap();
    server.client_mut(id).receive(request);
    let served = server.serve_content(id);
    assert_eq!(server.client_mut(id).room(), 1024);
    assert_eq!(server.state_of(id), ClientState::PreHandshake);
    server.remove(id);
    served
}

#[test]
fn new_server_has_no_connections() {
    let mut server = Server::default();
    for id in 0..MAX_CLIENTS {
        assert!(!server.has_client(id));
    }
    assert!(!server.has_client(MAX_CLIENTS));
    assert!(!server.has_client(usize::MAX));
    let mut iter = server.clients_iter_mut();
    assert!(iter.next(&mut server).is_none());
}

#[test]
fn first_free_slot_is_given() {
    let mut server = Server::default();
    assert_eq!(server.accept(), Some(0));
    assert_eq!(server.accept(), Some(1));
    assert_eq!(server.accept(), Some(2));
    server.remove(1);
    assert!(!server.has_client(1));
    assert_eq!(server.accept(), Some(1));
    assert_eq!(server.accept(), Some(3));
    assert_eq!(server.client_mut(3).id(), 3);
}

#[test]
fn slots_run_out() {
    let mut server = Server::default();
    for id in 0..MAX_CLIENTS {
        assert_eq!(server.accept(), Some(id));
    }
    assert_eq!(server.accept(), None);
    server.remove(1023);
    server.remove(77);
    assert_eq!(server.accept(), Some(77));
    assert_eq!(server.accept(), Some(1023));
    assert_eq!(server.accept(), None);
}

#[test]
fn upgraded_connections_are_gone_through_by_slot() {
    let mut server = Server::default();
    for _ in 0..6 {
        server.accept();
    }
    server.remove(2);
    for id in [5, 1, 3] {
        server.client_mut(id).complete_handshake();
    }
    let mut iter = server.clients_iter_mut();
    let mut seen = Vec::new();
    while let Some(client) = iter.next(&mut server) {
        seen.push(client.id());
        assert_eq!(client.send(1, b"x"), Ok(()));
    }
    assert_eq!(seen, vec![1, 3, 5]);
    assert!(iter.next(&mut server).is_none());
    assert_eq!(server.client_mut(3).flush(), vec![0x82, 1, 120]);
    assert_eq!(server.client_mut(0).flush(), Vec::<u8>::new());
}

#[test]
fn last_slot_is_gone_through() {
    let mut server = Server::default();
    for _ in 0..MAX_CLIENTS {
        server.accept();
    }
    server.client_mut(1023).complete_handshake();
    let mut iter = server.clients_iter_mut();
    assert_eq!(iter.next(&mut server).map(|client| client.id()), Some(1023));
    assert!(iter.next(&mut server).is_none());
}

#[test]
fn content_types() {
    assert_eq!(content_type_of("www/index.html"), Some(ContentType::Html));
    assert_eq!(content_type_of("app.js"), Some(ContentType::Js));
    assert_eq!(content_type_of("a.html.js"), Some(ContentType::Js));
    assert_eq!(content_type_of("style.css"), None);
    assert_eq!(content_type_of("a.HTML"), None);
    assert_eq!(content_type_of("html"), None);
    assert_eq!(content_type_of(""), None);
}

#[test]
fn resources_are_handed_out() {
    let mut server = Server::default();
    server.resource("/", "www/index.html");
    server.resource("/app.js", "www/old.js");
    server.resource("/app.js", "www/new.js");
    match serve(&mut server, b"GET / HTTP/1.1\r\nHost: x\r\n\r\n") {
        Served::File { path, content_type } => {
            assert_eq!(path, "www/index.html");
            assert_eq!(content_type, ContentType::Html);
        }
        _ => panic!(),
    }
    match serve(&mut server, b"POST /app.js HTTP/1.1\r\n\r\n") {
        Served::File { path, content_type } => {
            assert_eq!(path, "www/new.js");
            assert_eq!(content_type, ContentType::Js);
        }
        _ => panic!(),
    }
}

#[test]
fn unknown_urls_are_not_found() {
    let mut server = Server::default();
    server.resource("/", "www/index.html");
    match serve(&mut server, b"GET /index.html HTTP/1.1\r\n\r\n") {
        Served::NotFound(response) => assert_eq!(response, "HTTP/1.1 404 Not Found\r\n\r\n"),
        _ => panic!(),
    }
}

#[test]
fn upgrade_is_answered() {
    let mut server = Server::default();
    server.resource("/chat", "chat.html");
    match serve(&mut server, UPGRADE.as_bytes()) {
        Served::Upgrade(reply) => assert_eq!(
            reply,
            "HTTP/1.1 101 Switching Protocols\r\nUpgrade: websocket\r\nConnection: Upgrade\r\nSec-WebSocket-Accept: s3pPLMBiTxaQ9kYGzzhZRbK+xOo=\r\n\r\n"
        ),
        _ => panic!(),
    }
}

#[test]
fn requests_that_cannot_be_answered() {
    let mut server = Server::default();
    assert!(matches!(
        serve(&mut server, b"GET / HTTP/1.1\r\nConnection: Upgrade\r\n\r\n"),
        Served::NoKey
    ));
    assert!(matches!(serve(&mut server, b"GET"), Served::NoPath));
    assert!(matches!(serve(&mut server, b""), Served::NoPath));
    assert!(matches!(serve(&mut server, b"GET / \xff"), Served::Ignored));
    assert!(matches!(serve(&mut server, &[0xc3]), Served::Ignored));
}

#[test]
fn text_beyond_ascii_is_read() {
    let mut server = Server::default();
    server.resource("/grüße", "www/g.html");
    assert!(matches!(
        serve(&mut server, "GET /grüße HTTP/1.1\r\n\r\n".as_bytes()),
        Served::File { .. }
    ));
    assert!(matches!(
        serve(&mut server, "GET /grüsse HTTP/1.1\r\n\r\n".as_bytes()),
        Served::NotFound(_)
    ));
}

#[test]
fn frames_follow_a_request() {
    let mut server = Server::default();
    let id = server.accept().unwrap();
    server.client_mut(id).receive(UPGRADE.as_bytes());
    assert!(matches!(server.serve_content(id), Served::Upgrade(_)));
    server.client_mut(id).complete_handshake();
    assert_eq!(server.state_of(id), ClientState::PostHandshake);
    let client = server.client_mut(id);
    client.receive(&[0x82, 0x81, 1, 2, 3, 4, b'a' ^ 1]);
    assert_eq!(client.handle_data(), DataStep::Message);
    assert_eq!(client.read(1), b"a".to_vec());
}
