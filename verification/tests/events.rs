use peanut::client::{Client, ClientState};
use peanut::event::{ReadResult, Readiness, Task, WriteResult};
use peanut::server::Server;
use peanut::write::{BlockingWrite, FrameStep, FrameWrite, WriteAttempt, WriteStep};

const QUIET: Readiness = Readiness {
    readable: false,
    writable: false,
    read_closed: false,
    write_closed: false,
    error: false,
};

const BOTH: Readiness = Readiness { readable: true, writable: true, ..QUIET };

/// A server with connections in slots 0 to 2, of which those in `upgraded` are upgraded.
fn three(upgraded: &[usize]) -> Server {
    let mut server = Server::default();
    for _ in 0..3 {
        server.accept();
    }
    for id in upgraded {
        server.client_mut(*id).complete_handshake();
    }
    server
}

#[test]
fn plain_connection_is_read_and_served() {
    let mut server = three(&[]);
    assert_eq!(server.on_event(1, BOTH), Task::Read);
    assert_eq!(server.on_read(1, ReadResult::Bytes(b"GET / ".to_vec())), Task::Read);
    assert_eq!(server.on_read(1, ReadResult::Bytes(b"HTTP/1.1".to_vec())), Task::Read);
    assert_eq!(server.on_read(1, ReadResult::WouldBlock), Task::Serve);
    assert_eq!(server.client_mut(1).read(100), b"GET / HTTP/1.1".to_vec());
    assert_eq!(server.on_handled(1, BOTH, true), Task::Done);
    assert!(server.has_client(1));
}

#[test]
fn upgraded_connection_is_read_handled_and_written() {
    let mut server = three(&[1]);
    assert_eq!(server.on_event(1, BOTH), Task::Read);
    assert_eq!(server.on_read(1, ReadResult::WouldBlock), Task::Handle);
    assert_eq!(server.on_handled(1, BOTH, true), Task::Write);
    assert_eq!(server.on_written(1, BOTH, WriteResult::Written), Task::Done);
    assert_eq!(server.on_written(1, BOTH, WriteResult::WouldBlock), Task::Done);
    assert_eq!(server.on_written(1, BOTH, WriteResult::Interrupted), Task::Done);
    assert!(server.has_client(1));
    assert_eq!(server.on_written(1, BOTH, WriteResult::Failed), Task::Drop);
    assert!(!server.has_client(1));
    assert!(server.has_client(0));
    assert!(server.has_client(2));
}

#[test]
fn request_that_upgrades_leads_to_writing() {
    let mut server = three(&[]);
    assert_eq!(server.on_read(2, ReadResult::WouldBlock), Task::Serve);
    server.client_mut(2).complete_handshake();
    assert_eq!(server.on_handled(2, BOTH, true), Task::Write);
}

#[test]
fn connect_handler_decides_on_the_upgrade() {
    let mut server = three(&[]);
    server.on_connected(1, false);
    assert_eq!(server.state_of(1), ClientState::PreHandshake);
    server.on_connected(1, true);
    assert_eq!(server.state_of(1), ClientState::PostHandshake);
    assert_eq!(server.state_of(0), ClientState::PreHandshake);
    assert_eq!(server.state_of(2), ClientState::PreHandshake);
}

#[test]
fn nothing_is_written_before_the_upgrade() {
    let mut server = three(&[]);
    let ready = Readiness { writable: true, ..QUIET };
    assert_eq!(server.on_event(0, ready), Task::Done);
    server.client_mut(0).complete_handshake();
    assert_eq!(server.on_event(0, ready), Task::Write);
    assert_eq!(server.on_event(0, QUIET), Task::Done);
}

#[test]
fn end_of_stream_and_failures_end_the_connection() {
    let mut server = three(&[0, 1, 2]);
    assert_eq!(server.on_read(0, ReadResult::Bytes(Vec::new())), Task::Deregister);
    assert_eq!(server.on_read(1, ReadResult::Failed), Task::Deregister);
    assert_eq!(server.on_handled(2, BOTH, false), Task::Deregister);
    for id in 0..3 {
        assert!(!server.has_client(id));
    }
    assert_eq!(server.accept(), Some(0));
}

#[test]
fn closed_and_faulty_sockets_end_the_connection() {
    let closings = [
        Readiness { read_closed: true, ..QUIET },
        Readiness { write_closed: true, ..QUIET },
        Readiness { error: true, ..QUIET },
    ];
    for ready in closings {
        let mut server = three(&[1]);
        assert_eq!(server.on_event(0, ready), Task::Drop);
        assert!(!server.has_client(0));
        assert_eq!(server.on_event(1, Readiness { writable: true, ..ready }), Task::Write);
        assert!(server.has_client(1));
        assert_eq!(server.on_written(1, ready, WriteResult::Written), Task::Drop);
        assert!(!server.has_client(1));
        assert_eq!(server.on_event(2, Readiness { readable: true, ..ready }), Task::Read);
        assert_eq!(server.on_handled(2, ready, true), Task::Drop);
        assert!(!server.has_client(2));
    }
}

#[test]
fn stretch_is_written_piece_by_piece() {
    let mut write = BlockingWrite::new(10);
    assert_eq!(write.step(WriteAttempt::Took(4)), WriteStep::Again);
    assert_eq!(write.written, 4);
    assert_eq!(write.step(WriteAttempt::WouldBlock), WriteStep::Again);
    assert_eq!(write.step(WriteAttempt::Interrupted), WriteStep::Again);
    assert_eq!(write.step(WriteAttempt::Took(6)), WriteStep::Again);
    assert_eq!(write.step(WriteAttempt::Took(0)), WriteStep::Finished(10));
    assert_eq!(write.len, 10);
}

#[test]
fn socket_that_takes_nothing_ends_the_writing() {
    let mut write = BlockingWrite::new(10);
    assert_eq!(write.step(WriteAttempt::Took(3)), WriteStep::Again);
    assert_eq!(write.step(WriteAttempt::Took(0)), WriteStep::Finished(3));
    let mut write = BlockingWrite::new(0);
    assert_eq!(write.step(WriteAttempt::Took(0)), WriteStep::Finished(0));
}

#[test]
fn failure_ends_the_writing() {
    let mut write = BlockingWrite::new(10);
    assert_eq!(write.step(WriteAttempt::Took(3)), WriteStep::Again);
    assert_eq!(write.step(WriteAttempt::Failed), WriteStep::Failed);
}

/// Lets a socket take `n` bytes of what is left, and adds them to `out`.
fn take(frame: &mut FrameWrite, n: usize, out: &mut Vec<u8>) -> FrameStep {
    out.extend_from_slice(&frame.rest()[..n]);
    frame.step(WriteAttempt::Took(n))
}

#[test]
fn frame_is_written_stretch_by_stretch() {
    let mut out = Vec::new();
    let mut frame = Client::new(0).write_blocking(&vec![7; 300]);
    assert_eq!(frame.rest(), &[0x82, 126]);
    assert_eq!(take(&mut frame, 1, &mut out), FrameStep::Again);
    assert_eq!(frame.step(WriteAttempt::WouldBlock), FrameStep::Again);
    assert_eq!(frame.rest(), &[126]);
    assert_eq!(take(&mut frame, 1, &mut out), FrameStep::Again);
    assert_eq!(frame.current, 0);
    assert_eq!(take(&mut frame, 0, &mut out), FrameStep::Again);
    assert_eq!(frame.current, 1);
    assert_eq!(frame.rest(), &[1, 44]);
    assert_eq!(take(&mut frame, 2, &mut out), FrameStep::Again);
    assert_eq!(take(&mut frame, 0, &mut out), FrameStep::Again);
    assert_eq!(take(&mut frame, 300, &mut out), FrameStep::Again);
    assert_eq!(frame.step(WriteAttempt::Interrupted), FrameStep::Again);
    assert_eq!(take(&mut frame, 0, &mut out), FrameStep::Finished);
    assert_eq!(out, [&[0x82, 126, 1, 44][..], &[7; 300]].concat());
}

#[test]
fn first_failure_ends_the_frame() {
    let mut out = Vec::new();
    let mut frame = Client::new(0).write_blocking(b"hello");
    assert_eq!(take(&mut frame, 2, &mut out), FrameStep::Again);
    assert_eq!(take(&mut frame, 0, &mut out), FrameStep::Again);
    assert_eq!(take(&mut frame, 3, &mut out), FrameStep::Again);
    assert_eq!(frame.step(WriteAttempt::Failed), FrameStep::Failed);
    assert_eq!(out, vec![0x82, 5, b'h', b'e', b'l']);
    let mut frame = Client::new(0).write_blocking(b"hello");
    assert_eq!(frame.step(WriteAttempt::Failed), FrameStep::Failed);
    assert_eq!(frame.current, 0);
}

#[test]
fn stretch_left_short_is_followed_by_the_next() {
    let mut frame = Client::new(0).write_blocking(b"hello");
    assert_eq!(frame.step(WriteAttempt::Took(0)), FrameStep::Again);
    assert_eq!(frame.rest(), b"hello");
    assert_eq!(frame.step(WriteAttempt::Took(0)), FrameStep::Finished);
}
