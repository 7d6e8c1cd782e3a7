use peanut::bytes::{to_be_bytes, to_le_bytes};
use peanut::client::{BufferFull, Client, ClientState, DataStep};
use peanut::frame::{make_direct_head, make_queued_head, mask, parse_head, FrameHead};

/// A frame as a peer sends it.
fn peer_frame(payload: &[u8], key: [u8; 4]) -> Vec<u8> {
    let mut frame = vec![0x82, 0x80 | payload.len() as u8];
    frame.extend_from_slice(&key);
    for (i, byte) in payload.iter().enumerate() {
        frame.push(byte ^ key[i % 4]);
    }
    frame
}

/// Moves the front of what arrives on `client` to `place` in its array.
fn advance_to(client: &mut Client, place: usize) {
    let mut left = place;
    while left > 0 {
        let n = left.min(1000);
        client.receive(&vec![0; n]);
        assert_eq!(client.read(n).len(), n);
        left -= n;
    }
}

#[test]
fn number_bytes() {
    assert_eq!(to_be_bytes(0x0102, 2), vec![1, 2]);
    assert_eq!(to_le_bytes(0x0102, 2), vec![2, 1]);
    assert_eq!(to_be_bytes(0x0102030405060708, 8), vec![1, 2, 3, 4, 5, 6, 7, 8]);
    assert_eq!(to_le_bytes(0x0102030405060708, 8), vec![8, 7, 6, 5, 4, 3, 2, 1]);
    assert_eq!(to_be_bytes(300, 0), Vec::<u8>::new());
    for n in [0u64, 1, 255, 256, 65535, 65536, u64::MAX] {
        assert_eq!(to_be_bytes(n, 8), n.to_be_bytes().to_vec());
        assert_eq!(to_le_bytes(n, 8), n.to_le_bytes().to_vec());
    }
}

#[test]
fn heads_of_frames() {
    assert_eq!(parse_head(0x82, 0x85), FrameHead::Short(5));
    assert_eq!(parse_head(0x82, 5), FrameHead::Short(5));
    assert_eq!(parse_head(0x82, 0xfd), FrameHead::Short(125));
    assert_eq!(parse_head(0x82, 0xfe), FrameHead::Length16);
    assert_eq!(parse_head(0x82, 0xff), FrameHead::Length64);
    assert_eq!(parse_head(0x88, 0x80), FrameHead::Close);
    assert_eq!(parse_head(0x81, 0x80), FrameHead::UnknownOpcode);
    assert_eq!(parse_head(0x89, 0x80), FrameHead::UnknownOpcode);
    assert_eq!(parse_head(0x02, 0x85), FrameHead::Continuation);
    assert_eq!(parse_head(0x08, 0x85), FrameHead::Continuation);
    assert_eq!(parse_head(0xf2, 0x01), FrameHead::Short(1));
}

#[test]
fn heads_of_queued_frames() {
    assert_eq!(make_queued_head(0), vec![0x82, 0]);
    assert_eq!(make_queued_head(125), vec![0x82, 125]);
    assert_eq!(make_queued_head(126), vec![0x82, 126, 126, 0]);
    assert_eq!(make_queued_head(0x1234), vec![0x82, 126, 0x34, 0x12]);
    assert_eq!(make_queued_head(65535), vec![0x82, 126, 255, 255]);
    assert_eq!(make_queued_head(65536), vec![0x82, 127, 0, 0, 1, 0, 0, 0, 0, 0]);
}

#[test]
fn heads_of_direct_frames() {
    assert_eq!(make_direct_head(0), vec![vec![0x82, 0]]);
    assert_eq!(make_direct_head(127), vec![vec![0x82, 127]]);
    assert_eq!(make_direct_head(128), vec![vec![0x82, 126], vec![0, 128]]);
    assert_eq!(make_direct_head(0x1234), vec![vec![0x82, 126], vec![0x12, 0x34]]);
    assert_eq!(make_direct_head(65535), vec![vec![0x82, 126], vec![255, 255]]);
    assert_eq!(
        make_direct_head(125_000),
        vec![vec![0x82, 127], vec![0, 0, 0, 0, 0, 1, 0xe8, 0x48]]
    );
}

#[test]
fn masking_twice_changes_nothing() {
    let key = [0x37, 0xfa, 0x21, 0x3d];
    let mut data = b"Hello, world".to_vec();
    mask(&mut data, &key);
    assert_eq!(&data[..5], &[0x7f, 0x9f, 0x4d, 0x51, 0x58]);
    mask(&mut data, &key);
    assert_eq!(data, b"Hello, world".to_vec());
}

#[test]
fn message_arrives() {
    let mut client = Client::new(7);
    assert_eq!(client.id(), 7);
    client.receive(&peer_frame(b"hello", [1, 2, 3, 4]));
    assert_eq!(client.handle_data(), DataStep::Message);
    assert_eq!(client.read(5), b"hello".to_vec());
    assert!(!client.message_done());
    assert_eq!(client.handle_data(), DataStep::Wait);
    client.receive(&peer_frame(b"again", [9, 8, 7, 6]));
    assert_eq!(client.handle_data(), DataStep::Message);
    assert_eq!(client.read(100), b"again".to_vec());
    assert!(!client.message_done());
}

#[test]
fn message_arrives_in_any_pieces() {
    let frame = peer_frame(b"some payload", [200, 0, 17, 255]);
    for cut in 0..frame.len() {
        let mut client = Client::new(0);
        client.receive(&frame[..cut]);
        assert_eq!(client.handle_data(), DataStep::Wait);
        assert_eq!(client.handle_data(), DataStep::Wait);
        client.receive(&frame[cut..]);
        assert_eq!(client.handle_data(), DataStep::Message);
        assert_eq!(client.read(12), b"some payload".to_vec());
    }
    let mut client = Client::new(0);
    for byte in &frame[..frame.len() - 1] {
        client.receive(&[*byte]);
        assert_eq!(client.handle_data(), DataStep::Wait);
    }
    client.receive(&frame[frame.len() - 1..]);
    assert_eq!(client.handle_data(), DataStep::Message);
    assert_eq!(client.read(12), b"some payload".to_vec());
}

#[test]
fn empty_message() {
    let mut client = Client::new(0);
    client.receive(&peer_frame(b"", [1, 2, 3, 4]));
    assert_eq!(client.handle_data(), DataStep::Message);
    assert_eq!(client.read(10), Vec::<u8>::new());
    assert!(!client.message_done());
}

#[test]
fn longest_message() {
    let payload: Vec<u8> = (0..125).collect();
    let mut client = Client::new(0);
    client.receive(&peer_frame(&payload, [250, 3, 99, 42]));
    assert_eq!(client.handle_data(), DataStep::Message);
    assert_eq!(client.read(125), payload);
}

#[test]
fn all_that_has_arrived_is_unmasked() {
    let mut client = Client::new(0);
    let mut bytes = peer_frame(b"ab", [1, 2, 3, 4]);
    bytes.extend_from_slice(&[0, 0, 0, 0]);
    client.receive(&bytes);
    assert_eq!(client.handle_data(), DataStep::Message);
    assert_eq!(client.read(2), b"ab".to_vec());
    assert!(client.message_done());
    assert_eq!(client.read(10), vec![3, 4, 1, 2]);
}

#[test]
fn frames_behind_an_empty_key() {
    let mut client = Client::new(0);
    let mut bytes = peer_frame(b"one", [0; 4]);
    bytes.extend_from_slice(&peer_frame(b"two", [5, 6, 7, 8]));
    client.receive(&bytes);
    assert_eq!(client.handle_data(), DataStep::Message);
    assert_eq!(client.read(3), b"one".to_vec());
    assert!(client.message_done());
    assert_eq!(client.handle_data(), DataStep::Message);
    assert_eq!(client.read(3), b"two".to_vec());
    assert!(!client.message_done());
}

#[test]
fn payload_around_the_end_of_the_array() {
    let key = [1, 2, 3, 4];
    // The two bytes and the key take six places; eight bytes of the payload reach the end.
    let mut client = Client::new(0);
    advance_to(&mut client, 1024 - 14);
    client.receive(&peer_frame(b"0123456789", key));
    assert_eq!(client.handle_data(), DataStep::Message);
    assert_eq!(client.read(10), b"0123456789".to_vec());

    // Six bytes of the payload reach the end, and the key begins anew out of step.
    let mut client = Client::new(0);
    advance_to(&mut client, 1024 - 12);
    client.receive(&peer_frame(b"0123456789", key));
    assert_eq!(client.handle_data(), DataStep::Message);
    let got = client.read(10);
    assert_eq!(&got[..6], b"012345");
    let shifted: Vec<u8> = b"6789"
        .iter()
        .enumerate()
        .map(|(i, byte)| byte ^ key[(i + 6) % 4] ^ key[i % 4])
        .collect();
    assert_eq!(&got[6..], &shifted[..]);
    assert_ne!(&got[6..], b"6789");
}

#[test]
fn frames_that_end_or_stop_the_connection() {
    let steps = [
        (0x88, 0x80, DataStep::Close),
        (0x02, 0x80, DataStep::Continuation),
        (0x81, 0x80, DataStep::UnknownOpcode),
        (0x82, 0xfe, DataStep::LongPayload),
        (0x82, 0xff, DataStep::LongPayload),
    ];
    for (first, second, step) in steps {
        let mut client = Client::new(0);
        client.receive(&[first]);
        assert_eq!(client.handle_data(), DataStep::Wait);
        client.receive(&[second]);
        assert_eq!(client.handle_data(), step);
    }
    let mut client = Client::new(0);
    client.receive(&[0x82, 0xfe]);
    assert_eq!(client.handle_data(), DataStep::LongPayload);
    assert_eq!(client.handle_data(), DataStep::LongPayload);
}

#[test]
fn waiting_leaves_room() {
    let payload: Vec<u8> = vec![5; 125];
    let frame = peer_frame(&payload, [1, 1, 2, 2]);
    let mut client = Client::new(0);
    client.receive(&frame[..frame.len() - 1]);
    assert_eq!(client.room(), 1024 - 130);
    assert_eq!(client.handle_data(), DataStep::Wait);
    assert_eq!(client.room(), 1024 - 124);
}

#[test]
fn sent_messages_wait_in_order() {
    let mut client = Client::new(0);
    assert_eq!(client.flush(), Vec::<u8>::new());
    assert_eq!(client.send(2, b"ab"), Ok(()));
    assert_eq!(client.send(3, b"cde"), Ok(()));
    assert_eq!(client.flush(), vec![0x82, 2, 97, 98, 0x82, 3, 99, 100, 101]);
    client.flushed(3);
    assert_eq!(client.flush(), vec![98, 0x82, 3, 99, 100, 101]);
    assert_eq!(client.send(0, b""), Ok(()));
    assert_eq!(client.flush(), vec![98, 0x82, 3, 99, 100, 101, 0x82, 0]);
    client.flushed(8);
    assert_eq!(client.flush(), Vec::<u8>::new());
}

#[test]
fn message_without_room_fails() {
    let mut client = Client::new(0);
    let payload = vec![7; 1020];
    assert_eq!(client.send(1020, &payload), Ok(()));
    assert_eq!(client.send(0, b""), Err(BufferFull));
    assert_eq!(client.flush().len(), 1024);
    client.flushed(1024);
    assert_eq!(client.send(1021, &vec![7; 1021]), Err(BufferFull));
    let queued = client.flush();
    assert_eq!(&queued[..4], &[0x82, 126, 0xfd, 0x03]);
    assert_eq!(queued.len(), 1024);
    client.flushed(3);
    assert_eq!(client.send(2, b"xy"), Err(BufferFull));
    client.flushed(1021);
    assert_eq!(client.flush(), vec![0x82, 2, 120]);
}

#[test]
fn direct_frames() {
    let client = Client::new(0);
    assert_eq!(client.write_blocking(b"hi").pieces, vec![vec![0x82, 2], b"hi".to_vec()]);
    assert_eq!(
        client.write_blocking(&vec![1; 200]).pieces,
        vec![vec![0x82, 126], vec![0, 200], vec![1; 200]]
    );
}

#[test]
fn new_connection_becomes_upgraded() {
    let mut client = Client::new(3);
    assert_eq!(client.state(), ClientState::PreHandshake);
    client.complete_handshake();
    assert_eq!(client.state(), ClientState::PostHandshake);
    assert_eq!(client.room(), 1024);
}
