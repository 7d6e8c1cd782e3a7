//! One connection: what has arrived on it, what waits to leave, and how far its frames have
//! been read.
use crate::frame::{make_direct_head, make_queued_head, parse_head, unmask_ring, FrameHead};
use crate::ring::{RingBuf, CAPACITY};
use crate::write::{FrameWrite, FrameWriteView};
use vstd::prelude::*;
use vstd::slice::slice_to_vec;

verus! {

/// What the next bytes of a connection are.
#[derive(Clone, Copy, Debug, PartialEq, Eq, Structural)]
pub enum Expect {
    /// The first two bytes of a frame.
    Frame,
    /// A length of two bytes.
    PayloadLen16,
    /// A length of eight bytes.
    PayloadLen64,
    /// A masking key.
    MaskingKey,
    /// A payload.
    Payload,
}

/// Whether a connection has been upgraded.
#[derive(Clone, Copy, Debug, PartialEq, Eq, Structural)]
pub enum ClientState {
    /// Still plain HTTP.
    PreHandshake,
    /// Upgraded to WebSocket.
    PostHandshake,
}

/// What reading the bytes at hand has led to.
#[derive(Clone, Copy, Debug, PartialEq, Eq, Structural)]
pub enum DataStep {
    /// Too few bytes for what comes next.
    Wait,
    /// A payload stands, unmasked, at the front of what has arrived.
    Message,
    /// The peer closes the connection.
    Close,
    /// A frame that is not the last of its message, which the server cannot take.
    Continuation,
    /// A frame of a sort that the server cannot take.
    UnknownOpcode,
    /// A payload of 126 bytes or more, which the server cannot take.
    LongPayload,
}

/// A message that found no room to wait in.
#[derive(Clone, Copy, Debug, PartialEq, Eq, Structural)]
pub struct BufferFull;

/// A connection.
pub struct Client {
    id: usize,
    state: ClientState,
    expect: Expect,
    rx: RingBuf,
    tx: RingBuf,
    payload_len: usize,
    masking_key: [u8; 4],
}

/// What a [`Client`] is, in mathematical terms.
#[verifier::ext_equal]
pub struct ClientView {
    /// The slot that the connection has.
    pub id: int,
    /// Whether it has been upgraded.
    pub state: ClientState,
    /// What comes next on it.
    pub expect: Expect,
    /// What has arrived and has not been read.
    pub rx: Seq<u8>,
    /// Where in its array the first of those bytes lies.
    pub rx_start: int,
    /// What waits to leave.
    pub tx: Seq<u8>,
    /// How long the payload is that comes next.
    pub payload_len: int,
    /// What the payload that comes next is masked with.
    pub masking_key: Seq<u8>,
}

impl View for Client {
    type V = ClientView;

    closed spec fn view(&self) -> ClientView {
        ClientView {
            id: self.id as int,
            state: self.state,
            expect: self.expect,
            rx: crate::ring::ring_bytes(self.rx),
            rx_start: crate::ring::ring_start(self.rx),
            tx: crate::ring::ring_bytes(self.tx),
            payload_len: self.payload_len as int,
            masking_key: self.masking_key@,
        }
    }
}

impl ClientView {
    /// What holds of every connection.
    pub open spec fn wf(self) -> bool {
        &&& self.rx.len() <= CAPACITY
        &&& 0 <= self.rx_start < CAPACITY
        &&& self.tx.len() <= CAPACITY
        &&& 0 <= self.payload_len < 126
        &&& self.masking_key.len() == 4
    }

    /// The connection once its first `n` bytes have been read.
    pub open spec fn consumed(self, n: int) -> ClientView {
        ClientView {
            rx: self.rx.skip(n),
            rx_start: crate::ring::advanced(self.rx_start, n),
            ..self
        }
    }

    /// The connection once `data` has arrived.
    pub open spec fn received(self, data: Seq<u8>) -> ClientView {
        ClientView { rx: self.rx + data, ..self }
    }

    /// What happens where a payload comes next: once it is there whole, all that has arrived
    /// is unmasked.
    pub open spec fn at_payload(self) -> (ClientView, DataStep) {
        if self.rx.len() < self.payload_len {
            (self, DataStep::Wait)
        } else {
            (
                ClientView {
                    rx: crate::frame::unmasked_ring(self.rx, self.rx_start, self.masking_key),
                    ..self
                },
                DataStep::Message,
            )
        }
    }

    /// What happens where a masking key comes next.
    pub open spec fn at_key(self) -> (ClientView, DataStep) {
        if self.rx.len() < 4 {
            (self, DataStep::Wait)
        } else {
            (ClientView {
                masking_key: self.rx.take(4),
                expect: Expect::Payload,
                ..self.consumed(4)
            }).at_payload()
        }
    }

    /// What happens where a frame comes next.
    pub open spec fn at_frame(self) -> (ClientView, DataStep) {
        if self.rx.len() < 2 {
            (self, DataStep::Wait)
        } else {
            let rest = self.consumed(2);
            match crate::frame::frame_head(self.rx[0], self.rx[1]) {
                FrameHead::Continuation => (rest, DataStep::Continuation),
                FrameHead::Close => (rest, DataStep::Close),
                FrameHead::UnknownOpcode => (rest, DataStep::UnknownOpcode),
                FrameHead::Short(len) => (ClientView {
                    payload_len: len as int,
                    expect: Expect::MaskingKey,
                    ..rest
                }).at_key(),
                FrameHead::Length16 => (
                    ClientView { expect: Expect::PayloadLen16, ..rest },
                    DataStep::LongPayload,
                ),
                FrameHead::Length64 => (
                    ClientView { expect: Expect::PayloadLen64, ..rest },
                    DataStep::LongPayload,
                ),
            }
        }
    }

    /// How far the bytes at hand lead, and where.
    pub open spec fn data_step(self) -> (ClientView, DataStep) {
        match self.expect {
            Expect::Frame => self.at_frame(),
            Expect::MaskingKey => self.at_key(),
            Expect::Payload => self.at_payload(),
            Expect::PayloadLen16 => (self, DataStep::LongPayload),
            Expect::PayloadLen64 => (self, DataStep::LongPayload),
        }
    }

    /// The connection after a message of `payload`, announced as `size` bytes, has been sent:
    /// as much of the frame as there is room for waits to leave.
    pub open spec fn sent(self, size: nat, payload: Seq<u8>) -> ClientView {
        let frame = crate::frame::queued_head(size) + payload;
        let n = crate::ring::lesser(frame.len() as int, CAPACITY - self.tx.len());
        ClientView { tx: self.tx + frame.take(n), ..self }
    }

    /// Whether there is room for a message of `payload`, announced as `size` bytes.
    pub open spec fn has_room(self, size: nat, payload: Seq<u8>) -> bool {
        self.tx.len() + crate::frame::queued_head(size).len() + payload.len() <= CAPACITY
    }
}

/// A connection on which nothing has happened.
pub open spec fn fresh(id: int) -> ClientView {
    ClientView {
        id,
        state: ClientState::PreHandshake,
        expect: Expect::Frame,
        rx: Seq::empty(),
        rx_start: 0,
        tx: Seq::empty(),
        payload_len: 0,
        masking_key: seq![0u8, 0u8, 0u8, 0u8],
    }
}

impl Client {
    /// Makes the connection that has slot `id`.
    pub fn new(id: usize) -> (client: Client)
        ensures
            client@ == fresh(id as int),
            client@.wf(),
    {
        let client = Client {
            id,
            state: ClientState::PreHandshake,
            expect: Expect::Frame,
            rx: RingBuf::new(),
            tx: RingBuf::new(),
            payload_len: 0,
            masking_key: [0, 0, 0, 0],
        };
        assert(client@.masking_key =~= seq![0u8, 0u8, 0u8, 0u8]);
        client
    }

    /// The slot that the connection has.
    pub fn id(&self) -> (id: usize)
        ensures
            id == self@.id,
    {
        self.id
    }

    /// Whether the connection has been upgraded.
    pub fn state(&self) -> (state: ClientState)
        ensures
            state == self@.state,
    {
        self.state
    }

    /// Marks the connection as upgraded.
    pub fn complete_handshake(&mut self)
        ensures
            final(self)@ == (ClientView { state: ClientState::PostHandshake, ..old(self)@ }),
    {
        self.state = ClientState::PostHandshake;
    }

    /// Queues a message: the head of a frame of `size` bytes, then `payload`. Where the room
    /// does not suffice, what fits is queued, and the message fails.
    ///
    /// A queued message leaves by [`Client::flush`].
    pub fn send(&mut self, size: usize, payload: &[u8]) -> (sent: Result<(), BufferFull>)
        requires
            old(self)@.wf(),
        ensures
            sent is Ok <==> old(self)@.has_room(size as nat, payload@),
            final(self)@ == old(self)@.sent(size as nat, payload@),
            final(self)@.wf(),
    {
        let head = make_queued_head(size);
        let ghost frame = head@ + payload@;
        let ghost before = self@;
        let room: usize = CAPACITY - self.tx.occupied_len();
        if self.tx.push_slice(head.as_slice()) < head.len() {
            assert(frame.take(room as int) =~= head@.take(room as int));
            return Err(BufferFull);
        }
        assert(head@.take(head@.len() as int) =~= head@);
        let n: usize = self.tx.push_slice(payload);
        assert(frame.take(head@.len() + n) =~= head@ + payload@.take(n as int));
        assert(self@.tx =~= before.tx + frame.take(head@.len() + n));
        if n < payload.len() {
            return Err(BufferFull);
        }
        Ok(())
    }

    /// Begins to write a frame of `data` to the socket directly, past what is queued.
    pub fn write_blocking(&self, data: &[u8]) -> (frame: FrameWrite)
        ensures
            frame@ == FrameWriteView::begun(crate::frame::direct_head(data@.len()).push(data@)),
            frame@.wf(),
    {
        let mut pieces = make_direct_head(data.len());
        let ghost head = pieces@;
        pieces.push(slice_to_vec(data));
        assert(crate::frame::views(pieces@) =~= crate::frame::views(head).push(data@));
        FrameWrite::new(pieces)
    }

    /// What waits to leave, in order. It waits on until [`Client::flushed`] says how much of
    /// it the socket took.
    pub fn flush(&mut self) -> (bytes: Vec<u8>)
        ensures
            bytes@ == old(self)@.tx,
            final(self)@ == old(self)@,
    {
        let n: usize = self.tx.occupied_len();
        let mut bytes: Vec<u8> = vec![0u8; n];
        let ghost before = self@.tx;
        let _ = self.tx.peek_slice(bytes.as_mut_slice());
        assert(bytes@ =~= before);
        bytes
    }

    /// Takes off the first `n` bytes that wait to leave.
    pub fn flushed(&mut self, n: usize)
        requires
            n <= old(self)@.tx.len(),
            old(self)@.wf(),
        ensures
            final(self)@ == (ClientView { tx: old(self)@.tx.skip(n as int), ..old(self)@ }),
            final(self)@.wf(),
    {
        let _ = self.tx.skip(n);
    }

    /// How many more bytes can arrive.
    pub fn room(&self) -> (n: usize)
        requires
            self@.wf(),
        ensures
            n == CAPACITY - self@.rx.len(),
    {
        CAPACITY - self.rx.occupied_len()
    }

    /// Takes in `data`, which has arrived.
    pub fn receive(&mut self, data: &[u8])
        requires
            old(self)@.wf(),
            data@.len() <= CAPACITY - old(self)@.rx.len(),
        ensures
            final(self)@ == old(self)@.received(data@),
            final(self)@.wf(),
    {
        let _ = self.rx.push_slice(data);
        assert(data@.take(data@.len() as int) =~= data@);
    }

    /// Reads the oldest bytes that have arrived, at most `max`.
    pub fn read(&mut self, max: usize) -> (bytes: Vec<u8>)
        requires
            old(self)@.wf(),
        ensures
            bytes@.len() == crate::ring::lesser(max as int, old(self)@.rx.len() as int),
            bytes@ == old(self)@.rx.take(bytes@.len() as int),
            final(self)@ == old(self)@.consumed(bytes@.len() as int),
            final(self)@.wf(),
    {
        let len: usize = self.rx.occupied_len();
        let n: usize = if max < len {
            max
        } else {
            len
        };
        let mut bytes: Vec<u8> = vec![0u8; n];
        let ghost before = self@.rx;
        let _ = self.rx.pop_slice(bytes.as_mut_slice());
        assert(bytes@ =~= before.take(n as int));
        bytes
    }

    /// Reads a payload, where one comes next.
    fn take_payload(&mut self) -> (step: DataStep)
        requires
            old(self)@.wf(),
        ensures
            (final(self)@, step) == old(self)@.at_payload(),
            final(self)@.wf(),
    {
        if self.rx.occupied_len() < self.payload_len {
            return DataStep::Wait;
        }
        unmask_ring(&mut self.rx, &self.masking_key);
        DataStep::Message
    }

    /// Reads a masking key, where one comes next, and what follows it.
    fn take_key(&mut self) -> (step: DataStep)
        requires
            old(self)@.wf(),
        ensures
            (final(self)@, step) == old(self)@.at_key(),
            final(self)@.wf(),
    {
        if self.rx.occupied_len() < 4 {
            return DataStep::Wait;
        }
        let ghost before = self@.rx;
        let mut key: [u8; 4] = [0; 4];
        let _ = self.rx.pop_slice(&mut key);
        assert(key@ =~= before.take(4));
        self.masking_key = key;
        self.expect = Expect::Payload;
        self.take_payload()
    }

    /// Reads the beginning of a frame, where one comes next, and what follows it.
    fn take_frame(&mut self) -> (step: DataStep)
        requires
            old(self)@.wf(),
        ensures
            (final(self)@, step) == old(self)@.at_frame(),
            final(self)@.wf(),
    {
        if self.rx.occupied_len() < 2 {
            return DataStep::Wait;
        }
        let mut head: [u8; 2] = [0; 2];
        let _ = self.rx.pop_slice(&mut head);
        match parse_head(head[0], head[1]) {
            FrameHead::Continuation => DataStep::Continuation,
            FrameHead::Close => DataStep::Close,
            FrameHead::UnknownOpcode => DataStep::UnknownOpcode,
            FrameHead::Short(len) => {
                self.payload_len = len as usize;
                self.expect = Expect::MaskingKey;
                self.take_key()
            },
            FrameHead::Length16 => {
                self.expect = Expect::PayloadLen16;
                DataStep::LongPayload
            },
            FrameHead::Length64 => {
                self.expect = Expect::PayloadLen64;
                DataStep::LongPayload
            },
        }
    }

    /// Reads what has arrived as far as it leads: to a message, to a close, to a frame that
    /// the server cannot take, or to the end of the bytes at hand.
    ///
    /// After [`DataStep::Message`] the payload is to be read, and [`Client::message_done`]
    /// says whether to go on.
    pub fn handle_data(&mut self) -> (step: DataStep)
        requires
            old(self)@.wf(),
        ensures
            (final(self)@, step) == old(self)@.data_step(),
            final(self)@.wf(),
    {
        match self.expect {
            Expect::Frame => self.take_frame(),
            Expect::MaskingKey => self.take_key(),
            Expect::Payload => self.take_payload(),
            Expect::PayloadLen16 => DataStep::LongPayload,
            Expect::PayloadLen64 => DataStep::LongPayload,
        }
    }

    /// Ends a message, after which a frame comes next; says whether more bytes are at hand.
    pub fn message_done(&mut self) -> (more: bool)
        requires
            old(self)@.wf(),
        ensures
            final(self)@ == (ClientView { expect: Expect::Frame, ..old(self)@ }),
            final(self)@.wf(),
            more == (old(self)@.rx.len() > 0),
    {
        self.expect = Expect::Frame;
        self.rx.occupied_len() > 0
    }
}

/// A frame as a peer sends it: two bytes, the masking key, the masked payload.
pub open spec fn peer_frame(first: u8, second: u8, key: Seq<u8>, payload: Seq<u8>) -> Seq<u8> {
    seq![first, second] + key + crate::frame::masked(payload, key)
}

/// Where a frame that has arrived whole leads to: its key and its length are noted, and what
/// stands behind its key is unmasked.
proof fn lemma_whole_frame(
    client: ClientView,
    first: u8,
    second: u8,
    key: Seq<u8>,
    payload: Seq<u8>,
    rest: Seq<u8>,
)
    requires
        client.wf(),
        client.expect == Expect::Frame,
        payload.len() < 126,
        crate::frame::frame_head(first, second) == FrameHead::Short(payload.len() as u8),
        key.len() == 4,
        client.rx == peer_frame(first, second, key, payload) + rest,
    ensures
        ({
            let start = crate::ring::advanced(client.rx_start, 6);
            let behind = crate::frame::masked(payload, key) + rest;
            client.data_step() == (
                ClientView {
                    expect: Expect::Payload,
                    payload_len: payload.len() as int,
                    masking_key: key,
                    rx: crate::frame::unmasked_ring(behind, start, key),
                    rx_start: start,
                    ..client
                },
                DataStep::Message,
            )
        }),
{
    let behind = crate::frame::masked(payload, key) + rest;
    assert(client.rx.skip(2).take(4) =~= key);
    assert(client.rx.skip(2).skip(4) =~= behind);
    crate::ring::lemma_advanced(client.rx_start, 2, 4);
}

/// A frame that has arrived whole leads to a message, and the payload then stands at the front
/// as the peer meant it wherever the key meets it rightly (see
/// [`crate::frame::law_payload_comes_back`]), and only there. Once it has been read, nothing is
/// left over of a frame that arrived alone.
pub proof fn law_frame_leads_to_message(
    client: ClientView,
    first: u8,
    second: u8,
    key: Seq<u8>,
    payload: Seq<u8>,
    rest: Seq<u8>,
)
    requires
        client.wf(),
        client.expect == Expect::Frame,
        payload.len() < 126,
        crate::frame::frame_head(first, second) == FrameHead::Short(payload.len() as u8),
        key.len() == 4,
        client.rx == peer_frame(first, second, key, payload) + rest,
    ensures
        ({
            let (after, step) = client.data_step();
            let front = crate::ring::front_len(after.rx_start, after.rx.len() as int);
            &&& step == DataStep::Message
            &&& after.payload_len == payload.len()
            &&& after.rx.len() == payload.len() + rest.len()
            &&& after.rx.take(payload.len() as int) == payload <==> crate::frame::key_meets(
                key,
                front,
                payload.len() as int,
            )
            &&& payload.len() <= front ==> after.rx.take(payload.len() as int) == payload
            &&& rest.len() == 0 ==> after.consumed(after.payload_len).rx.len() == 0
        }),
{
    let start = crate::ring::advanced(client.rx_start, 6);
    lemma_whole_frame(client, first, second, key, payload, rest);
    crate::frame::law_payload_comes_back(payload, rest, start, key);
}

/// What arrived together with a frame stands behind the payload as it arrived wherever all of
/// the frame's key that meets it is 0, and only there: unmasking takes in all that has arrived.
pub proof fn law_frames_together(
    client: ClientView,
    first: u8,
    second: u8,
    key: Seq<u8>,
    payload: Seq<u8>,
    rest: Seq<u8>,
)
    requires
        client.wf(),
        client.expect == Expect::Frame,
        payload.len() < 126,
        crate::frame::frame_head(first, second) == FrameHead::Short(payload.len() as u8),
        key.len() == 4,
        client.rx == peer_frame(first, second, key, payload) + rest,
    ensures
        ({
            let (after, step) = client.data_step();
            let front = crate::ring::front_len(after.rx_start, after.rx.len() as int);
            &&& step == DataStep::Message
            &&& after.rx.skip(payload.len() as int) == rest <==> crate::frame::key_spares(
                key,
                front,
                payload.len() as int,
                after.rx.len() as int,
            )
        }),
{
    let masked = crate::frame::masked(payload, key);
    let start = crate::ring::advanced(client.rx_start, 6);
    lemma_whole_frame(client, first, second, key, payload, rest);
    assert((masked + rest).skip(payload.len() as int) =~= rest);
    crate::frame::law_rest_kept(masked + rest, payload.len() as int, start, key);
}

/// A frame that arrives alone, and whose message has been read whole and ended, leaves the
/// connection ready for the next one: nothing of it is left, and nothing else has changed.
#[verifier::spinoff_prover]
pub proof fn law_ready_for_next_frame(
    client: ClientView,
    first: u8,
    second: u8,
    key: Seq<u8>,
    payload: Seq<u8>,
)
    requires
        client.wf(),
        client.expect == Expect::Frame,
        client.rx.len() == 0,
        payload.len() < 126,
        crate::frame::frame_head(first, second) == FrameHead::Short(payload.len() as u8),
        key.len() == 4,
    ensures
        ({
            let frame = peer_frame(first, second, key, payload);
            let (message, step) = client.received(frame).data_step();
            let after = ClientView {
                expect: Expect::Frame,
                ..message.consumed(payload.len() as int)
            };
            &&& step == DataStep::Message
            &&& after.wf()
            &&& after == ClientView {
                rx_start: crate::ring::advanced(client.rx_start, frame.len() as int),
                payload_len: payload.len() as int,
                masking_key: key,
                ..client
            }
        }),
{
    let frame = peer_frame(first, second, key, payload);
    let arrived = client.received(frame);
    assert(arrived.rx =~= frame + Seq::<u8>::empty());
    lemma_whole_frame(arrived, first, second, key, payload, Seq::empty());
    let message = arrived.data_step().0;
    let n = payload.len() as int;
    crate::ring::lemma_advanced(client.rx_start, 6, n);
    assert(frame.len() == 6 + n);
    assert(message.rx.len() == n);
    assert(message.consumed(payload.len() as int).rx =~= client.rx);
}

/// It does not matter in which pieces bytes arrive: where those at hand lead to waiting, more
/// of them lead on as if all had arrived at once.
pub proof fn law_any_pieces(client: ClientView, more: Seq<u8>)
    requires
        client.wf(),
        client.data_step().1 == DataStep::Wait,
    ensures
        client.data_step().0.received(more).data_step() == client.received(more).data_step(),
{
    let all = client.rx + more;
    if client.rx.len() >= 2 {
        assert(all.skip(2) =~= client.rx.skip(2) + more);
        if client.rx.len() >= 6 {
            assert(all.skip(2).skip(4) =~= client.rx.skip(2).skip(4) + more);
            assert(all.skip(2).take(4) =~= client.rx.skip(2).take(4));
        }
    }
    if client.rx.len() >= 4 {
        assert(all.skip(4) =~= client.rx.skip(4) + more);
        assert(all.take(4) =~= client.rx.take(4));
    }
}

/// A connection that waits for bytes has room for all that it waits for.
pub proof fn law_waiting_leaves_room(client: ClientView)
    requires
        client.wf(),
        client.data_step().1 == DataStep::Wait,
    ensures
        client.data_step().0.rx.len() < 125,
        client.data_step().0.wf(),
{
}

/// Bytes leave in the order in which they were sent: a message that finds room stands whole
/// behind what was there, however much of that has left before it was sent.
pub proof fn law_sent_in_order(client: ClientView, size: nat, payload: Seq<u8>, left: int)
    requires
        client.wf(),
        0 <= left <= client.tx.len(),
        client.has_room(size, payload),
    ensures
        client.sent(size, payload).tx == client.tx + crate::frame::queued_head(size) + payload,
        client.sent(size, payload).tx.skip(left) == client.tx.skip(left)
            + crate::frame::queued_head(size) + payload,
{
    let frame = crate::frame::queued_head(size) + payload;
    assert(frame.take(frame.len() as int) =~= frame);
    assert(client.tx + frame =~= client.tx + crate::frame::queued_head(size) + payload);
    assert((client.tx + frame).skip(left) =~= client.tx.skip(left)
        + crate::frame::queued_head(size) + payload);
}

/// A refused message leaves nothing of what waited before out of place, and fills the queue.
pub proof fn law_refused_message_fills(client: ClientView, size: nat, payload: Seq<u8>)
    requires
        client.wf(),
        !client.has_room(size, payload),
    ensures
        client.sent(size, payload).tx.len() == CAPACITY,
        client.tx.is_prefix_of(client.sent(size, payload).tx),
{
    let sent = client.sent(size, payload).tx;
    assert(sent.subrange(0, client.tx.len() as int) =~= client.tx);
}

/// A new connection is plain HTTP, waits for a frame, and has nothing that has arrived or waits to
/// leave.
pub proof fn law_fresh(id: int)
    ensures
        fresh(id).id == id,
        fresh(id).state == ClientState::PreHandshake,
        fresh(id).expect == Expect::Frame,
        fresh(id).rx.len() == 0,
        fresh(id).rx_start == 0,
        fresh(id).tx.len() == 0,
        fresh(id).wf(),
{
}

/// What arrives joins the end of what has arrived, and nothing else changes; what is read leaves
/// the front of it, and nothing else changes.
pub proof fn law_arrives_and_is_read(client: ClientView, data: Seq<u8>, n: int)
    requires
        0 <= client.rx_start < 1024,
        0 <= n <= client.rx.len() <= 1024,
    ensures
        ({
            let more = client.received(data);
            let less = client.consumed(n);
            &&& more.rx == client.rx + data
            &&& more.rx_start == client.rx_start
            &&& less.rx == client.rx.skip(n)
            &&& less.rx_start == (client.rx_start + n) % 1024
            &&& forall|c: ClientView|
                (c == more || c == less) ==> #[trigger] alike(c, client) && c.tx == client.tx
        }),
{
}

/// Whether two connections differ at most in what has arrived and what waits to leave.
pub open spec fn alike(a: ClientView, b: ClientView) -> bool {
    &&& a.id == b.id
    &&& a.state == b.state
    &&& a.expect == b.expect
    &&& a.payload_len == b.payload_len
    &&& a.masking_key == b.masking_key
}

/// Whether two connections differ at most in how far the frames that arrive have been read.
pub open spec fn reads_on(a: ClientView, b: ClientView) -> bool {
    a.id == b.id && a.state == b.state && a.tx == b.tx
}

/// A message is queued whole exactly where the 1024 bytes that can wait leave room for its head,
/// of two, four or ten bytes, and for its payload; else as much of it as fits. What waited before
/// stays in front, and nothing else changes.
pub proof fn law_queued(client: ClientView, size: nat, payload: Seq<u8>)
    requires
        client.tx.len() <= 1024,
    ensures
        ({
            let after = client.sent(size, payload);
            let all = client.tx + crate::frame::queued_head(size) + payload;
            let head: int = if size < 126 {
                2
            } else if size < 65536 {
                4
            } else {
                10
            };
            &&& all.len() == client.tx.len() + head + payload.len()
            &&& client.has_room(size, payload) <==> all.len() <= 1024
            &&& all.len() <= 1024 ==> after.tx == all
            &&& all.len() > 1024 ==> after.tx == all.take(1024)
            &&& alike(after, client)
            &&& after.rx == client.rx
            &&& after.rx_start == client.rx_start
        }),
{
    let head = crate::frame::queued_head(size);
    let all = client.tx + head + payload;
    let after = client.sent(size, payload);
    crate::frame::law_queued_head_bytes(size);
    if all.len() <= 1024 {
        assert(after.tx =~= all);
    } else {
        assert(after.tx =~= all.take(1024));
    }
}

/// A binary frame of fewer than 126 bytes that stands whole at the front of what has arrived
/// leads to its message, with whatever key it was masked and wherever it lies: byte `i` of the
/// payload has been combined with the key's byte `i % 4` where it lies before the end of the array
/// of 1024 places. So the payload stands at the front as the peer meant it, where none of it lies
/// behind that end. The bits of the head that do not matter, the mask bit among them, change
/// nothing.
pub proof fn law_binary_frame_delivered(
    client: ClientView,
    reserved: u8,
    masked: bool,
    key: Seq<u8>,
    payload: Seq<u8>,
)
    requires
        client.expect == Expect::Frame,
        0 <= client.rx_start < 1024,
        6 + payload.len() <= client.rx.len() <= 1024,
        payload.len() < 126,
        key.len() == 4,
        reserved < 8,
        client.rx[0] == 128 + 16 * reserved + 2,
        client.rx[1] == (if masked {
            128int
        } else {
            0
        }) + payload.len(),
        forall|i: int| 0 <= i < 4 ==> #[trigger] client.rx[2 + i] == key[i],
        forall|i: int|
            0 <= i < payload.len() ==> #[trigger] client.rx[6 + i] == payload[i] ^ key[i % 4],
    ensures
        ({
            let (after, step) = client.data_step();
            let place = (client.rx_start + 6) % 1024;
            &&& step == DataStep::Message
            &&& after.rx.len() == client.rx.len() - 6
            &&& after.rx_start == place
            &&& after.payload_len == payload.len()
            &&& after.expect == Expect::Payload
            &&& reads_on(after, client)
            &&& forall|i: int|
                0 <= i < payload.len() && place + i < 1024 ==> #[trigger] after.rx[i] == payload[i]
            &&& place + payload.len() <= 1024 ==> after.rx.take(payload.len() as int) == payload
            &&& forall|i: int|
                0 <= i < after.rx.len() ==> #[trigger] after.rx[i] == client.rx[6 + i] ^ key[(
                if place + i < 1024 {
                    i
                } else {
                    place + i - 1024
                }) % 4]
        }),
{
    let n = payload.len() as int;
    let place = (client.rx_start + 6) % 1024;
    let behind = client.rx.skip(6);
    crate::frame::law_head_by_bits(true, reserved, 2, masked, payload.len() as u8);
    assert(client.rx.skip(2).skip(4) =~= behind);
    assert(client.rx.skip(2).take(4) =~= key) by {
        assert forall|i: int| 0 <= i < 4 implies client.rx.skip(2).take(4)[i] == key[i] by {
            assert(client.rx[2 + i] == key[i]);
        }
    }
    crate::ring::lemma_advanced(client.rx_start, 2, 4);
    let after = client.data_step().0;
    assert(after.rx == crate::frame::unmasked_ring(behind, place, key));
    assert(after.rx.len() == behind.len());
    assert forall|i: int| 0 <= i < n && place + i < 1024 implies #[trigger] after.rx[i]
        == payload[i] by {
        crate::frame::law_unmasked_byte(behind, place, key, i);
        assert(behind[i] == client.rx[6 + i]);
        let a = payload[i];
        let k = key[i % 4];
        assert((a ^ k) ^ k == a) by (bit_vector);
    }
    if place + n <= 1024 {
        assert(after.rx.take(n) =~= payload);
    }
    assert forall|i: int| 0 <= i < after.rx.len() implies #[trigger] after.rx[i] == client.rx[6 + i]
        ^ key[(if place + i < 1024 {
        i
    } else {
        place + i - 1024
    }) % 4] by {
        crate::frame::law_unmasked_byte(behind, place, key, i);
        assert(behind[i] == client.rx[6 + i]);
    }
}

/// What a peer sends arrives: on a connection that waits for a frame, a masked binary frame of
/// fewer than 126 bytes, with any key, leads to the message that it was made from.
pub proof fn law_peer_frame_delivered(client: ClientView, key: Seq<u8>, payload: Seq<u8>)
    requires
        client.wf(),
        client.expect == Expect::Frame,
        client.rx.len() == 0,
        payload.len() < 126,
        key.len() == 4,
        (client.rx_start + 6) % 1024 + payload.len() <= 1024,
    ensures
        ({
            let frame = peer_frame(0x82, (128 + payload.len()) as u8, key, payload);
            let (after, step) = client.received(frame).data_step();
            &&& frame.len() == 6 + payload.len()
            &&& step == DataStep::Message
            &&& after.payload_len == payload.len()
            &&& after.rx == payload
        }),
{
    let frame = peer_frame(0x82, (128 + payload.len()) as u8, key, payload);
    let arrived = client.received(frame);
    assert(arrived.rx =~= frame);
    assert forall|i: int| 0 <= i < payload.len() implies #[trigger] arrived.rx[6 + i] == payload[i]
        ^ key[i % 4] by {
        crate::frame::law_masked_byte(payload, key, i);
    }
    law_binary_frame_delivered(arrived, 0, true, key, payload);
    let after = arrived.data_step().0;
    assert(after.rx =~= after.rx.take(payload.len() as int));
}

/// Any beginning of a binary frame leads to waiting for the rest of it, and what it says is kept:
/// nothing changes before two bytes are there, then the length is noted, and once the key is there
/// it is noted too.
pub proof fn law_part_of_frame_waits(client: ClientView, reserved: u8, masked: bool, n: u8)
    requires
        client.expect == Expect::Frame,
        0 <= client.rx_start < 1024,
        client.rx.len() < 6 + n,
        reserved < 8,
        n < 126,
        client.rx.len() >= 1 ==> client.rx[0] == 128 + 16 * reserved + 2,
        client.rx.len() >= 2 ==> client.rx[1] == (if masked {
            128int
        } else {
            0
        }) + n,
    ensures
        ({
            let (after, step) = client.data_step();
            let len = client.rx.len();
            &&& step == DataStep::Wait
            &&& len < 2 ==> after == client
            &&& len >= 2 ==> reads_on(after, client) && after.payload_len == n
            &&& 2 <= len < 6 ==> {
                &&& after.expect == Expect::MaskingKey
                &&& after.rx == client.rx.skip(2)
                &&& after.rx_start == (client.rx_start + 2) % 1024
                &&& after.masking_key == client.masking_key
            }
            &&& len >= 6 ==> {
                &&& after.expect == Expect::Payload
                &&& after.rx == client.rx.skip(6)
                &&& after.rx_start == (client.rx_start + 6) % 1024
                &&& after.masking_key == client.rx.subrange(2, 6)
            }
        }),
{
    crate::frame::law_head_by_bits(true, reserved, 2, masked, n);
    if client.rx.len() >= 6 {
        assert(client.rx.skip(2).skip(4) =~= client.rx.skip(6));
        assert(client.rx.skip(2).take(4) =~= client.rx.subrange(2, 6));
        crate::ring::lemma_advanced(client.rx_start, 2, 4);
    }
}

/// Where a masking key comes next, nothing happens before four bytes are there; they are the key,
/// and a payload comes next.
pub proof fn law_key_next(client: ClientView)
    requires
        client.expect == Expect::MaskingKey,
    ensures
        client.rx.len() < 4 ==> client.data_step() == (client, DataStep::Wait),
        client.rx.len() >= 4 ==> client.data_step() == (ClientView {
            expect: Expect::Payload,
            masking_key: client.rx.take(4),
            rx: client.rx.skip(4),
            rx_start: (client.rx_start + 4) % 1024,
            ..client
        }).data_step(),
{
}

/// Where a payload comes next, nothing happens before all of it is there; then all that has arrived
/// is unmasked, and a message stands at the front.
pub proof fn law_payload_next(client: ClientView)
    requires
        client.expect == Expect::Payload,
        0 <= client.rx_start < 1024,
        client.rx.len() <= 1024,
    ensures
        client.rx.len() < client.payload_len ==> client.data_step() == (client, DataStep::Wait),
        client.rx.len() >= client.payload_len ==> {
            let (after, step) = client.data_step();
            &&& step == DataStep::Message
            &&& alike(after, client)
            &&& after.tx == client.tx
            &&& after.rx_start == client.rx_start
            &&& after.rx.len() == client.rx.len()
            &&& forall|i: int|
                0 <= i < client.rx.len() ==> #[trigger] after.rx[i] == client.rx[i]
                    ^ client.masking_key[(if client.rx_start + i < 1024 {
                    i
                } else {
                    client.rx_start + i - 1024
                }) % 4]
        },
{
    if client.rx.len() >= client.payload_len {
        let after = client.data_step().0;
        assert forall|i: int| 0 <= i < client.rx.len() implies #[trigger] after.rx[i]
            == client.rx[i] ^ client.masking_key[(if client.rx_start + i < 1024 {
            i
        } else {
            client.rx_start + i - 1024
        }) % 4] by {
            crate::frame::law_unmasked_byte(client.rx, client.rx_start, client.masking_key, i);
        }
    }
}

/// Frames other than short binary ones are told by their first two bytes alone, which are then gone:
/// those that are not the last of their message, those that close, those of other opcodes, and those
/// with a longer length, behind which no frame is read again.
pub proof fn law_other_frames(
    client: ClientView,
    fin: bool,
    reserved: u8,
    opcode: u8,
    masked: bool,
    len: u8,
)
    requires
        client.expect == Expect::Frame,
        client.rx.len() >= 2,
        reserved < 8,
        opcode < 16,
        len < 128,
        client.rx[0] == (if fin {
            128int
        } else {
            0
        }) + 16 * reserved + opcode,
        client.rx[1] == (if masked {
            128int
        } else {
            0
        }) + len,
    ensures
        ({
            let (after, step) = client.data_step();
            &&& !fin ==> step == DataStep::Continuation
            &&& fin && opcode == 8 ==> step == DataStep::Close
            &&& fin && opcode != 2 && opcode != 8 ==> step == DataStep::UnknownOpcode
            &&& fin && opcode == 2 && len >= 126 ==> {
                &&& step == DataStep::LongPayload
                &&& forall|more: Seq<u8>| #[trigger]
                    after.received(more).data_step() == (
                        after.received(more),
                        DataStep::LongPayload,
                    )
            }
            &&& fin && opcode == 2 && len < 126 ==> step == DataStep::Wait || step
                == DataStep::Message
            &&& !(fin && opcode == 2 && len < 126) ==> after.rx == client.rx.skip(2) && reads_on(
                after,
                client,
            )
        }),
{
    crate::frame::law_head_by_bits(fin, reserved, opcode, masked, len);
}

/// The server reads on in what has arrived without touching what waits to leave, the slot or the
/// upgrade.
pub proof fn law_reading_keeps(client: ClientView)
    ensures
        reads_on(client.data_step().0, client),
{
}

} // verus!
