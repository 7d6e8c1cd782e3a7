//! WebSocket frames: the heads of those that leave, the heads and the masking of those that
//! arrive.
use crate::bytes::{to_be_bytes, to_le_bytes};
use crate::ring::RingBuf;
use vstd::arithmetic::power::pow;
use vstd::prelude::*;

verus! {

/// The first byte of every frame that leaves: the last of its message, holding binary data.
pub const FINAL_BINARY: u8 = 0x82;

/// How many bytes a masking key has.
pub const KEY_LEN: usize = 4;

/// What the first two bytes of a frame say.
#[derive(Clone, Copy, Debug, PartialEq, Eq, Structural)]
pub enum FrameHead {
    /// Not the last frame of its message.
    Continuation,
    /// The peer closes the connection.
    Close,
    /// Neither binary data nor a close.
    UnknownOpcode,
    /// Binary data of this length, less than 126.
    Short(u8),
    /// Binary data whose length follows in two bytes.
    Length16,
    /// Binary data whose length follows in eight bytes.
    Length64,
}

/// What `first` and `second` say at the beginning of a frame: the top bit of `first` is set
/// on the last frame of a message, its low four bits are the opcode, and the low seven bits
/// of `second` are the length or stand for a longer one.
pub open spec fn frame_head(first: u8, second: u8) -> FrameHead {
    let opcode = first % 16;
    let len = second % 128;
    if first < 128 {
        FrameHead::Continuation
    } else if opcode == 8 {
        FrameHead::Close
    } else if opcode != 2 {
        FrameHead::UnknownOpcode
    } else if len < 126 {
        FrameHead::Short(len)
    } else if len == 126 {
        FrameHead::Length16
    } else {
        FrameHead::Length64
    }
}

/// Reads the first two bytes of a frame.
pub fn parse_head(first: u8, second: u8) -> (head: FrameHead)
    ensures
        head == frame_head(first, second),
{
    assert(first >> 7 & 1 == 1 <==> first >= 128) by (bit_vector);
    assert(first & 0b1111 == first % 16) by (bit_vector);
    assert(second & 0b0111_1111 == second % 128) by (bit_vector);
    if first >> 7 & 1 != 1 {
        return FrameHead::Continuation;
    }
    let opcode: u8 = first & 0b1111;
    if opcode == 8 {
        return FrameHead::Close;
    }
    if opcode != 2 {
        return FrameHead::UnknownOpcode;
    }
    let len: u8 = second & 0b0111_1111;
    if len < 126 {
        FrameHead::Short(len)
    } else if len == 126 {
        FrameHead::Length16
    } else {
        FrameHead::Length64
    }
}

/// The head of a queued frame that announces `size` bytes: a longer length stands in it
/// lowest byte first.
pub open spec fn queued_head(size: nat) -> Seq<u8> {
    if size < 126 {
        seq![FINAL_BINARY, size as u8]
    } else if size <= u16::MAX {
        seq![FINAL_BINARY, 126u8] + crate::bytes::le_bytes(size, 2)
    } else {
        seq![FINAL_BINARY, 127u8] + crate::bytes::le_bytes(size, 8)
    }
}

/// Builds the head of a queued frame.
pub fn make_queued_head(size: usize) -> (head: Vec<u8>)
    ensures
        head@ == queued_head(size as nat),
{
    let mut head: Vec<u8> = Vec::new();
    head.push(FINAL_BINARY);
    if size < 126 {
        head.push(size as u8);
        assert(head@ =~= queued_head(size as nat));
    } else if size <= u16::MAX as usize {
        head.push(126);
        let mut len = to_le_bytes(size as u64, 2);
        head.append(&mut len);
        assert(head@ =~= queued_head(size as nat));
    } else {
        head.push(127);
        let mut len = to_le_bytes(size as u64, 8);
        head.append(&mut len);
        assert(head@ =~= queued_head(size as nat));
    }
    head
}

/// The stretches in which the head of a directly written frame of `len` bytes goes out: a
/// longer length stands in a stretch of its own, highest byte first.
pub open spec fn direct_head(len: nat) -> Seq<Seq<u8>> {
    if len < 128 {
        seq![seq![FINAL_BINARY, len as u8]]
    } else if len <= u16::MAX {
        seq![seq![FINAL_BINARY, 126u8], crate::bytes::be_bytes(len, 2)]
    } else {
        seq![seq![FINAL_BINARY, 127u8], crate::bytes::be_bytes(len, 8)]
    }
}

/// The bytes of each vector.
pub open spec fn views(pieces: Seq<Vec<u8>>) -> Seq<Seq<u8>> {
    pieces.map_values(|piece: Vec<u8>| piece@)
}

/// Builds the head of a directly written frame.
pub fn make_direct_head(len: usize) -> (pieces: Vec<Vec<u8>>)
    ensures
        views(pieces@) == direct_head(len as nat),
{
    let mut pieces: Vec<Vec<u8>> = Vec::new();
    let mut start: Vec<u8> = Vec::new();
    start.push(FINAL_BINARY);
    if len < 128 {
        start.push(len as u8);
        assert(start@ =~= seq![FINAL_BINARY, len as u8]);
        pieces.push(start);
    } else if len <= u16::MAX as usize {
        start.push(126);
        assert(start@ =~= seq![FINAL_BINARY, 126u8]);
        pieces.push(start);
        pieces.push(to_be_bytes(len as u64, 2));
    } else {
        start.push(127);
        assert(start@ =~= seq![FINAL_BINARY, 127u8]);
        pieces.push(start);
        pieces.push(to_be_bytes(len as u64, 8));
    }
    assert(views(pieces@) =~= direct_head(len as nat));
    pieces
}

/// `data` with each byte combined with the key's bytes in turn, beginning with the key's
/// first.
pub open spec fn masked(data: Seq<u8>, key: Seq<u8>) -> Seq<u8> {
    Seq::new(data.len(), |i: int| data[i] ^ key[i % (KEY_LEN as int)])
}

/// Masks, or unmasks, `part` in place.
pub fn mask(part: &mut [u8], key: &[u8; 4])
    ensures
        final(part)@ == masked(old(part)@, key@),
{
    let ghost data = part@;
    let n: usize = part.len();
    let mut i: usize = 0;
    while i < n
        invariant
            i <= n,
            n == data.len(),
            part@.len() == n,
            forall|j: int| 0 <= j < i ==> part@[j] == data[j] ^ key@[j % 4],
            forall|j: int| i <= j < n ==> part@[j] == data[j],
        decreases n - i,
    {
        part[i] = part[i] ^ key[i % 4];
        i = i + 1;
    }
    assert(part@ =~= masked(data, key@));
}

/// The bytes of a queue after every stretch of it has been unmasked. The oldest byte lies at
/// `start`; each of the two stretches begins with the key's first byte.
pub open spec fn unmasked_ring(bytes: Seq<u8>, start: int, key: Seq<u8>) -> Seq<u8> {
    let front = crate::ring::front_len(start, bytes.len() as int);
    masked(bytes.take(front), key) + masked(bytes.skip(front), key)
}

/// Unmasks all that a queue holds.
pub(crate) fn unmask_ring(ring: &mut RingBuf, key: &[u8; 4])
    ensures
        crate::ring::ring_bytes(*final(ring)) == unmasked_ring(
            crate::ring::ring_bytes(*old(ring)),
            crate::ring::ring_start(*old(ring)),
            key@,
        ),
        crate::ring::ring_start(*final(ring)) == crate::ring::ring_start(*old(ring)),
{
    let ghost bytes = crate::ring::ring_bytes(*ring);
    let (front, back) = ring.as_mut_slices();
    assert(front@ =~= bytes.take(front@.len() as int));
    assert(back@ =~= bytes.skip(front@.len() as int));
    mask(front, key);
    mask(back, key);
}

/// Masking with one key twice changes nothing.
pub proof fn law_mask_twice(data: Seq<u8>, key: Seq<u8>)
    ensures
        masked(masked(data, key), key) == data,
{
    assert forall|i: int| 0 <= i < data.len() implies masked(masked(data, key), key)[i]
        == data[i] by {
        let a = data[i];
        let k = key[i % (KEY_LEN as int)];
        assert((a ^ k) ^ k == a) by (bit_vector);
    }
    assert(masked(masked(data, key), key) =~= data);
}

/// Of two keys only the one that a byte was masked with gives it back.
proof fn lemma_unmask(a: u8, k: u8, l: u8)
    ensures
        (a ^ k) ^ l == a <==> k == l,
{
    assert((a ^ k) ^ l == a <==> k == l) by (bit_vector);
}

/// The byte of the key that meets byte `i` of a queue whose first stretch has `front` bytes.
pub open spec fn key_at(key: Seq<u8>, front: int, i: int) -> u8 {
    if i < front {
        key[i % (KEY_LEN as int)]
    } else {
        key[(i - front) % (KEY_LEN as int)]
    }
}

/// Unmasking combines each byte of a queue with the byte of the key that meets it.
proof fn lemma_unmasked_at(bytes: Seq<u8>, start: int, key: Seq<u8>, i: int)
    requires
        0 <= start < crate::ring::CAPACITY,
        0 <= i < bytes.len(),
    ensures
        unmasked_ring(bytes, start, key).len() == bytes.len(),
        unmasked_ring(bytes, start, key)[i] == bytes[i] ^ key_at(
            key,
            crate::ring::front_len(start, bytes.len() as int),
            i,
        ),
{
    let front = crate::ring::front_len(start, bytes.len() as int);
    if i >= front {
        assert(bytes.skip(front)[i - front] == bytes[i]);
    } else {
        assert(bytes.take(front)[i] == bytes[i]);
    }
}

/// A byte of a masked payload at the front of a queue comes back where the key meets it as it
/// did when the payload was masked, and only there.
proof fn lemma_byte_comes_back(
    payload: Seq<u8>,
    rest: Seq<u8>,
    start: int,
    key: Seq<u8>,
    i: int,
)
    requires
        0 <= start < crate::ring::CAPACITY,
        0 <= i < payload.len(),
    ensures
        ({
            let bytes = masked(payload, key) + rest;
            let front = crate::ring::front_len(start, bytes.len() as int);
            unmasked_ring(bytes, start, key)[i] == payload[i] <==> key[i % (KEY_LEN as int)]
                == key_at(key, front, i)
        }),
{
    let bytes = masked(payload, key) + rest;
    let front = crate::ring::front_len(start, bytes.len() as int);
    lemma_unmasked_at(bytes, start, key, i);
    assert(bytes[i] == payload[i] ^ key[i % (KEY_LEN as int)]);
    lemma_unmask(payload[i], key[i % (KEY_LEN as int)], key_at(key, front, i));
}

/// Whether the key meets each byte of a payload of `len` bytes as it did when the payload was
/// masked, although it begins anew behind the first `front` bytes.
pub open spec fn key_meets(key: Seq<u8>, front: int, len: int) -> bool {
    forall|i: int|
        front <= i < len ==> #[trigger] key[i % (KEY_LEN as int)] == key[(i - front) % (
        KEY_LEN as int)]
}

/// A masked payload at the front of a queue comes back as it was wherever the key meets it
/// rightly, as it does where the payload does not reach around the array's end, and only
/// there.
#[verifier::spinoff_prover]
pub proof fn law_payload_comes_back(
    payload: Seq<u8>,
    rest: Seq<u8>,
    start: int,
    key: Seq<u8>,
)
    requires
        0 <= start < crate::ring::CAPACITY,
        key.len() == KEY_LEN,
    ensures
        ({
            let bytes = masked(payload, key) + rest;
            let front = crate::ring::front_len(start, bytes.len() as int);
            &&& unmasked_ring(bytes, start, key).len() == bytes.len()
            &&& unmasked_ring(bytes, start, key).take(payload.len() as int) == payload
                <==> key_meets(key, front, payload.len() as int)
            &&& payload.len() <= front ==> key_meets(key, front, payload.len() as int)
        }),
{
    let n = payload.len() as int;
    let bytes = masked(payload, key) + rest;
    let front = crate::ring::front_len(start, bytes.len() as int);
    let out = unmasked_ring(bytes, start, key);
    assert(out.len() == bytes.len());
    if key_meets(key, front, n) {
        assert forall|i: int| 0 <= i < n implies out.take(n)[i] == payload[i] by {
            lemma_byte_comes_back(payload, rest, start, key, i);
            if i >= front {
                assert(key[i % (KEY_LEN as int)] == key[(i - front) % (KEY_LEN as int)]);
            }
        }
        assert(out.take(n) =~= payload);
    }
    if out.take(n) == payload {
        assert forall|i: int| front <= i < n implies #[trigger] key[i % (KEY_LEN as int)]
            == key[(i - front) % (KEY_LEN as int)] by {
            lemma_byte_comes_back(payload, rest, start, key, i);
            assert(out.take(n)[i] == out[i]);
        }
    }
}

/// Whether the key leaves every byte as it is, from number `from` up to number `to`.
pub open spec fn key_spares(key: Seq<u8>, front: int, from: int, to: int) -> bool {
    forall|i: int| from <= i < to ==> #[trigger] key_at(key, front, i) == 0
}

/// What stands behind the first `n` bytes of a queue is left as it was by unmasking wherever
/// all of the key that meets it is 0, and only there.
pub proof fn law_rest_kept(bytes: Seq<u8>, n: int, start: int, key: Seq<u8>)
    requires
        0 <= n <= bytes.len(),
        0 <= start < crate::ring::CAPACITY,
        key.len() == KEY_LEN,
    ensures
        ({
            let front = crate::ring::front_len(start, bytes.len() as int);
            unmasked_ring(bytes, start, key).skip(n) == bytes.skip(n) <==> key_spares(
                key,
                front,
                n,
                bytes.len() as int,
            )
        }),
{
    let front = crate::ring::front_len(start, bytes.len() as int);
    let out = unmasked_ring(bytes, start, key);
    assert forall|i: int| n <= i < bytes.len() implies (#[trigger] out[i] == bytes[i] <==> key_at(
        key,
        front,
        i,
    ) == 0) by {
        let a = bytes[i];
        let k = key_at(key, front, i);
        lemma_unmasked_at(bytes, start, key, i);
        assert(a ^ k == a <==> k == 0) by (bit_vector);
    }
    if key_spares(key, front, n, bytes.len() as int) {
        assert forall|i: int| n <= i < bytes.len() implies #[trigger] out[i] == bytes[i] by {
            assert(key_at(key, front, i) == 0);
        }
        assert(out.skip(n) =~= bytes.skip(n));
    }
    if out.skip(n) == bytes.skip(n) {
        assert forall|i: int| n <= i < bytes.len() implies #[trigger] key_at(key, front, i)
            == 0 by {
            assert(out.skip(n)[i - n] == out[i]);
            assert(bytes.skip(n)[i - n] == bytes[i]);
        }
    }
}

/// All stretches one after the other.
pub open spec fn joined(pieces: Seq<Seq<u8>>) -> Seq<u8>
    decreases pieces.len(),
{
    if pieces.len() == 0 {
        Seq::empty()
    } else {
        joined(pieces.drop_last()) + pieces.last()
    }
}

/// Where the payload of an unmasked frame begins, by the protocol.
pub open spec fn payload_start(frame: Seq<u8>) -> int {
    let n = frame[1] % 128;
    if n < 126 {
        2
    } else if n == 126 {
        4
    } else {
        10
    }
}

/// How long the payload of an unmasked frame is, by the protocol.
pub open spec fn payload_len(frame: Seq<u8>) -> nat {
    let n = frame[1] % 128;
    if n < 126 {
        n as nat
    } else {
        crate::bytes::be_value(frame.subrange(2, payload_start(frame)))
    }
}

/// Whether a peer that goes by the protocol reads `frame` as one message, `payload`.
pub open spec fn reads_as(frame: Seq<u8>, payload: Seq<u8>) -> bool {
    &&& frame.len() >= 2
    &&& frame[0] == FINAL_BINARY
    &&& payload_start(frame) <= frame.len()
    &&& payload_len(frame) == frame.len() - payload_start(frame)
    &&& frame.skip(payload_start(frame)) == payload
}

/// A directly written frame is read as the message that it was made from, unless that is 126
/// or 127 bytes long, and then it is not.
pub proof fn law_direct_frame_read(data: Seq<u8>)
    requires
        data.len() <= u64::MAX,
    ensures
        reads_as(joined(direct_head(data.len()).push(data)), data) <==> data.len() != 126
            && data.len() != 127,
{
    let n = data.len();
    let head = direct_head(n);
    let pieces = head.push(data);
    let frame = joined(pieces);
    reveal_with_fuel(joined, 4);
    assert(pieces.drop_last() =~= head);
    if n < 128 {
        assert(head.drop_last() =~= Seq::<Seq<u8>>::empty());
        assert(frame =~= seq![FINAL_BINARY, n as u8] + data);
        assert(frame.skip(2) =~= data);
        assert(n >= 126 ==> frame.skip(payload_start(frame)).len() < n);
    } else {
        let width = length_width(n);
        let mark: u8 = if width == 2 {
            126
        } else {
            127
        };
        let len = crate::bytes::be_bytes(n, width);
        crate::bytes::lemma_width(n, width);
        lemma_spans();
        crate::bytes::law_be_value_of_be_bytes(n, width);
        assert(head.drop_last() =~= seq![seq![FINAL_BINARY, mark]]);
        assert(head.drop_last().drop_last() =~= Seq::<Seq<u8>>::empty());
        assert(frame =~= seq![FINAL_BINARY, mark] + len + data);
        assert(frame.subrange(2, 2 + width as int) =~= len);
        assert(frame.skip(2 + width as int) =~= data);
    }
}

/// What two and eight digits can tell apart.
proof fn lemma_spans()
    ensures
        crate::bytes::span(2) == u16::MAX + 1,
        crate::bytes::span(8) == u64::MAX + 1,
{
    reveal_with_fuel(crate::bytes::span, 9);
}

/// How many bytes a longer length takes in the head of a frame.
pub open spec fn length_width(len: nat) -> nat {
    if len <= u16::MAX {
        2
    } else {
        8
    }
}

/// A queued frame is read as the message that it was made from where the message is shorter
/// than 126 bytes, or the bytes of its length are the same from either end, and only there.
pub proof fn law_queued_frame_read(payload: Seq<u8>)
    requires
        payload.len() <= u64::MAX,
    ensures
        reads_as(queued_head(payload.len()) + payload, payload) <==> payload.len() < 126
            || crate::bytes::le_bytes(payload.len(), length_width(payload.len()))
            == crate::bytes::be_bytes(payload.len(), length_width(payload.len())),
{
    let n = payload.len();
    let frame = queued_head(n) + payload;
    if n < 126 {
        assert(frame.skip(2) =~= payload);
    } else {
        let width = length_width(n);
        let len = crate::bytes::le_bytes(n, width);
        crate::bytes::lemma_width(n, width);
        lemma_spans();
        crate::bytes::law_be_value_of_be_bytes(n, width);
        assert(frame.subrange(2, 2 + width as int) =~= len);
        assert(frame.skip(2 + width as int) =~= payload);
        if reads_as(frame, payload) {
            crate::bytes::law_digits_decide(len, crate::bytes::be_bytes(n, width));
        }
    }
}

/// The server reads the head of a frame that it wrote itself, of fewer than 126 bytes, as one
/// of that length.
pub proof fn law_own_head_read(size: nat)
    requires
        size < 126,
    ensures
        queued_head(size).len() == 2,
        frame_head(queued_head(size)[0], queued_head(size)[1]) == FrameHead::Short(size as u8),
        direct_head(size) == seq![queued_head(size)],
{
    assert(direct_head(size) =~= seq![queued_head(size)]);
}

/// What the first two bytes of a frame say, by the bits that they are made of: whether the frame is
/// the last of its message, three bits that do not matter, the opcode; whether the payload is
/// masked, which does not matter, and the length.
pub proof fn law_head_by_bits(fin: bool, reserved: u8, opcode: u8, masked: bool, len: u8)
    requires
        reserved < 8,
        opcode < 16,
        len < 128,
    ensures
        ({
            let top: int = if fin {
                128
            } else {
                0
            };
            let mask_bit: int = if masked {
                128
            } else {
                0
            };
            let head = frame_head(
                (top + 16 * reserved + opcode) as u8,
                (mask_bit + len) as u8,
            );
            &&& !fin ==> head == FrameHead::Continuation
            &&& fin && opcode == 8 ==> head == FrameHead::Close
            &&& fin && opcode != 2 && opcode != 8 ==> head == FrameHead::UnknownOpcode
            &&& fin && opcode == 2 && len < 126 ==> head == FrameHead::Short(len)
            &&& fin && opcode == 2 && len == 126 ==> head == FrameHead::Length16
            &&& fin && opcode == 2 && len == 127 ==> head == FrameHead::Length64
        }),
{
}

/// The head that a peer puts before a masked binary payload of `n` bytes, fewer than 126, is read
/// as such.
pub proof fn law_peer_head(n: nat)
    requires
        n < 126,
    ensures
        frame_head(0x82, (128 + n) as u8) == FrameHead::Short(n as u8),
{
}

/// The head of a queued frame, byte by byte.
pub proof fn law_queued_head_bytes(size: nat)
    ensures
        size < 126 ==> queued_head(size) == seq![0x82u8, size as u8],
        126 <= size < 65536 ==> queued_head(size) == seq![
            0x82u8,
            126u8,
            (size % 256) as u8,
            (size / 256) as u8,
        ],
        size >= 65536 ==> {
            &&& queued_head(size).len() == 10
            &&& queued_head(size)[0] == 0x82
            &&& queued_head(size)[1] == 127
            &&& forall|i: int|
                0 <= i < 8 ==> (#[trigger] queued_head(size)[2 + i]) as int == size as int / pow(
                    256,
                    i as nat,
                ) % 256
        },
{
    let head = queued_head(size);
    if size < 126 {
        assert(head =~= seq![0x82u8, size as u8]);
    } else if size < 65536 {
        reveal_with_fuel(crate::bytes::le_bytes, 3);
        assert(head =~= seq![0x82u8, 126u8, (size % 256) as u8, (size / 256) as u8]);
    } else {
        crate::bytes::lemma_width(size, 8);
        assert forall|i: int| 0 <= i < 8 implies (#[trigger] head[2 + i]) as int == size as int
            / pow(256, i as nat) % 256 by {
            crate::bytes::law_le_digit(size, 8, i);
            assert(head[2 + i] == crate::bytes::le_bytes(size, 8)[i]);
        }
    }
}

/// The head of a directly written frame, byte by byte, in the stretches in which it goes out.
pub proof fn law_direct_head_bytes(len: nat)
    ensures
        len < 128 ==> direct_head(len) == seq![seq![0x82u8, len as u8]],
        128 <= len < 65536 ==> direct_head(len) == seq![
            seq![0x82u8, 126u8],
            seq![(len / 256) as u8, (len % 256) as u8],
        ],
        len >= 65536 ==> {
            &&& direct_head(len).len() == 2
            &&& direct_head(len)[0] == seq![0x82u8, 127u8]
            &&& direct_head(len)[1].len() == 8
            &&& forall|i: int|
                0 <= i < 8 ==> (#[trigger] direct_head(len)[1][7 - i]) as int == len as int / pow(
                    256,
                    i as nat,
                ) % 256
        },
{
    let head = direct_head(len);
    if len < 128 {
        assert(head =~= seq![seq![0x82u8, len as u8]]);
    } else if len < 65536 {
        reveal_with_fuel(crate::bytes::be_bytes, 3);
        assert(head[1] =~= seq![(len / 256) as u8, (len % 256) as u8]);
        assert(head[0] =~= seq![0x82u8, 126u8]);
        assert(head =~= seq![
            seq![0x82u8, 126u8],
            seq![(len / 256) as u8, (len % 256) as u8],
        ]);
    } else {
        crate::bytes::lemma_width(len, 8);
        assert(head[0] =~= seq![0x82u8, 127u8]);
        assert forall|i: int| 0 <= i < 8 implies (#[trigger] head[1][7 - i]) as int == len as int
            / pow(256, i as nat) % 256 by {
            crate::bytes::law_be_digit(len, 8, i);
        }
    }
}

/// Masking combines byte `i` with byte `i % 4` of the key.
pub proof fn law_masked_byte(data: Seq<u8>, key: Seq<u8>, i: int)
    requires
        0 <= i < data.len(),
    ensures
        masked(data, key).len() == data.len(),
        masked(data, key)[i] == data[i] ^ key[i % 4],
{
}

/// Unmasking what a queue holds combines byte `i` with byte `i % 4` of the key where it lies before
/// the end of the array of 1024 places, and counts from the array's beginning where it lies behind.
pub proof fn law_unmasked_byte(bytes: Seq<u8>, start: int, key: Seq<u8>, i: int)
    requires
        0 <= start < 1024,
        0 <= i < bytes.len() <= 1024,
    ensures
        unmasked_ring(bytes, start, key).len() == bytes.len(),
        start + i < 1024 ==> unmasked_ring(bytes, start, key)[i] == bytes[i] ^ key[i % 4],
        start + i >= 1024 ==> unmasked_ring(bytes, start, key)[i] == bytes[i] ^ key[(start + i
            - 1024) % 4],
{
    lemma_unmasked_at(bytes, start, key, i);
}

/// The bytes of each vector stand where the vector does.
pub proof fn law_views(pieces: Seq<Vec<u8>>, i: int)
    requires
        0 <= i < pieces.len(),
    ensures
        views(pieces).len() == pieces.len(),
        views(pieces)[i] == pieces[i]@,
{
}

} // verus!
