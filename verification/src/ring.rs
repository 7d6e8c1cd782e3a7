//! The byte queue that stands between a socket and its connection.
use ringbuf::storage::Array;
use ringbuf::traits::Observer;
use ringbuf::LocalRb;
use vstd::prelude::*;

verus! {

/// How many bytes a [`RingBuf`] can hold.
pub const CAPACITY: usize = 1024;

/// A first-in first-out queue of at most [`CAPACITY`] bytes.
///
/// The queue is a `ringbuf::LocalRb` over an array of 1024 bytes. What it holds is named
/// by [`ring_bytes`], and where in the array the oldest byte lies by [`ring_start`].
#[verifier::external_body]
pub struct RingBuf {
    ring: LocalRb<Array<u8, 1024>>,
}

/// The bytes that a queue holds, oldest first.
pub uninterp spec fn ring_bytes(ring: RingBuf) -> Seq<u8>;

/// The place in the array, counted from 0, where the oldest byte lies (or will lie).
pub uninterp spec fn ring_start(ring: RingBuf) -> int;

/// The smaller of two numbers.
pub open spec fn lesser(a: int, b: int) -> int {
    if a <= b {
        a
    } else {
        b
    }
}

/// Where the oldest byte lies once `n` bytes have left a queue whose oldest byte lay at
/// `start`.
pub open spec fn advanced(start: int, n: int) -> int {
    (start + n) % (CAPACITY as int)
}

/// Bytes that leave in two goes lead as far as they do in one.
pub proof fn lemma_advanced(start: int, n: int, m: int)
    ensures
        advanced(advanced(start, n), m) == advanced(start, n + m),
{
}

/// How many of `len` bytes lie between `start` and the end of the array; the others lie at
/// the array's beginning.
pub open spec fn front_len(start: int, len: int) -> int {
    lesser(len, CAPACITY - start)
}

impl RingBuf {
    /// Calls `LocalRb::default`: a fresh queue is empty, and its first byte will lie at the
    /// beginning of the array.
    #[verifier::external_body]
    pub(crate) fn new() -> (ring: RingBuf)
        ensures
            ring_bytes(ring) == Seq::<u8>::empty(),
            ring_start(ring) == 0,
    {
        RingBuf { ring: LocalRb::default() }
    }

    /// Calls `Observer::occupied_len`: the number of bytes held, which is never more than
    /// the array's length.
    #[verifier::external_body]
    pub(crate) fn occupied_len(&self) -> (n: usize)
        ensures
            n == ring_bytes(*self).len(),
            n <= CAPACITY,
    {
        self.ring.occupied_len()
    }

    /// Calls `LocalRb::push_slice`: as many of `data`'s first bytes as there is room for
    /// join the end of the queue, and their number comes back. Nothing that was there moves.
    #[verifier::external_body]
    pub(crate) fn push_slice(&mut self, data: &[u8]) -> (n: usize)
        ensures
            n == lesser(data@.len() as int, CAPACITY - ring_bytes(*old(self)).len()),
            ring_bytes(*final(self)) == ring_bytes(*old(self)) + data@.take(n as int),
            ring_start(*final(self)) == ring_start(*old(self)),
    {
        self.ring.push_slice(data)
    }

    /// Calls `LocalRb::pop_slice`: the oldest bytes, as many as there are and `out` can
    /// hold, move to the beginning of `out`, and their number comes back.
    #[verifier::external_body]
    pub(crate) fn pop_slice(&mut self, out: &mut [u8]) -> (n: usize)
        ensures
            n == lesser(old(out)@.len() as int, ring_bytes(*old(self)).len() as int),
            final(out)@ == ring_bytes(*old(self)).take(n as int) + old(out)@.skip(n as int),
            ring_bytes(*final(self)) == ring_bytes(*old(self)).skip(n as int),
            ring_start(*final(self)) == advanced(ring_start(*old(self)), n as int),
    {
        self.ring.pop_slice(out)
    }

    /// Calls `LocalRb::peek_slice`: as `pop_slice`, but the bytes are copied and stay.
    #[verifier::external_body]
    pub(crate) fn peek_slice(&mut self, out: &mut [u8]) -> (n: usize)
        ensures
            n == lesser(old(out)@.len() as int, ring_bytes(*old(self)).len() as int),
            final(out)@ == ring_bytes(*old(self)).take(n as int) + old(out)@.skip(n as int),
            ring_bytes(*final(self)) == ring_bytes(*old(self)),
            ring_start(*final(self)) == ring_start(*old(self)),
    {
        self.ring.peek_slice(out)
    }

    /// Calls `LocalRb::skip`: the oldest `count` bytes leave the queue, or all where there
    /// are fewer, and the number of those that left comes back.
    #[verifier::external_body]
    pub(crate) fn skip(&mut self, count: usize) -> (n: usize)
        ensures
            n == lesser(count as int, ring_bytes(*old(self)).len() as int),
            ring_bytes(*final(self)) == ring_bytes(*old(self)).skip(n as int),
            ring_start(*final(self)) == advanced(ring_start(*old(self)), n as int),
    {
        self.ring.skip(count)
    }

    /// Calls `LocalRb::as_mut_slices`: the two stretches of the array that hold the queue's
    /// bytes in order, the first up to the array's end at most and the second, empty unless
    /// the first reaches that end, from the array's beginning. What is written through them
    /// is what the queue then holds.
    #[verifier::external_body]
    pub(crate) fn as_mut_slices(&mut self) -> (parts: (&mut [u8], &mut [u8]))
        ensures
            parts.0@ + parts.1@ == ring_bytes(*old(self)),
            parts.0@.len() == front_len(
                ring_start(*old(self)),
                ring_bytes(*old(self)).len() as int,
            ),
            ring_bytes(*final(self)) == final(parts.0)@ + final(parts.1)@,
            ring_start(*final(self)) == ring_start(*old(self)),
    {
        self.ring.as_mut_slices()
    }
}

/// The lesser of two numbers is one of them and no more than either.
pub proof fn law_lesser(a: int, b: int)
    ensures
        lesser(a, b) <= a,
        lesser(a, b) <= b,
        lesser(a, b) == a || lesser(a, b) == b,
{
}

/// The array has 1024 places. Bytes that leave move the front on by as many places, around the end
/// of the array where they reach it; and the bytes held lie in one stretch unless they reach around
/// that end, where the first stretch stops.
pub proof fn law_places(start: int, n: int, len: int)
    requires
        0 <= start < 1024,
        0 <= n <= 1024,
        0 <= len <= 1024,
    ensures
        CAPACITY == 1024,
        start + n < 1024 ==> advanced(start, n) == start + n,
        start + n >= 1024 ==> advanced(start, n) == start + n - 1024,
        start + len <= 1024 ==> front_len(start, len) == len,
        start + len > 1024 ==> front_len(start, len) == 1024 - start,
{
}

} // verus!
