//! The opening handshake of a WebSocket connection.
use crate::http::{websocket_key, RequestText};
use base64::prelude::{Engine, BASE64_STANDARD};
use sha1::{Digest, Sha1};
use vstd::prelude::*;
use vstd::string::*;
use vstd::utf8::*;

verus! {

/// The SHA-1 digest of some bytes.
pub uninterp spec fn sha1_of(data: Seq<u8>) -> Seq<u8>;

/// Calls `Sha1::digest`: 20 bytes that depend on `data` alone.
#[verifier::external_body]
fn sha1_digest(data: &[u8]) -> (digest: Vec<u8>)
    ensures
        digest@ == sha1_of(data@),
        digest@.len() == 20,
{
    Sha1::digest(data).to_vec()
}

/// The symbol that the standard base64 alphabet has for a number below 64.
pub open spec fn base64_symbol(n: int) -> char {
    if n < 26 {
        ('A' as int + n) as char
    } else if n < 52 {
        ('a' as int + n - 26) as char
    } else if n < 62 {
        ('0' as int + n - 52) as char
    } else if n == 62 {
        '+'
    } else {
        '/'
    }
}

/// The `i`th group of six bits in `data`, which is read from each byte's top bit down and
/// goes on with zeros.
pub open spec fn six_bits(data: Seq<u8>, i: int) -> int {
    let byte = |k: int|
        if k < data.len() {
            data[k] as int
        } else {
            0
        };
    let first = i / 4 * 3;
    let word = byte(first) * 65536 + byte(first + 1) * 256 + byte(first + 2);
    if i % 4 == 0 {
        word / 262144
    } else if i % 4 == 1 {
        word / 4096 % 64
    } else if i % 4 == 2 {
        word / 64 % 64
    } else {
        word % 64
    }
}

/// `data` in base64, with the standard alphabet: a symbol for each six bits that `data`
/// reaches into, and `=` up to a multiple of four.
pub open spec fn base64_of(data: Seq<u8>) -> Seq<char> {
    Seq::new(
        4 * ((data.len() + 2) / 3),
        |i: int|
            if 6 * i < 8 * data.len() {
                base64_symbol(six_bits(data, i))
            } else {
                '='
            },
    )
}

/// Calls `encode` of `BASE64_STANDARD`, the engine with the standard alphabet and padding.
#[verifier::external_body]
fn base64_encode(data: &[u8]) -> (text: String)
    requires
        4 * ((data@.len() + 2) / 3) <= isize::MAX,
    ensures
        text@ == base64_of(data@),
{
    BASE64_STANDARD.encode(data)
}

/// What a server appends to a key before it takes the digest.
pub open spec fn guid() -> Seq<char> {
    "258EAFA5-E914-47DA-95CA-C5AB0DC85B11"@
}

/// The bytes whose digest answers `key`.
pub open spec fn challenge(key: Seq<char>) -> Seq<u8> {
    encode_utf8(key) + encode_utf8(guid())
}

/// The text that answers `key`.
pub open spec fn accept_of(key: Seq<char>) -> Seq<char> {
    base64_of(sha1_of(challenge(key)))
}

/// The reply that completes the handshake with `accept`.
pub open spec fn upgrade_reply(accept: Seq<char>) -> Seq<char> {
    "HTTP/1.1 101 Switching Protocols\r\nUpgrade: websocket\r\nConnection: Upgrade\r\nSec-WebSocket-Accept: "@
        + accept + "\r\n\r\n"@
}

/// Builds the bytes whose digest answers `key`.
pub fn make_challenge(key: &str) -> (bytes: Vec<u8>)
    ensures
        bytes@ == challenge(key@),
{
    let mut bytes = key.as_bytes_vec();
    let mut tail = "258EAFA5-E914-47DA-95CA-C5AB0DC85B11".as_bytes_vec();
    bytes.append(&mut tail);
    bytes
}

/// Answers a key whose digest is `digest`.
pub fn make_reply(digest: &Vec<u8>) -> (reply: String)
    requires
        4 * ((digest@.len() + 2) / 3) <= isize::MAX,
    ensures
        reply@ == upgrade_reply(base64_of(digest@)),
{
    let accept = base64_encode(digest.as_slice());
    let mut reply =
        "HTTP/1.1 101 Switching Protocols\r\nUpgrade: websocket\r\nConnection: Upgrade\r\nSec-WebSocket-Accept: ".to_owned();
    reply.append(accept.as_str());
    reply.append("\r\n\r\n");
    reply
}

/// Answers a request to upgrade the connection, unless it brings no key.
pub fn do_handshake(request: &RequestText) -> (reply: Option<String>)
    ensures
        match crate::http::key_among(crate::text::lines(request@)) {
            None => reply is None,
            Some(key) => {
                &&& reply is Some
                &&& reply->0@ == upgrade_reply(accept_of(key))
                &&& sha1_of(challenge(key)).len() == 20
                &&& accept_of(key).len() == 28
            },
        },
{
    match websocket_key(request) {
        None => None,
        Some(key) => {
            let bytes = make_challenge(key.as_str());
            let digest = sha1_digest(bytes.as_slice());
            Some(make_reply(&digest))
        },
    }
}

/// The text that answers a key has 28 characters, of which the last, and it alone, is padding.
pub proof fn law_accept_form(digest: Seq<u8>)
    requires
        digest.len() == 20,
    ensures
        base64_of(digest).len() == 28,
        forall|i: int| 0 <= i < 28 ==> (#[trigger] base64_of(digest)[i] == '=' <==> i == 27),
{
    assert forall|i: int| 0 <= i < 27 implies #[trigger] base64_of(digest)[i] != '=' by {
        assert(0 <= six_bits(digest, i) < 64);
    }
}

/// The answer to a key is the digest of the key's bytes and those of a fixed text behind them, in
/// base64.
pub proof fn law_answer(key: Seq<char>)
    ensures
        challenge(key) == encode_utf8(key) + encode_utf8("258EAFA5-E914-47DA-95CA-C5AB0DC85B11"@),
        accept_of(key) == base64_of(
            sha1_of(encode_utf8(key) + encode_utf8("258EAFA5-E914-47DA-95CA-C5AB0DC85B11"@)),
        ),
{
}

/// Who reads the reply that completes the handshake finds the change of protocol on its first three
/// lines, the answer to the key on the fourth, and then an empty line and nothing else.
pub proof fn law_reply_read(accept: Seq<char>)
    requires
        !accept.contains('\n'),
    ensures
        crate::text::lines(upgrade_reply(accept)) == seq![
            "HTTP/1.1 101 Switching Protocols"@,
            "Upgrade: websocket"@,
            "Connection: Upgrade"@,
            "Sec-WebSocket-Accept: "@ + accept,
            Seq::<char>::empty(),
        ],
        upgrade_reply(accept) == "HTTP/1.1 101 Switching Protocols"@ + "\r\n"@ + (
        "Upgrade: websocket"@ + "\r\n"@ + ("Connection: Upgrade"@ + "\r\n"@ + (
        "Sec-WebSocket-Accept: "@ + accept + "\r\n"@ + (Seq::<char>::empty() + "\r\n"@ + Seq::<
            char,
        >::empty())))),
{
    reveal_strlit("HTTP/1.1 101 Switching Protocols\r\nUpgrade: websocket\r\nConnection: Upgrade\r\nSec-WebSocket-Accept: ");
    reveal_strlit("HTTP/1.1 101 Switching Protocols");
    reveal_strlit("Upgrade: websocket");
    reveal_strlit("Connection: Upgrade");
    reveal_strlit("Sec-WebSocket-Accept: ");
    reveal_strlit("\r\n\r\n");
    reveal_strlit("\r\n");
    let l0 = "HTTP/1.1 101 Switching Protocols"@;
    let l1 = "Upgrade: websocket"@;
    let l2 = "Connection: Upgrade"@;
    let l3 = "Sec-WebSocket-Accept: "@ + accept;
    let blank = Seq::<char>::empty();
    let four = blank + "\r\n"@ + blank;
    let three = l3 + "\r\n"@ + four;
    let two = l2 + "\r\n"@ + three;
    let one = l1 + "\r\n"@ + two;
    let head =
        "HTTP/1.1 101 Switching Protocols\r\nUpgrade: websocket\r\nConnection: Upgrade\r\nSec-WebSocket-Accept: "@;
    assert(head =~= l0 + "\r\n"@ + l1 + "\r\n"@ + l2 + "\r\n"@ + "Sec-WebSocket-Accept: "@);
    assert("\r\n"@ + four =~= "\r\n\r\n"@);
    assert(upgrade_reply(accept) =~= l0 + "\r\n"@ + l1 + "\r\n"@ + l2 + "\r\n"@ + l3 + ("\r\n"@
        + four));
    assert(upgrade_reply(accept) =~= l0 + "\r\n"@ + one);
    assert(!l3.contains('\n')) by {
        assert forall|i: int| 0 <= i < l3.len() implies l3[i] != '\n' by {
            if i >= 22 {
                assert(accept.contains(accept[i - 22]));
            }
        }
    }
    crate::text::law_first_line(l0, one);
    crate::text::law_first_line(l1, two);
    crate::text::law_first_line(l2, three);
    crate::text::law_first_line(l3, four);
    crate::text::law_first_line(blank, blank);
    crate::text::law_last_line(blank);
    assert(crate::text::lines(upgrade_reply(accept)) =~= seq![l0, l1, l2, l3, blank]);
}

/// The symbols of base64 are, in order, the capital letters, the small letters, the digits, `+` and
/// `/`.
pub proof fn law_base64_alphabet(n: int)
    requires
        0 <= n < 64,
    ensures
        base64_symbol(n)
            == "ABCDEFGHIJKLMNOPQRSTUVWXYZabcdefghijklmnopqrstuvwxyz0123456789+/"@[n],
{
    reveal_strlit("ABCDEFGHIJKLMNOPQRSTUVWXYZabcdefghijklmnopqrstuvwxyz0123456789+/");
}

/// A number of 24 bits is made up of its four groups of six.
proof fn lemma_four_groups(word: int)
    requires
        0 <= word < 16777216,
    ensures
        word / 262144 * 262144 + word / 4096 % 64 * 4096 + word / 64 % 64 * 64 + word % 64 == word,
        0 <= word / 262144 < 64,
{
    let a = word / 64;
    let b = a / 64;
    let c = b / 64;
    assert(word == a * 64 + word % 64);
    assert(a == b * 64 + a % 64);
    assert(b == c * 64 + b % 64);
    assert(word / 4096 == b);
    assert(word / 262144 == c);
}

/// A byte of the data, or zero behind its end.
pub open spec fn byte_or_zero(data: Seq<u8>, k: int) -> int {
    if k < data.len() {
        data[k] as int
    } else {
        0
    }
}

/// In base64 each three bytes give four numbers below 64 that make up the same number as the bytes,
/// six bits against eight, where zeros stand for bytes that are missing at the end.
pub proof fn law_base64_bits(data: Seq<u8>, i: int)
    requires
        0 <= i,
    ensures
        0 <= six_bits(data, 4 * i) < 64,
        0 <= six_bits(data, 4 * i + 1) < 64,
        0 <= six_bits(data, 4 * i + 2) < 64,
        0 <= six_bits(data, 4 * i + 3) < 64,
        six_bits(data, 4 * i) * 262144 + six_bits(data, 4 * i + 1) * 4096 + six_bits(
            data,
            4 * i + 2,
        ) * 64 + six_bits(data, 4 * i + 3) == byte_or_zero(data, 3 * i) * 65536 + byte_or_zero(
            data,
            3 * i + 1,
        ) * 256 + byte_or_zero(data, 3 * i + 2),
{
    let word = byte_or_zero(data, 3 * i) * 65536 + byte_or_zero(data, 3 * i + 1) * 256
        + byte_or_zero(data, 3 * i + 2);
    lemma_four_groups(word);
    assert((4 * i) / 4 == i);
    assert((4 * i + 1) / 4 == i);
    assert((4 * i + 2) / 4 == i);
    assert((4 * i + 3) / 4 == i);
    assert(six_bits(data, 4 * i) == word / 262144);
    assert(six_bits(data, 4 * i + 1) == word / 4096 % 64);
    assert(six_bits(data, 4 * i + 2) == word / 64 % 64);
    assert(six_bits(data, 4 * i + 3) == word % 64);
}

/// In base64 each three bytes give four symbols, and what is left of one or two bytes gives two or
/// three and then `=` up to four.
pub proof fn law_base64_symbols(data: Seq<u8>, i: int)
    requires
        0 <= i,
        3 * i < data.len(),
    ensures
        ({
            let text = base64_of(data);
            &&& text.len() == 4 * ((data.len() + 2) / 3)
            &&& text[4 * i] == base64_symbol(six_bits(data, 4 * i))
            &&& text[4 * i + 1] == base64_symbol(six_bits(data, 4 * i + 1))
            &&& text[4 * i + 2] == if 3 * i + 1 < data.len() {
                base64_symbol(six_bits(data, 4 * i + 2))
            } else {
                '='
            }
            &&& text[4 * i + 3] == if 3 * i + 2 < data.len() {
                base64_symbol(six_bits(data, 4 * i + 3))
            } else {
                '='
            }
        }),
{
}

/// Base64 holds no newline.
pub proof fn lemma_base64_one_line(data: Seq<u8>)
    ensures
        !base64_of(data).contains('\n'),
{
    let text = base64_of(data);
    assert forall|i: int| 0 <= i < text.len() implies text[i] != '\n' by {
        assert(0 <= six_bits(data, i) < 64);
    }
}

} // verus!
