use peanut::handshake::{do_handshake, make_challenge, make_reply};
use peanut::http::{
    not_found, ok_response, request_path, wants_upgrade, websocket_key, ContentType, RequestText,
};
use peanut::text::{chars_of, ends_with, is_white_space, line_spans, second_word, to_decimal};

fn lines(s: &str) -> Vec<String> {
    let chars = chars_of(s);
    line_spans(&chars)
        .iter()
        .map(|(from, to)| chars[*from..*to].iter().collect())
        .collect()
}

fn request(s: &str) -> RequestText {
    RequestText::new(s.to_owned())
}

#[test]
fn lines_are_those_of_std() {
    let texts = [
        "",
        "\n",
        "\r\n",
        "\r",
        "a",
        "a\n",
        "a\r\n",
        "a\r",
        "a\r\r\n",
        "a\nb",
        "a\r\nb\r\n\r\nc",
        "\n\n",
        "ä\nö\r\n\u{2028}x",
    ];
    for text in texts {
        let expected: Vec<String> = text.lines().map(|line| line.to_owned()).collect();
        assert_eq!(lines(text), expected);
    }
}

#[test]
fn first_line_of_a_text() {
    assert_eq!(lines("first\r\nsecond\r\n"), vec!["first", "second"]);
}

#[test]
fn white_space_is_that_of_std() {
    for n in 0..=0x10ffff {
        if let Some(c) = char::from_u32(n) {
            assert_eq!(is_white_space(c), c.is_whitespace());
        }
    }
}

#[test]
fn second_word_is_that_of_std() {
    let texts = [
        "",
        " ",
        "a",
        "a ",
        " a b",
        "a b",
        "GET / HTTP/1.1",
        "\t\u{a0}x\u{3000}\u{2003}yz\nw",
        "one\r\ntwo",
    ];
    for text in texts {
        let chars = chars_of(text);
        let found = second_word(&chars).map(|(from, to)| chars[from..to].iter().collect::<String>());
        assert_eq!(found, text.split_whitespace().nth(1).map(|word| word.to_owned()));
    }
}

#[test]
fn numbers_in_decimal() {
    for n in [0, 9, 10, 11, 99, 100, 1024, 65536, usize::MAX] {
        assert_eq!(to_decimal(n), n.to_string());
    }
}

#[test]
fn endings() {
    assert!(ends_with("index.html", ".html"));
    assert!(ends_with(".js", ".js"));
    assert!(!ends_with("js", ".js"));
    assert!(!ends_with("a.html.txt", ".html"));
    assert!(ends_with("x", ""));
}

#[test]
fn upgrades_are_asked_for() {
    assert!(wants_upgrade(&request("GET / HTTP/1.1\r\nConnection: Upgrade\r\n\r\n")));
    assert!(wants_upgrade(&request("Connection: Upgrade, HTTP2-Settings")));
    assert!(!wants_upgrade(&request("GET / HTTP/1.1\r\nConnection: keep-alive\r\n\r\n")));
    assert!(!wants_upgrade(&request("GET / HTTP/1.1\r\nconnection: upgrade\r\n\r\n")));
    assert!(!wants_upgrade(&request("GET / HTTP/1.1\r\n Connection: Upgrade\r\n\r\n")));
    assert!(!wants_upgrade(&request("")));
}

#[test]
fn keys_are_found() {
    let key = |text: &str| websocket_key(&request(text));
    assert_eq!(key("Sec-WebSocket-Key: abc==\r\n").as_deref(), Some("abc=="));
    assert_eq!(key("a\r\nSec-WebSocket-Key: abc\r\nb c\r\n").as_deref(), Some("abc"));
    assert_eq!(key("Sec-WebSocket-Key: a b").as_deref(), Some("a b"));
    assert_eq!(key("Sec-WebSocket-Key:").as_deref(), None);
    assert_eq!(key("Sec-WebSocket-Key ").as_deref(), Some(""));
    assert_eq!(key("Sec-WebSocket-Keys: x").as_deref(), Some("x"));
    assert_eq!(key("X-Sec-WebSocket-Key: x").as_deref(), None);
    assert_eq!(key("").as_deref(), None);
}

#[test]
fn last_key_decides() {
    let text = "Sec-WebSocket-Key: one\r\nSec-WebSocket-Key: two\r\nSec-WebSocket-Key\r\n";
    assert_eq!(websocket_key(&request(text)).as_deref(), Some("two"));
}

#[test]
fn paths_are_found() {
    let path = |text: &str| request_path(&request(text));
    assert_eq!(path("GET /app.js HTTP/1.1\r\n\r\n").as_deref(), Some("/app.js"));
    assert_eq!(path("GET\r\n/x").as_deref(), Some("/x"));
    assert_eq!(path("GET").as_deref(), None);
    assert_eq!(path("").as_deref(), None);
}

#[test]
fn responses() {
    assert_eq!(not_found(), "HTTP/1.1 404 Not Found\r\n\r\n");
    assert_eq!(
        ok_response(ContentType::Html, "<p>ü</p>"),
        "HTTP/1.1 200 OK\r\nContent-Type: text/html; charset=UTF-8\r\nContent-Length: 9\r\n\r\n<p>ü</p>"
    );
    assert_eq!(
        ok_response(ContentType::Js, ""),
        "HTTP/1.1 200 OK\r\nContent-Type: text/javascript; charset=UTF-8\r\nContent-Length: 0\r\n\r\n"
    );
}

#[test]
fn handshake_is_answered() {
    let text = "GET /chat HTTP/1.1\r\nHost: server.example.com\r\nUpgrade: websocket\r\nConnection: Upgrade\r\nSec-WebSocket-Key: dGhlIHNhbXBsZSBub25jZQ==\r\nSec-WebSocket-Version: 13\r\n\r\n";
    assert_eq!(
        do_handshake(&request(text)).as_deref(),
        Some("HTTP/1.1 101 Switching Protocols\r\nUpgrade: websocket\r\nConnection: Upgrade\r\nSec-WebSocket-Accept: s3pPLMBiTxaQ9kYGzzhZRbK+xOo=\r\n\r\n")
    );
    assert_eq!(do_handshake(&request("GET / HTTP/1.1\r\nConnection: Upgrade\r\n\r\n")), None);
}

#[test]
fn reply_holds_the_digest_in_base64() {
    let reply = |digest: Vec<u8>| {
        let text = make_reply(&digest);
        let start = text.find("Accept: ").unwrap() + 8;
        text[start..text.len() - 4].to_owned()
    };
    assert_eq!(reply(vec![0; 20]), "AAAAAAAAAAAAAAAAAAAAAAAAAAA=");
    assert_eq!(reply(vec![255; 20]), "//////////////////////////8=");
    assert_eq!(reply((0..20).collect()), "AAECAwQFBgcICQoLDA0ODxAREhM=");
    assert_eq!(reply((230..250).collect()), "5ufo6err7O3u7/Dx8vP09fb3+Pk=");
    assert_eq!(reply(vec![9; 20]).len(), 28);
    assert_eq!(reply(vec![]), "");
    assert_eq!(reply(b"f".to_vec()), "Zg==");
    assert_eq!(reply(b"fo".to_vec()), "Zm8=");
    assert_eq!(reply(b"foo".to_vec()), "Zm9v");
    assert_eq!(reply(b"foob".to_vec()), "Zm9vYg==");
}

#[test]
fn challenge_is_key_and_guid() {
    assert_eq!(
        make_challenge("ké"),
        [&[0x6b, 0xc3, 0xa9][..], b"258EAFA5-E914-47DA-95CA-C5AB0DC85B11"].concat()
    );
}
