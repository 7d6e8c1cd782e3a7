//! The requests that arrive before a connection is upgraded, and their responses.
use crate::text::{begins_with, chars_of, find, line_spans, second_word, to_decimal};
use vstd::prelude::*;
use vstd::string::*;

verus! {

/// The text of a request, with its characters at hand.
pub struct RequestText {
    text: String,
    chars: Vec<char>,
}

impl View for RequestText {
    type V = Seq<char>;

    closed spec fn view(&self) -> Seq<char> {
        self.text@
    }
}

impl RequestText {
    /// The characters at hand are the text's.
    #[verifier::type_invariant]
    spec fn wf(self) -> bool {
        self.chars@ == self.text@
    }

    /// Takes a text.
    pub fn new(text: String) -> (request: RequestText)
        ensures
            request@ == text@,
    {
        let chars = chars_of(text.as_str());
        RequestText { text, chars }
    }

    /// Cuts a stretch out of the text.
    fn cut(&self, from: usize, to: usize) -> (part: String)
        requires
            from <= to <= self@.len(),
        ensures
            part@ == self@.subrange(from as int, to as int),
    {
        self.text.as_str().substring_char(from, to).to_owned()
    }
}

/// Whether some line of the request asks to upgrade the connection.
pub open spec fn asks_upgrade(request: Seq<char>) -> bool {
    exists|i: int|
        0 <= i < crate::text::lines(request).len() && "Connection: Upgrade"@.is_prefix_of(
            #[trigger] crate::text::lines(request)[i],
        )
}

/// The key that a line brings: what follows the line's first space, where the line begins
/// with the header's name.
pub open spec fn key_in(line: Seq<char>) -> Option<Seq<char>> {
    let n = crate::text::first_of(line, ' ') as int;
    if "Sec-WebSocket-Key"@.is_prefix_of(line) && n < line.len() {
        Some(line.skip(n + 1))
    } else {
        None
    }
}

/// The key that the last of the lines that bring one brings.
pub open spec fn key_among(lines: Seq<Seq<char>>) -> Option<Seq<char>>
    decreases lines.len(),
{
    if lines.len() == 0 {
        None
    } else if key_in(lines.last()) is Some {
        key_in(lines.last())
    } else {
        key_among(lines.drop_last())
    }
}

/// What the request asks for: its second word.
pub open spec fn path_of(request: Seq<char>) -> Option<Seq<char>> {
    if crate::text::words(request).len() < 2 {
        None
    } else {
        Some(crate::text::words(request)[1])
    }
}

/// A request that begins with a method, a URL and more, each set off by a space, asks for the
/// URL.
pub proof fn law_request_line(method: Seq<char>, url: Seq<char>, rest: Seq<char>)
    requires
        method.len() > 0,
        url.len() > 0,
        forall|i: int|
            0 <= i < method.len() ==> !crate::text::white_space(#[trigger] method[i]),
        forall|i: int| 0 <= i < url.len() ==> !crate::text::white_space(#[trigger] url[i]),
    ensures
        path_of(method + seq![' '] + url + seq![' '] + rest) == Some(url),
{
    let after = url + seq![' '] + rest;
    assert(method + seq![' '] + url + seq![' '] + rest =~= method + seq![' '] + after);
    crate::text::law_first_word(method, ' ', after);
    crate::text::law_first_word(url, ' ', rest);
}

/// The usual form of the header brings its value as the key.
pub proof fn law_key_header(key: Seq<char>)
    ensures
        key_in("Sec-WebSocket-Key: "@ + key) == Some(key),
{
    reveal_strlit("Sec-WebSocket-Key: ");
    reveal_strlit("Sec-WebSocket-Key");
    let line = "Sec-WebSocket-Key: "@ + key;
    assert("Sec-WebSocket-Key"@ =~= line.subrange(0, 17));
    crate::text::lemma_first_of(line, ' ', 18);
    assert(line.skip(19) =~= key);
}

/// Of several lines that bring a key the last decides.
pub proof fn law_last_key_decides(lines: Seq<Seq<char>>, i: int)
    requires
        0 <= i < lines.len(),
        key_in(lines[i]) is Some,
        forall|j: int| i < j < lines.len() ==> key_in(#[trigger] lines[j]) is None,
    ensures
        key_among(lines) == key_in(lines[i]),
    decreases lines.len(),
{
    if i < lines.len() - 1 {
        assert(key_in(lines[lines.len() - 1]) is None);
        let before = lines.drop_last();
        assert forall|j: int| i < j < before.len() implies key_in(#[trigger] before[j]) is None by {
            assert(before[j] == lines[j]);
        }
        law_last_key_decides(before, i);
    }
}

/// Finds out whether the request asks to upgrade the connection.
pub fn wants_upgrade(request: &RequestText) -> (b: bool)
    ensures
        b == asks_upgrade(request@),
{
    proof {
        use_type_invariant(request);
    }
    let spans = line_spans(&request.chars);
    let ghost all = crate::text::lines(request@);
    let mut i: usize = 0;
    while i < spans.len()
        invariant
            request.chars@ == request@,
            i <= spans@.len(),
            all == crate::text::lines(request@),
            crate::text::stretches(request@, spans@) == all,
            forall|j: int|
                0 <= j < spans@.len() ==> (#[trigger] spans@[j]).0 <= spans@[j].1
                    <= request@.len(),
            forall|j: int| 0 <= j < i ==> !"Connection: Upgrade"@.is_prefix_of(#[trigger] all[j]),
        decreases spans@.len() - i,
    {
        let (from, to) = spans[i];
        assert(spans@[i as int].0 <= spans@[i as int].1);
        assert(all[i as int] == request@.subrange(from as int, to as int));
        if begins_with(&request.chars, from, to, "Connection: Upgrade") {
            return true;
        }
        i = i + 1;
    }
    false
}

/// Finds the key that the request brings.
pub fn websocket_key(request: &RequestText) -> (key: Option<String>)
    ensures
        match key_among(crate::text::lines(request@)) {
            None => key is None,
            Some(k) => key is Some && key->0@ == k,
        },
{
    proof {
        use_type_invariant(request);
    }
    let spans = line_spans(&request.chars);
    let ghost all = crate::text::lines(request@);
    let mut key: Option<String> = None;
    let mut i: usize = 0;
    while i < spans.len()
        invariant
            request.chars@ == request@,
            i <= spans@.len(),
            crate::text::stretches(request@, spans@) == all,
            forall|j: int|
                0 <= j < spans@.len() ==> (#[trigger] spans@[j]).0 <= spans@[j].1
                    <= request@.len(),
            match key_among(all.take(i as int)) {
                None => key is None,
                Some(k) => key is Some && key->0@ == k,
            },
        decreases spans@.len() - i,
    {
        let (from, to) = spans[i];
        assert(spans@[i as int].0 <= spans@[i as int].1);
        let ghost line = request@.subrange(from as int, to as int);
        assert(all[i as int] == line);
        assert(all.take(i + 1).drop_last() =~= all.take(i as int));
        assert(all.take(i + 1).last() == line);
        if begins_with(&request.chars, from, to, "Sec-WebSocket-Key") {
            let n: usize = find(&request.chars, from, to, ' ');
            if n < to - from {
                assert(line.skip(n + 1) =~= request@.subrange(from + n + 1, to as int));
                key = Some(request.cut(from + n + 1, to));
            }
        }
        i = i + 1;
    }
    assert(all.take(spans@.len() as int) =~= all);
    key
}

/// Finds what the request asks for.
pub fn request_path(request: &RequestText) -> (path: Option<String>)
    ensures
        match path_of(request@) {
            None => path is None,
            Some(p) => path is Some && path->0@ == p,
        },
{
    proof {
        use_type_invariant(request);
    }
    match second_word(&request.chars) {
        None => None,
        Some((from, to)) => Some(request.cut(from, to)),
    }
}

/// What a resource is.
#[derive(Clone, Copy, Debug, PartialEq, Eq, Structural)]
pub enum ContentType {
    /// A page.
    Html,
    /// A script.
    Js,
}

/// How a response names a content type.
pub open spec fn content_type_text(content_type: ContentType) -> Seq<char> {
    match content_type {
        ContentType::Html => "text/html; charset=UTF-8"@,
        ContentType::Js => "text/javascript; charset=UTF-8"@,
    }
}

/// The response to a request for what is not there.
pub open spec fn not_found_text() -> Seq<char> {
    "HTTP/1.1 404 Not Found\r\n\r\n"@
}

/// The response that hands out `content`, whose length is counted in bytes.
pub open spec fn ok_text(content_type: ContentType, content: Seq<char>) -> Seq<char> {
    "HTTP/1.1 200 OK\r\nContent-Type: "@ + content_type_text(content_type)
        + "\r\nContent-Length: "@ + crate::text::decimal(
        vstd::utf8::encode_utf8(content).len(),
    ) + "\r\n\r\n"@ + content
}

/// Builds the response to a request for what is not there.
pub fn not_found() -> (response: String)
    ensures
        response@ == not_found_text(),
{
    "HTTP/1.1 404 Not Found\r\n\r\n".to_owned()
}

/// Builds the response that hands out `content`.
pub fn ok_response(content_type: ContentType, content: &str) -> (response: String)
    ensures
        response@ == ok_text(content_type, content@),
{
    let mut response = "HTTP/1.1 200 OK\r\nContent-Type: ".to_owned();
    match content_type {
        ContentType::Html => response.append("text/html; charset=UTF-8"),
        ContentType::Js => response.append("text/javascript; charset=UTF-8"),
    }
    response.append("\r\nContent-Length: ");
    let bytes = content.as_bytes();
    response.append(to_decimal(bytes.len()).as_str());
    response.append("\r\n\r\n");
    response.append(content);
    response
}

/// A request asks to upgrade the connection exactly where one of its lines begins with
/// `Connection: Upgrade`.
pub proof fn law_upgrade_told(request: Seq<char>)
    ensures
        forall|i: int|
            0 <= i < crate::text::lines(request).len() && "Connection: Upgrade"@.is_prefix_of(
                #[trigger] crate::text::lines(request)[i],
            ) ==> asks_upgrade(request),
        (forall|i: int|
            0 <= i < crate::text::lines(request).len() ==> !"Connection: Upgrade"@.is_prefix_of(
                #[trigger] crate::text::lines(request)[i],
            )) ==> !asks_upgrade(request),
{
}

/// A line that begins with the header's name brings as the key all that follows its first space,
/// whatever stands between.
pub proof fn law_key_line(between: Seq<char>, key: Seq<char>)
    requires
        !between.contains(' '),
    ensures
        key_in("Sec-WebSocket-Key"@ + between + seq![' '] + key) == Some(key),
{
    reveal_strlit("Sec-WebSocket-Key");
    let line = "Sec-WebSocket-Key"@ + between + seq![' '] + key;
    let n = 17 + between.len() as int;
    assert("Sec-WebSocket-Key"@ =~= line.subrange(0, 17));
    assert forall|i: int| 0 <= i < n implies line[i] != ' ' by {
        if i >= 17 {
            assert(between.contains(between[i - 17]));
        }
    }
    crate::text::lemma_first_of(line, ' ', n);
    assert(line.skip(n + 1) =~= key);
}

/// A line that does not begin with the header's name, or has no space, brings no key.
pub proof fn law_line_without_key(line: Seq<char>)
    requires
        !"Sec-WebSocket-Key"@.is_prefix_of(line) || !line.contains(' '),
    ensures
        key_in(line) is None,
{
    if !line.contains(' ') {
        assert forall|i: int| 0 <= i < line.len() implies line[i] != ' ' by {
            assert(line.contains(line[i]));
        }
        crate::text::lemma_first_of(line, ' ', line.len() as int);
    }
}

/// Lines of which none brings a key bring none together.
pub proof fn law_no_key_among(lines: Seq<Seq<char>>)
    requires
        forall|i: int|
            0 <= i < lines.len() ==> !"Sec-WebSocket-Key"@.is_prefix_of(#[trigger] lines[i])
                || !lines[i].contains(' '),
    ensures
        key_among(lines) is None,
    decreases lines.len(),
{
    if lines.len() > 0 {
        assert(!"Sec-WebSocket-Key"@.is_prefix_of(lines[lines.len() - 1]) || !lines[lines.len()
            - 1].contains(' '));
        law_line_without_key(lines.last());
        assert forall|i: int| 0 <= i < lines.drop_last().len() implies (
        !"Sec-WebSocket-Key"@.is_prefix_of(#[trigger] lines.drop_last()[i])
            || !lines.drop_last()[i].contains(' ')) by {
            assert(lines.drop_last()[i] == lines[i]);
        }
        law_no_key_among(lines.drop_last());
    }
}

/// A request asks for its second word, and for nothing where it has none.
pub proof fn law_second_word_asked(request: Seq<char>)
    ensures
        crate::text::words(request).len() >= 2 ==> path_of(request) == Some(
            crate::text::words(request)[1],
        ),
        crate::text::words(request).len() < 2 ==> path_of(request) is None,
{
}

/// Who reads the response that hands out a page or a script finds the status on its first line, the
/// content type on the second, the number of the content's bytes on the third, then an empty line,
/// and behind that the content.
pub proof fn law_response_read(content_type: ContentType, content: Seq<char>)
    ensures
        ({
            let response = ok_text(content_type, content);
            let kind = match content_type {
                ContentType::Html => "Content-Type: text/html; charset=UTF-8"@,
                ContentType::Js => "Content-Type: text/javascript; charset=UTF-8"@,
            };
            let count = "Content-Length: "@ + crate::text::decimal(
                vstd::utf8::encode_utf8(content).len(),
            );
            &&& crate::text::lines(response) == seq![
                "HTTP/1.1 200 OK"@,
                kind,
                count,
                Seq::<char>::empty(),
            ] + crate::text::lines(content)
            &&& response == "HTTP/1.1 200 OK"@ + "\r\n"@ + (kind + "\r\n"@ + (count + "\r\n"@ + (
            Seq::<char>::empty() + "\r\n"@ + content)))
        }),
{
    reveal_strlit("HTTP/1.1 200 OK");
    reveal_strlit("HTTP/1.1 200 OK\r\nContent-Type: ");
    reveal_strlit("Content-Type: text/html; charset=UTF-8");
    reveal_strlit("Content-Type: text/javascript; charset=UTF-8");
    reveal_strlit("text/html; charset=UTF-8");
    reveal_strlit("text/javascript; charset=UTF-8");
    reveal_strlit("\r\nContent-Length: ");
    reveal_strlit("Content-Length: ");
    reveal_strlit("\r\n\r\n");
    reveal_strlit("\r\n");
    let len = vstd::utf8::encode_utf8(content).len();
    let digits = crate::text::decimal(len);
    let response = ok_text(content_type, content);
    let kind = match content_type {
        ContentType::Html => "Content-Type: text/html; charset=UTF-8"@,
        ContentType::Js => "Content-Type: text/javascript; charset=UTF-8"@,
    };
    let count = "Content-Length: "@ + digits;
    let first = "HTTP/1.1 200 OK"@;
    let blank = Seq::<char>::empty();
    let three = blank + "\r\n"@ + content;
    let two = count + "\r\n"@ + three;
    let one = kind + "\r\n"@ + two;
    assert(first + "\r\n"@ + kind =~= "HTTP/1.1 200 OK\r\nContent-Type: "@ + content_type_text(
        content_type,
    ));
    assert("\r\n"@ + count =~= "\r\nContent-Length: "@ + digits);
    assert("\r\n"@ + three =~= "\r\n\r\n"@ + content);
    assert(response =~= first + "\r\n"@ + kind + ("\r\n"@ + count) + ("\r\n"@ + three));
    assert(response =~= first + "\r\n"@ + one);
    crate::text::law_decimal_digits(len);
    assert(!count.contains('\n')) by {
        assert forall|i: int| 0 <= i < count.len() implies count[i] != '\n' by {
            if i >= 16 {
                assert(count[i] == digits[i - 16]);
            }
        }
    }
    crate::text::law_first_line(first, one);
    crate::text::law_first_line(kind, two);
    crate::text::law_first_line(count, three);
    crate::text::law_first_line(blank, content);
    assert(crate::text::lines(response) =~= seq![first, kind, count, blank] + crate::text::lines(
        content,
    ));
}

/// The response to a request for what is not there is its status and an empty line.
pub proof fn law_not_found_read()
    ensures
        crate::text::lines(not_found_text()) == seq![
            "HTTP/1.1 404 Not Found"@,
            Seq::<char>::empty(),
        ],
        not_found_text() == "HTTP/1.1 404 Not Found"@ + "\r\n"@ + "\r\n"@,
{
    reveal_strlit("HTTP/1.1 404 Not Found\r\n\r\n");
    reveal_strlit("HTTP/1.1 404 Not Found");
    reveal_strlit("\r\n");
    let first = "HTTP/1.1 404 Not Found"@;
    let blank = Seq::<char>::empty();
    assert("\r\n"@ =~= blank + "\r\n"@ + blank);
    assert(not_found_text() =~= first + "\r\n"@ + "\r\n"@);
    crate::text::law_first_line(first, "\r\n"@);
    crate::text::law_first_line(blank, blank);
    crate::text::law_last_line(blank);
    assert(crate::text::lines(not_found_text()) =~= seq![first, blank]);
}

} // verus!
