use cod4_patcher::config::Config;
use cod4_patcher::connection::{Connection, Progress};
use cod4_patcher::reply::{Reply, State};
use cod4_patcher::request::{find_head_end, parse_head, Request, RequestError};
use cod4_patcher::text::NumberError;

fn state() -> State {
    let mut config = Config::new();
    config.file = "patch.bin".to_string();
    State { config, payload: vec![7, 8, 9], manifest: Some(b"the manifest".to_vec()) }
}

/// Hands bytes to a connection in chunks of at most `size` and of what it wants.
fn feed<'a>(bytes: &[u8], size: usize, s: &'a State) -> Progress<'a> {
    let mut connection = Connection::new();
    let mut rest = bytes;
    loop {
        let n = rest.len().min(size).min(connection.wants());
        match connection.receive(&rest[..n], s) {
            Progress::More(c) => connection = c,
            other => return other,
        }
        rest = &rest[n..];
    }
}

fn answered<'a>(bytes: &[u8], s: &'a State) -> (Request, Vec<u8>, Reply<'a>) {
    match feed(bytes, usize::MAX, s) {
        Progress::Answer(request, body, reply) => (request, body, reply),
        other => panic!("{other:?}"),
    }
}

fn refused<'a>(bytes: &[u8], s: &'a State) -> Reply<'a> {
    match feed(bytes, usize::MAX, s) {
        Progress::Refuse(reply) => reply,
        other => panic!("{other:?}"),
    }
}

fn failed(bytes: &[u8]) -> RequestError {
    match feed(bytes, usize::MAX, &state()) {
        Progress::Fail(e) => e,
        other => panic!("{other:?}"),
    }
}

#[test]
fn the_head_ends_at_the_first_empty_line() {
    assert_eq!(find_head_end(b""), None);
    assert_eq!(find_head_end(b"\r\n\r"), None);
    assert_eq!(find_head_end(b"\r\n\r\n"), Some(4));
    assert_eq!(find_head_end(b"a\r\n\r\nb\r\n\r\n"), Some(5));
    assert_eq!(find_head_end(b"a\r\r\n\r\n"), Some(6));
    assert_eq!(find_head_end(b"a\n\nb"), None);
}

#[test]
fn a_plain_request_is_answered() {
    let s = state();
    let text = b"GET /payload.bin HTTP/1.1\r\nHost: example\r\n\r\n";
    let (request, body, reply) = answered(text, &s);
    assert_eq!(request.method, "GET");
    assert_eq!(request.endpoint, "/payload.bin");
    assert_eq!(request.headers.as_bytes(), text);
    assert_eq!(request.length, 0);
    assert!(body.is_empty());
    assert_eq!(reply.code, 200);
    assert_eq!(reply.body, [7, 8, 9]);
}

#[test]
fn chunks_do_not_matter() {
    let s = state();
    let text = b"GET /x HTTP/1.0\r\nContent-Length: 5\r\n\r\nhello, and more";
    for size in 1..text.len() + 1 {
        match feed(text, size, &s) {
            Progress::Answer(request, body, reply) => {
                assert_eq!(request.endpoint, "/x");
                assert_eq!(body, b"hello");
                assert_eq!(reply.code, 404);
                assert_eq!(reply.body, b"Not found\n");
            }
            other => panic!("{size}: {other:?}"),
        }
    }
}

#[test]
fn the_wanted_size_depends_on_the_part() {
    let s = state();
    let c = Connection::new();
    assert_eq!(c.wants(), 2048);
    match c.receive(b"GET / HTTP/1.1\r\ncontent-LENGTH:\t+7 \r\n\r\nab", &s) {
        Progress::More(c) => assert_eq!(c.wants(), 4096),
        other => panic!("{other:?}"),
    }
}

#[test]
fn bad_request_lines_are_refused() {
    let s = state();
    for line in [
        "",
        "GET /",
        "GET / HTTP/1.1 x",
        "GET / HTTP/2.0",
        "GET / http/1.1",
        "GET /a b HTTP/1.1",
    ] {
        let reply = refused(format!("{line}\r\n\r\n").as_bytes(), &s);
        assert_eq!(reply.code, 400, "{line}");
        assert_eq!(reply.body, b"Bad request\n");
        assert_eq!(reply.endpoint, "");
        assert_eq!(reply.kind, "text/plain");
        assert!(!reply.head);
    }
}

#[test]
fn a_bad_request_line_is_refused_before_the_fields_are_read() {
    let s = state();
    assert_eq!(refused(b"HELO\r\nno colon\r\n\r\n", &s).code, 400);
}

#[test]
fn any_white_space_parts_the_request_line() {
    let s = state();
    let (request, _, _) = answered("\u{a0}GET\t /a\u{3000}HTTP/1.1 \r\n\r\n".as_bytes(), &s);
    assert_eq!(request.method, "GET");
    assert_eq!(request.endpoint, "/a");
}

#[test]
fn a_head_without_end_is_too_large() {
    let s = state();
    let reply = refused(&vec![b'a'; 40000], &s);
    assert_eq!(reply.code, 413);
    assert_eq!(reply.body, b"Header too large\n");
    assert_eq!(reply.endpoint, "");
    match feed(&vec![b'a'; 32767], 1000, &s) {
        Progress::Fail(e) => assert_eq!(e.message(), "Incomplete request headers"),
        other => panic!("{other:?}"),
    }
}

#[test]
fn a_head_beyond_the_limit_depends_on_the_chunks() {
    let s = state();
    let mut text = b"GET / HTTP/1.1\r\nX: ".to_vec();
    text.resize(33000, b'y');
    text.extend_from_slice(b"\r\n\r\n");
    match feed(&text, 2000, &s) {
        Progress::Answer(_, _, reply) => assert_eq!(reply.code, 404),
        other => panic!("{other:?}"),
    }
    assert_eq!(refused(&text, &s).code, 413);
}

#[test]
fn what_is_held_is_bounded() {
    let s = state();
    let mut text = b"GET / HTTP/1.1\r\nContent-Length: 65536\r\nX: ".to_vec();
    text.resize(32764, b'y');
    text.extend_from_slice(b"\r\n\r\n");
    text.resize(200000, b'z');
    let mut connection = Connection::new();
    let mut held = 0;
    loop {
        let n = connection.wants();
        held += n;
        match connection.receive(&text[held - n..held], &s) {
            Progress::More(c) => connection = c,
            Progress::Answer(_, body, _) => {
                assert_eq!(body.len(), 65536);
                break;
            }
            other => panic!("{other:?}"),
        }
    }
    assert!(held < 32768 + 2048 + 65536 + 4096);
}

#[test]
fn a_client_that_stops_is_dropped() {
    assert!(matches!(failed(b""), RequestError::IncompleteHead));
    assert!(matches!(failed(b"GET / HTTP/1.1\r\n"), RequestError::IncompleteHead));
    let e = failed(b"GET / HTTP/1.1\r\nContent-Length: 3\r\n\r\nab");
    assert!(matches!(e, RequestError::IncompleteBody));
    assert_eq!(e.message(), "Incomplete body");
}

#[test]
fn a_head_that_is_no_utf8_is_dropped() {
    match failed(b"GET /\xff HTTP/1.1\r\n\r\n") {
        RequestError::NotUtf8(words) => assert_eq!(
            words,
            "invalid utf-8 sequence of 1 bytes from index 5"
        ),
        other => panic!("{other:?}"),
    }
}

#[test]
fn fields_with_faults_are_dropped() {
    for (field, words) in [
        ("no colon", "Malformed header"),
        ("Transfer-Encoding: chunked", "Transfer-Encoding requests are not supported"),
        ("TRANSFER-encoding:", "Transfer-Encoding requests are not supported"),
        ("Expect: 100-continue", "Expect requests are not supported"),
        ("Content-Length: 1\r\ncontent-length: 1", "Duplicate Content-Length"),
        ("Content-Length:", "cannot parse integer from empty string"),
        ("Content-Length: x", "invalid digit found in string"),
        ("Content-Length: -1", "invalid digit found in string"),
        ("Content-Length: 1 2", "invalid digit found in string"),
        (
            "Content-Length: 99999999999999999999999999",
            "number too large to fit in target type",
        ),
    ] {
        let e = failed(format!("GET / HTTP/1.1\r\n{field}\r\n\r\n").as_bytes());
        assert_eq!(e.message(), words, "{field}");
    }
}

#[test]
fn the_first_fault_decides() {
    assert!(matches!(
        failed(b"GET / HTTP/1.1\r\nExpect: x\r\nno colon\r\n\r\n"),
        RequestError::Expect
    ));
    assert!(matches!(
        failed(b"GET / HTTP/1.1\r\nContent-Length: y\r\nExpect: x\r\n\r\n"),
        RequestError::ContentLength(NumberError::InvalidDigit)
    ));
}

#[test]
fn a_name_with_a_space_is_another_name() {
    let s = state();
    let (request, body, _) = answered(b"GET / HTTP/1.1\r\nContent-Length : 4\r\n\r\nabcd", &s);
    assert_eq!(request.length, 0);
    assert!(body.is_empty());
}

#[test]
fn the_body_has_a_limit() {
    let s = state();
    let mut text = b"GET /q HTTP/1.1\r\nContent-Length: 65536\r\n\r\n".to_vec();
    text.resize(text.len() + 65536, b'z');
    let (request, body, _) = answered(&text, &s);
    assert_eq!(request.length, 65536);
    assert_eq!(body.len(), 65536);
    let reply = refused(b"PUT /q?x HTTP/1.1\r\nContent-Length: 65537\r\n\r\n", &s);
    assert_eq!(reply.code, 413);
    assert_eq!(reply.body, b"Body too large\n");
    assert_eq!(reply.endpoint, "/q?x");
}

#[test]
fn a_head_is_read_from_bytes() {
    let request = parse_head(b"HEAD /a?b HTTP/1.0\r\nA:b\r\nContent-Length: 12\r\n\r\n")
        .unwrap()
        .unwrap();
    assert_eq!(request.method, "HEAD");
    assert_eq!(request.endpoint, "/a?b");
    assert_eq!(request.length, 12);
    assert!(parse_head(b"nothing").unwrap().is_none());
    assert!(matches!(parse_head(b"\xc3"), Err(RequestError::NotUtf8(_))));
}
