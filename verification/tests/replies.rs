use cod4_patcher::config::Config;
use cod4_patcher::reply::{
    answer, manifest_path, reason, refuse_body, refuse_head, refuse_request_line, Reply, State,
};
use cod4_patcher::request::{find_head_end, Request};
use cod4_patcher::start::announcement;

fn state(manifest: Option<&[u8]>) -> State {
    State {
        config: Config::new(),
        payload: b"payload bytes".to_vec(),
        manifest: manifest.map(|m| m.to_vec()),
    }
}

fn request(method: &str, endpoint: &str) -> Request {
    Request {
        method: method.to_string(),
        endpoint: endpoint.to_string(),
        headers: String::new(),
        length: 0,
    }
}

fn wire(reply: &Reply) -> Vec<u8> {
    let mut out = reply.head_text().into_bytes();
    for block in reply.blocks() {
        out.extend_from_slice(block.bytes);
    }
    out
}

#[test]
fn the_manifest_is_served_at_its_path() {
    let s = state(Some(b"manifest"));
    assert_eq!(manifest_path(&s.config), "/BLUS30072/1.3/GAME.VER");
    let reply = answer(&s, &request("GET", "/BLUS30072/1.3/GAME.VER"));
    assert_eq!(reply.code, 200);
    assert_eq!(reply.body, b"manifest");
    assert_eq!(reply.kind, "text/plain");
    assert_eq!(reply.endpoint, "/BLUS30072/1.3/GAME.VER");
    assert_eq!(answer(&s, &request("GET", "/BLUS30072/1.0/GAME.VER")).code, 404);
}

#[test]
fn without_update_the_payload_is_still_served() {
    let mut c = Config::new();
    assert_eq!(announcement(&c, 13, None).unwrap(), None);
    c.no_update = true;
    assert_eq!(announcement(&c, 13, Some("c2ln")).unwrap(), None);
    let s = state(None);
    let missing = answer(&s, &request("GET", "/BLUS30072/1.3/GAME.VER"));
    assert_eq!(missing.code, 404);
    assert_eq!(missing.body, b"No update\n");
    assert_eq!(missing.kind, "text/plain");
    let found = answer(&s, &request("GET", "/payload.bin"));
    assert_eq!(found.code, 200);
    assert_eq!(found.body, b"payload bytes");
    assert_eq!(found.kind, "application/octet-stream");
}

#[test]
fn a_query_is_ignored() {
    let s = state(None);
    let reply = answer(&s, &request("GET", "/payload.bin?a=b?c"));
    assert_eq!(reply.code, 200);
    assert_eq!(reply.endpoint, "/payload.bin");
    assert_eq!(answer(&s, &request("GET", "?")).endpoint, "");
    let plain = answer(&s, &request("HEAD", "/payload.bin"));
    let mut asked = request("HEAD", "/payload.bin?x");
    asked.headers = "other".to_string();
    asked.length = 9;
    let same = answer(&s, &asked);
    assert_eq!(format!("{plain:?}"), format!("{same:?}"));
}

#[test]
fn other_paths_are_not_found() {
    let s = state(Some(b"m"));
    for path in ["/", "/payload.bin/", "payload.bin", "//payload.bin", "/PAYLOAD.BIN"] {
        let reply = answer(&s, &request("GET", path));
        assert_eq!(reply.code, 404, "{path}");
        assert_eq!(reply.body, b"Not found\n");
        assert_eq!(reply.endpoint, path);
    }
}

#[test]
fn other_methods_are_not_allowed() {
    let s = state(Some(b"m"));
    for method in ["POST", "get", "PUT", "HEADS"] {
        let reply = answer(&s, &request(method, "/payload.bin?q"));
        assert_eq!(reply.code, 405, "{method}");
        assert_eq!(reply.body, b"GET required\n");
        assert_eq!(reply.endpoint, "/payload.bin?q");
        assert!(!reply.head);
    }
}

#[test]
fn head_is_get_without_body() {
    let s = state(Some(b"m"));
    for path in ["/payload.bin", "/BLUS30072/1.3/GAME.VER", "/nothing"] {
        let get = answer(&s, &request("GET", path));
        let head = answer(&s, &request("HEAD", path));
        assert!(head.head && !get.head);
        assert!(head.blocks().is_empty());
        let mut whole = wire(&head);
        whole.extend_from_slice(get.body);
        assert_eq!(whole, wire(&get));
    }
}

#[test]
fn the_head_of_a_reply_is_written_out() {
    let s = state(None);
    assert_eq!(
        answer(&s, &request("GET", "/payload.bin")).head_text(),
        "HTTP/1.1 200 OK\r\nContent-Length: 13\r\nContent-Type: application/octet-stream\r\n\
         Connection: close\r\n\r\n"
    );
    assert_eq!(
        refuse_head().head_text(),
        "HTTP/1.1 413 Content Too Large\r\nContent-Length: 17\r\nContent-Type: text/plain\r\n\
         Connection: close\r\n\r\n"
    );
    assert_eq!(refuse_request_line().body, b"Bad request\n");
    assert_eq!(refuse_body("/e").endpoint, "/e");
}

#[test]
fn statuses_have_words() {
    for (code, words) in [
        (200, "OK"),
        (404, "Not Found"),
        (405, "Method Not Allowed"),
        (400, "Bad Request"),
        (413, "Content Too Large"),
        (500, "Error"),
        (0, "Error"),
    ] {
        assert_eq!(reason(code), words);
    }
}

#[test]
fn a_reply_is_framed() {
    let s = State {
        config: Config::new(),
        payload: b"\r\n\r\n in the body".to_vec(),
        manifest: None,
    };
    let reply = answer(&s, &request("GET", "/payload.bin"));
    let bytes = wire(&reply);
    let end = find_head_end(&bytes).unwrap();
    assert_eq!(&bytes[end..], reply.body);
    assert_eq!(end, reply.head_text().len());
}

#[test]
fn bodies_are_sent_in_blocks() {
    for (size, wanted) in [
        (0usize, vec![]),
        (1, vec![(0usize, 1usize)]),
        (262143, vec![(0, 262143)]),
        (262144, vec![(0, 262144)]),
        (262145, vec![(0, 262144), (262144, 262145)]),
        (600000, vec![(0, 262144), (262144, 524288), (524288, 600000)]),
    ] {
        let s = State {
            config: Config::new(),
            payload: (0..size).map(|i| (i % 251) as u8).collect(),
            manifest: None,
        };
        let reply = answer(&s, &request("GET", "/payload.bin"));
        let blocks = reply.blocks();
        let ranges: Vec<(usize, usize)> = blocks.iter().map(|b| (b.offset, b.end)).collect();
        assert_eq!(ranges, wanted);
        let mut whole: Vec<u8> = Vec::new();
        for b in &blocks {
            assert_eq!(b.end - b.offset, b.bytes.len());
            whole.extend_from_slice(b.bytes);
        }
        assert_eq!(whole, s.payload);
    }
}
