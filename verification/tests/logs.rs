use cod4_patcher::config::Config;
use cod4_patcher::log::{
    accept_error_event, error_event, log_line, request_event, response_event, startup_event,
    transfer_event,
};
use cod4_patcher::reply::{answer, State};
use cod4_patcher::request::Request;
use serde_json::Value;

fn event(line: &str) -> Value {
    let whole: Value = serde_json::from_str(line).unwrap();
    assert_eq!(whole.as_object().unwrap().len(), 2);
    whole["event"].clone()
}

fn request(endpoint: &str) -> Request {
    Request {
        method: "GET".to_string(),
        endpoint: endpoint.to_string(),
        headers: format!("GET {endpoint} HTTP/1.1\r\n\r\n"),
        length: 3,
    }
}

fn state() -> State {
    State {
        config: Config::new(),
        payload: vec![0; 5],
        manifest: Some(b"line\n\xff\0".to_vec()),
    }
}

#[test]
fn a_line_holds_the_time_and_the_event() {
    assert_eq!(
        log_line(1700000000123, error_event("1.2.3.4:5", "it \"broke\"\nbadly")),
        "{\"event\":{\"error\":\"it \\\"broke\\\"\\nbadly\",\"source\":\"1.2.3.4:5\",\
         \"type\":\"error\"},\"timestamp_unix_ms\":1700000000123}"
    );
    assert_eq!(
        log_line(0, accept_error_event("none")),
        "{\"event\":{\"error\":\"none\",\"type\":\"accept_error\"},\"timestamp_unix_ms\":0}"
    );
}

#[test]
fn every_record_is_one_line() {
    let s = state();
    let q = request("/BLUS30072/1.3/GAME.VER");
    let reply = answer(&s, &q);
    for line in [
        log_line(1, request_event("a\n", "b\r\n", &q, b"\n\n\n")),
        log_line(2, response_event("a\n", &reply)),
        log_line(3, error_event("\n", "\n")),
    ] {
        assert!(!line.contains('\n'), "{line}");
    }
}

#[test]
fn a_request_is_recorded() {
    let line = log_line(5, request_event("src", "dst", &request("/a?b"), b"a\xffz"));
    let e = event(&line);
    assert_eq!(e.as_object().unwrap().len(), 9);
    assert_eq!(e["type"], "request");
    assert_eq!(e["source"], "src");
    assert_eq!(e["destination"], "dst");
    assert_eq!(e["endpoint"], "/a?b");
    assert_eq!(e["method"], "GET");
    assert_eq!(e["headers"], "GET /a?b HTTP/1.1\r\n\r\n");
    assert_eq!(e["body_ascii"], "a\u{fffd}z");
    assert_eq!(e["body_hex"], "61ff7a");
    assert_eq!(e["body_size"], 3);
}

#[test]
fn a_response_is_recorded_with_its_manifest() {
    let s = state();
    let reply = answer(&s, &request("/BLUS30072/1.3/GAME.VER"));
    let e = event(&log_line(5, response_event("src", &reply)));
    assert_eq!(e.as_object().unwrap().len(), 8);
    assert_eq!(e["type"], "response");
    assert_eq!(e["source"], "src");
    assert_eq!(e["endpoint"], "/BLUS30072/1.3/GAME.VER");
    assert_eq!(e["status"], 200);
    assert_eq!(e["headers"], reply.head_text());
    assert_eq!(e["response_size"], 7);
    assert_eq!(e["body"], "line\n\u{fffd}\0");
    assert_eq!(e["head"], false);
}

#[test]
fn a_response_is_recorded_without_other_bodies() {
    let s = state();
    let mut q = request("/payload.bin");
    q.method = "HEAD".to_string();
    let e = event(&log_line(5, response_event("src", &answer(&s, &q))));
    assert_eq!(e["body"], Value::Null);
    assert_eq!(e["head"], true);
    let missing = answer(&s, &request("/x/GAME.VER"));
    let f = event(&log_line(5, response_event("src", &missing)));
    assert_eq!(f["status"], 404);
    assert_eq!(f["body"], "Not found\n");
}

#[test]
fn a_transfer_is_recorded() {
    let s = State { config: Config::new(), payload: vec![1; 262150], manifest: None };
    let reply = answer(&s, &request("/payload.bin"));
    let blocks = reply.blocks();
    let e = event(&log_line(5, transfer_event("src", &reply, "patch.bin", &blocks[1])));
    assert_eq!(e.as_object().unwrap().len(), 9);
    assert_eq!(e["type"], "transfer");
    assert_eq!(e["source"], "src");
    assert_eq!(e["endpoint"], "/payload.bin");
    assert_eq!(e["status"], 200);
    assert_eq!(e["file"], "patch.bin");
    assert_eq!(e["offset"], 262144);
    assert_eq!(e["block_bytes"], 6);
    assert_eq!(e["bytes_sent"], 262150);
    assert_eq!(e["total"], 262150);
    let other = answer(&s, &request("/nothing"));
    let other_blocks = other.blocks();
    let f = event(&log_line(5, transfer_event("src", &other, "patch.bin", &other_blocks[0])));
    assert_eq!(f["file"], Value::Null);
    assert_eq!(f["bytes_sent"], 10);
}

#[test]
fn the_start_is_recorded() {
    let mut c = Config::new();
    c.file = "patch.bin".to_string();
    c.public_key = Some("key.der".to_string());
    c.private_key = Some("key.pem".to_string());
    let e = event(&log_line(9, startup_event("0.0.0.0:80", &c, b"abc", true, "logs/s.jsonl")));
    assert_eq!(e.as_object().unwrap().len(), 13);
    assert_eq!(e["type"], "startup");
    assert_eq!(e["bind"], "0.0.0.0:80");
    assert_eq!(e["file"], "patch.bin");
    assert_eq!(e["size"], 3);
    assert_eq!(e["tiger_hex"], "2aab1484e8c158f2bfb8c5ff41b57a525129131c957b5f93");
    assert_eq!(e["signature_validated"], true);
    assert_eq!(e["private_key_signing"], true);
    assert_eq!(e["public_key"], "key.der");
    assert_eq!(e["diagnostic_unsigned"], false);
    assert_eq!(e["manifest_enabled"], true);
    assert_eq!(e["manifest_path"], "/BLUS30072/1.3/GAME.VER");
    assert_eq!(e["destination"], "test.bin");
    assert_eq!(e["logs"], "logs/s.jsonl");
    let mut d = Config::new();
    d.diagnostic = true;
    let f = event(&log_line(9, startup_event("b", &d, b"", false, "l")));
    assert_eq!(f["signature_validated"], false);
    assert_eq!(f["private_key_signing"], false);
    assert_eq!(f["public_key"], Value::Null);
    assert_eq!(f["diagnostic_unsigned"], true);
    assert_eq!(f["manifest_enabled"], false);
}
