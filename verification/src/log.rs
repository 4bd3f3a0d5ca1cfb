//! The session's log: what is recorded of each event, as one JSON object per line.

use crate::config::{Config, ConfigView};
use crate::reply::{
    block_end, cut, law_blocks_are_full, law_manifest_path_components, manifest_path,
    manifest_path_text, reply_head, sent, Block, Reply, ReplyView,
};
use crate::request::{Request, RequestView};
use crate::signing::{fingerprint, tiger_of};
use crate::text::{
    chars_of, ends_with, from_utf8_lossy, glued, hex, law_hex_digits, lossy_text, same_text, to_hex,
};
use vstd::prelude::*;
use vstd::string::*;

verus! {

// ---------------------------------------------------------------------------
// JSON
// ---------------------------------------------------------------------------

/// A JSON object.
#[verifier::external_type_specification]
#[verifier::external_body]
#[verifier::reject_recursive_types(K)]
#[verifier::reject_recursive_types(V)]
pub struct ExMap<K, V>(serde_json::Map<K, V>);

/// A JSON value.
#[verifier::external_type_specification]
#[verifier::external_body]
pub struct ExValue(serde_json::Value);

/// A value for an entry of an object.
pub enum Json {
    Null,
    Bool(bool),
    Number(u64),
    Text(String),
    Object(serde_json::Map<String, serde_json::Value>),
}

/// The contents of a [`Json`].
pub enum JsonView {
    Null,
    Bool(bool),
    Number(nat),
    Text(Seq<char>),
    Object(Map<Seq<char>, JsonView>),
}

impl View for Json {
    type V = JsonView;

    open spec fn view(&self) -> JsonView {
        match *self {
            Json::Null => JsonView::Null,
            Json::Bool(b) => JsonView::Bool(b),
            Json::Number(n) => JsonView::Number(n as nat),
            Json::Text(s) => JsonView::Text(s@),
            Json::Object(m) => JsonView::Object(object_entries(m)),
        }
    }
}

/// The entries of a `serde_json::Map`.
pub uninterp spec fn object_entries(
    m: serde_json::Map<String, serde_json::Value>,
) -> Map<Seq<char>, JsonView>;

/// The text that `serde_json` writes for an object with these entries.
pub uninterp spec fn json_text(entries: Map<Seq<char>, JsonView>) -> Seq<char>;

/// No entry at all.
pub open spec fn no_entries() -> Map<Seq<char>, JsonView> {
    map![]
}

/// Calls `serde_json::Map::new`, which makes an object without entries.
#[verifier::external_body]
fn new_object() -> (r: serde_json::Map<String, serde_json::Value>)
    ensures
        object_entries(r) == no_entries(),
{
    serde_json::Map::new()
}

/// Calls `serde_json::Map::insert`, which adds an entry or replaces the one with the same key.
#[verifier::external_body]
fn insert(object: &mut serde_json::Map<String, serde_json::Value>, key: &str, value: Json)
    ensures
        object_entries(*final(object)) == object_entries(*old(object)).insert(key@, value@),
{
    let value = match value {
        Json::Null => serde_json::Value::Null,
        Json::Bool(b) => serde_json::Value::Bool(b),
        Json::Number(n) => serde_json::Value::from(n),
        Json::Text(s) => serde_json::Value::String(s),
        Json::Object(m) => serde_json::Value::Object(m),
    };
    object.insert(key.to_owned(), value);
}

/// Calls `to_string` on a `serde_json::Value` that holds the object. The text depends on the
/// entries alone, because the object keeps them in the order of their keys, and is compact: it
/// has no line feed, since those within strings are escaped.
#[verifier::external_body]
fn render(object: serde_json::Map<String, serde_json::Value>) -> (r: String)
    ensures
        r@ == json_text(object_entries(object)),
        !r@.contains('\n'),
{
    serde_json::Value::Object(object).to_string()
}

// ---------------------------------------------------------------------------
// Events
// ---------------------------------------------------------------------------

/// Something that happened.
#[derive(Debug)]
pub struct Event {
    fields: serde_json::Map<String, serde_json::Value>,
}

impl View for Event {
    type V = Map<Seq<char>, JsonView>;

    closed spec fn view(&self) -> Map<Seq<char>, JsonView> {
        object_entries(self.fields)
    }
}

/// The entries of a line of the log.
pub open spec fn line_entries(ms: nat, event: Map<Seq<char>, JsonView>) -> Map<
    Seq<char>,
    JsonView,
> {
    map!["timestamp_unix_ms"@ => JsonView::Number(ms), "event"@ => JsonView::Object(event)]
}

/// The line of the log for an event at a time, in milliseconds since the epoch. It holds no
/// line feed.
pub fn log_line(ms: u64, event: Event) -> (r: String)
    ensures
        r@ == json_text(line_entries(ms as nat, event@)),
        !r@.contains('\n'),
{
    let mut line: serde_json::Map<String, serde_json::Value> = new_object();
    insert(&mut line, "timestamp_unix_ms", Json::Number(ms));
    insert(&mut line, "event", Json::Object(event.fields));
    render(line)
}

/// What is recorded of a request.
pub open spec fn request_entries(
    source: Seq<char>,
    destination: Seq<char>,
    request: RequestView,
    body: Seq<u8>,
) -> Map<Seq<char>, JsonView> {
    map![
        "type"@ => JsonView::Text("request"@),
        "source"@ => JsonView::Text(source),
        "destination"@ => JsonView::Text(destination),
        "endpoint"@ => JsonView::Text(request.endpoint),
        "method"@ => JsonView::Text(request.method),
        "headers"@ => JsonView::Text(request.headers),
        "body_ascii"@ => JsonView::Text(lossy_text(body)),
        "body_hex"@ => JsonView::Text(hex(body)),
        "body_size"@ => JsonView::Number(request.length)
    ]
}

/// Records a request that came from `source` to `destination`.
pub fn request_event(source: &str, destination: &str, request: &Request, body: &[u8]) -> (r: Event)
    ensures
        r@ == request_entries(source@, destination@, request@, body@),
{
    let mut fields: serde_json::Map<String, serde_json::Value> = new_object();
    insert(&mut fields, "type", Json::Text("request".to_owned()));
    insert(&mut fields, "source", Json::Text(source.to_owned()));
    insert(&mut fields, "destination", Json::Text(destination.to_owned()));
    insert(&mut fields, "endpoint", Json::Text(request.endpoint.clone()));
    insert(&mut fields, "method", Json::Text(request.method.clone()));
    insert(&mut fields, "headers", Json::Text(request.headers.clone()));
    insert(&mut fields, "body_ascii", Json::Text(from_utf8_lossy(body)));
    insert(&mut fields, "body_hex", Json::Text(to_hex(body)));
    insert(&mut fields, "body_size", Json::Number(request.length as u64));
    Event { fields }
}

/// What is recorded of the head of a reply. The body stands there only for a manifest.
pub open spec fn response_entries(source: Seq<char>, reply: ReplyView) -> Map<
    Seq<char>,
    JsonView,
> {
    map![
        "type"@ => JsonView::Text("response"@),
        "source"@ => JsonView::Text(source),
        "endpoint"@ => JsonView::Text(reply.endpoint),
        "status"@ => JsonView::Number(reply.code as nat),
        "headers"@ => JsonView::Text(reply_head(reply.code, reply.body.len(), reply.kind)),
        "response_size"@ => JsonView::Number(reply.body.len()),
        "body"@ => (if "GAME.VER"@.is_suffix_of(reply.endpoint) {
            JsonView::Text(lossy_text(reply.body))
        } else {
            JsonView::Null
        }),
        "head"@ => JsonView::Bool(reply.head)
    ]
}

/// Records the head of a reply to `source`.
pub fn response_event(source: &str, reply: &Reply) -> (r: Event)
    ensures
        r@ == response_entries(source@, reply@),
{
    let endpoint: Vec<char> = chars_of(reply.endpoint.as_str());
    let body: Json = if ends_with(endpoint.as_slice(), "GAME.VER") {
        Json::Text(from_utf8_lossy(reply.body))
    } else {
        Json::Null
    };
    let mut fields: serde_json::Map<String, serde_json::Value> = new_object();
    insert(&mut fields, "type", Json::Text("response".to_owned()));
    insert(&mut fields, "source", Json::Text(source.to_owned()));
    insert(&mut fields, "endpoint", Json::Text(reply.endpoint.clone()));
    insert(&mut fields, "status", Json::Number(reply.code as u64));
    insert(&mut fields, "headers", Json::Text(reply.head_text()));
    insert(&mut fields, "response_size", Json::Number(reply.body.len() as u64));
    insert(&mut fields, "body", body);
    insert(&mut fields, "head", Json::Bool(reply.head));
    Event { fields }
}

/// What is recorded of a block that was sent. The file is named only for the payload.
pub open spec fn transfer_entries(
    source: Seq<char>,
    reply: ReplyView,
    file: Seq<char>,
    offset: nat,
    size: nat,
    end: nat,
) -> Map<Seq<char>, JsonView> {
    map![
        "type"@ => JsonView::Text("transfer"@),
        "source"@ => JsonView::Text(source),
        "endpoint"@ => JsonView::Text(reply.endpoint),
        "status"@ => JsonView::Number(reply.code as nat),
        "file"@ => (if reply.code == 200 && reply.endpoint == "/payload.bin"@ {
            JsonView::Text(file)
        } else {
            JsonView::Null
        }),
        "offset"@ => JsonView::Number(offset),
        "block_bytes"@ => JsonView::Number(size),
        "bytes_sent"@ => JsonView::Number(end),
        "total"@ => JsonView::Number(reply.body.len())
    ]
}

/// Records a block that was sent to `source`.
pub fn transfer_event(source: &str, reply: &Reply, file: &str, block: &Block) -> (r: Event)
    ensures
        r@ == transfer_entries(
            source@,
            reply@,
            file@,
            block.offset as nat,
            block.bytes@.len(),
            block.end as nat,
        ),
{
    let named: Json = if reply.code == 200 && same_text(reply.endpoint.as_str(), "/payload.bin") {
        Json::Text(file.to_owned())
    } else {
        Json::Null
    };
    let mut fields: serde_json::Map<String, serde_json::Value> = new_object();
    insert(&mut fields, "type", Json::Text("transfer".to_owned()));
    insert(&mut fields, "source", Json::Text(source.to_owned()));
    insert(&mut fields, "endpoint", Json::Text(reply.endpoint.clone()));
    insert(&mut fields, "status", Json::Number(reply.code as u64));
    insert(&mut fields, "file", named);
    insert(&mut fields, "offset", Json::Number(block.offset as u64));
    insert(&mut fields, "block_bytes", Json::Number(block.bytes.len() as u64));
    insert(&mut fields, "bytes_sent", Json::Number(block.end as u64));
    insert(&mut fields, "total", Json::Number(reply.body.len() as u64));
    Event { fields }
}

/// What is recorded of a connection that failed.
pub open spec fn error_entries(source: Seq<char>, error: Seq<char>) -> Map<Seq<char>, JsonView> {
    map![
        "type"@ => JsonView::Text("error"@),
        "source"@ => JsonView::Text(source),
        "error"@ => JsonView::Text(error)
    ]
}

/// Records a connection from `source` that failed.
pub fn error_event(source: &str, error: &str) -> (r: Event)
    ensures
        r@ == error_entries(source@, error@),
{
    let mut fields: serde_json::Map<String, serde_json::Value> = new_object();
    insert(&mut fields, "type", Json::Text("error".to_owned()));
    insert(&mut fields, "source", Json::Text(source.to_owned()));
    insert(&mut fields, "error", Json::Text(error.to_owned()));
    Event { fields }
}

/// What is recorded of a connection that could not be accepted.
pub open spec fn accept_error_entries(error: Seq<char>) -> Map<Seq<char>, JsonView> {
    map!["type"@ => JsonView::Text("accept_error"@), "error"@ => JsonView::Text(error)]
}

/// Records a connection that could not be accepted.
pub fn accept_error_event(error: &str) -> (r: Event)
    ensures
        r@ == accept_error_entries(error@),
{
    let mut fields: serde_json::Map<String, serde_json::Value> = new_object();
    insert(&mut fields, "type", Json::Text("accept_error".to_owned()));
    insert(&mut fields, "error", Json::Text(error.to_owned()));
    Event { fields }
}

/// What is recorded when the server starts.
pub open spec fn startup_entries(
    bind: Seq<char>,
    c: ConfigView,
    payload: Seq<u8>,
    announced: bool,
    logs: Seq<char>,
) -> Map<Seq<char>, JsonView> {
    map![
        "type"@ => JsonView::Text("startup"@),
        "bind"@ => JsonView::Text(bind),
        "file"@ => JsonView::Text(c.file),
        "size"@ => JsonView::Number(payload.len()),
        "tiger_hex"@ => JsonView::Text(hex(tiger_of(payload))),
        "signature_validated"@ => JsonView::Bool(c.signature is Some || c.private_key is Some),
        "private_key_signing"@ => JsonView::Bool(c.private_key is Some),
        "public_key"@ => (match c.public_key {
            Some(path) => JsonView::Text(path),
            None => JsonView::Null,
        }),
        "diagnostic_unsigned"@ => JsonView::Bool(c.diagnostic),
        "manifest_enabled"@ => JsonView::Bool(announced),
        "manifest_path"@ => JsonView::Text(manifest_path_text(c)),
        "destination"@ => JsonView::Text(c.destination),
        "logs"@ => JsonView::Text(logs)
    ]
}

/// Records that the server listens at `bind`, and whether it announces an update.
pub fn startup_event(bind: &str, c: &Config, payload: &[u8], announced: bool, logs: &str) -> (r:
    Event)
    ensures
        r@ == startup_entries(bind@, c@, payload@, announced, logs@),
{
    let public_key: Json = match &c.public_key {
        Some(path) => Json::Text(path.clone()),
        None => Json::Null,
    };
    let validated: bool = c.signature.is_some() || c.private_key.is_some();
    let mut fields: serde_json::Map<String, serde_json::Value> = new_object();
    insert(&mut fields, "type", Json::Text("startup".to_owned()));
    insert(&mut fields, "bind", Json::Text(bind.to_owned()));
    insert(&mut fields, "file", Json::Text(c.file.clone()));
    insert(&mut fields, "size", Json::Number(payload.len() as u64));
    insert(&mut fields, "tiger_hex", Json::Text(fingerprint(payload)));
    insert(&mut fields, "signature_validated", Json::Bool(validated));
    insert(&mut fields, "private_key_signing", Json::Bool(c.private_key.is_some()));
    insert(&mut fields, "public_key", public_key);
    insert(&mut fields, "diagnostic_unsigned", Json::Bool(c.diagnostic));
    insert(&mut fields, "manifest_enabled", Json::Bool(announced));
    insert(&mut fields, "manifest_path", Json::Text(manifest_path(c)));
    insert(&mut fields, "destination", Json::Text(c.destination.clone()));
    insert(&mut fields, "logs", Json::Text(logs.to_owned()));
    Event { fields }
}

// ---------------------------------------------------------------------------
// Laws
// ---------------------------------------------------------------------------

/// A line tells when the event was and what it was, and nothing else.
pub proof fn law_line_holds_time_and_event(ms: nat, event: Map<Seq<char>, JsonView>)
    ensures
        line_entries(ms, event)["timestamp_unix_ms"@] == JsonView::Number(ms),
        line_entries(ms, event)["event"@] == JsonView::Object(event),
        line_entries(ms, event).dom() == set!["timestamp_unix_ms"@, "event"@],
{
    reveal_strlit("timestamp_unix_ms");
    reveal_strlit("event");
    assert("timestamp_unix_ms"@.len() != "event"@.len());
    assert(line_entries(ms, event).dom() =~= set!["timestamp_unix_ms"@, "event"@]);
}

/// The record of a request tells who asked whom for what, the head as it came, and the body: its
/// size, its text where it is text, and every byte of it in hexadecimal.
#[verifier::rlimit(40)]
pub proof fn law_request_record(
    source: Seq<char>,
    destination: Seq<char>,
    q: RequestView,
    body: Seq<u8>,
)
    ensures
        ({
            let e = request_entries(source, destination, q, body);
            &&& e["type"@] == JsonView::Text("request"@)
            &&& e["source"@] == JsonView::Text(source)
            &&& e["destination"@] == JsonView::Text(destination)
            &&& e["endpoint"@] == JsonView::Text(q.endpoint)
            &&& e["method"@] == JsonView::Text(q.method)
            &&& e["headers"@] == JsonView::Text(q.headers)
            &&& e["body_ascii"@] == JsonView::Text(lossy_text(body))
            &&& e["body_hex"@] matches JsonView::Text(t) && t.len() == 2 * body.len() && forall|
                i: int,
            |
                0 <= i < body.len() ==> t[2 * i] == "0123456789abcdef"@[#[trigger] body[i] as int
                    / 16] && t[2 * i + 1] == "0123456789abcdef"@[body[i] as int % 16]
            &&& e["body_size"@] == JsonView::Number(q.length)
            &&& e.dom() == set![
                "type"@,
                "source"@,
                "destination"@,
                "endpoint"@,
                "method"@,
                "headers"@,
                "body_ascii"@,
                "body_hex"@,
                "body_size"@,
            ]
        }),
{
    lemma_keys();
    law_hex_digits(body);
    let e = request_entries(source, destination, q, body);
    assert(e["body_hex"@] == JsonView::Text(hex(body)));
    assert(e.dom() =~= set![
        "type"@,
        "source"@,
        "destination"@,
        "endpoint"@,
        "method"@,
        "headers"@,
        "body_ascii"@,
        "body_hex"@,
        "body_size"@,
    ]);
}

/// The record of a reply tells its status, its head as it is sent, how long its body is and
/// whether it is sent. It holds the body itself just where the endpoint is that of a manifest.
#[verifier::rlimit(40)]
pub proof fn law_response_record(source: Seq<char>, r: ReplyView, before: Seq<char>)
    ensures
        ({
            let e = response_entries(source, r);
            &&& e["type"@] == JsonView::Text("response"@)
            &&& e["source"@] == JsonView::Text(source)
            &&& e["endpoint"@] == JsonView::Text(r.endpoint)
            &&& e["status"@] == JsonView::Number(r.code as nat)
            &&& e["headers"@] == JsonView::Text(reply_head(r.code, r.body.len(), r.kind))
            &&& e["response_size"@] == JsonView::Number(r.body.len())
            &&& r.endpoint == before + "GAME.VER"@ ==> e["body"@] == JsonView::Text(
                lossy_text(r.body),
            )
            &&& e["body"@] == JsonView::Text(lossy_text(r.body)) || e["body"@] == JsonView::Null
            &&& e["body"@] != JsonView::Null ==> r.endpoint.len() >= 8 && r.endpoint.skip(
                r.endpoint.len() - 8,
            ) == "GAME.VER"@
            &&& e["head"@] == JsonView::Bool(r.head)
            &&& e.dom() == set![
                "type"@,
                "source"@,
                "endpoint"@,
                "status"@,
                "headers"@,
                "response_size"@,
                "body"@,
                "head"@,
            ]
        }),
{
    lemma_keys();
    reveal_strlit("GAME.VER");
    let e = response_entries(source, r);
    if r.endpoint == before + "GAME.VER"@ {
        assert(r.endpoint.subrange(r.endpoint.len() - 8, r.endpoint.len() as int)
            =~= "GAME.VER"@);
        assert("GAME.VER"@.is_suffix_of(r.endpoint));
    }
    if "GAME.VER"@.is_suffix_of(r.endpoint) {
        assert(r.endpoint.skip(r.endpoint.len() - 8) =~= "GAME.VER"@);
    }
    assert(e.dom() =~= set![
        "type"@,
        "source"@,
        "endpoint"@,
        "status"@,
        "headers"@,
        "response_size"@,
        "body"@,
        "head"@,
    ]);
}

/// The record of a block tells how much of the body was sent before it, with it and in all. It
/// names the file just where the block is one of the payload.
#[verifier::rlimit(40)]
pub proof fn law_transfer_record(source: Seq<char>, r: ReplyView, file: Seq<char>, i: int)
    requires
        0 <= i < cut(sent(r)).len(),
    ensures
        ({
            let block = cut(sent(r))[i];
            let e = transfer_entries(
                source,
                r,
                file,
                (i * 262144) as nat,
                block.len(),
                block_end(sent(r).len(), i) as nat,
            );
            &&& e["type"@] == JsonView::Text("transfer"@)
            &&& e["source"@] == JsonView::Text(source)
            &&& e["endpoint"@] == JsonView::Text(r.endpoint)
            &&& e["status"@] == JsonView::Number(r.code as nat)
            &&& r.code == 200 && r.endpoint == "/payload.bin"@ ==> e["file"@] == JsonView::Text(
                file,
            )
            &&& r.code != 200 || r.endpoint != "/payload.bin"@ ==> e["file"@] == JsonView::Null
            &&& e["offset"@] matches JsonView::Number(before) && e["block_bytes"@] matches JsonView::Number(
                size,
            ) && e["bytes_sent"@] matches JsonView::Number(after) && before + size == after && size
                == block.len() && block == sent(r).subrange(before as int, after as int)
            &&& e["total"@] == JsonView::Number(r.body.len())
            &&& e.dom() == set![
                "type"@,
                "source"@,
                "endpoint"@,
                "status"@,
                "file"@,
                "offset"@,
                "block_bytes"@,
                "bytes_sent"@,
                "total"@,
            ]
        }),
{
    lemma_keys();
    law_blocks_are_full(sent(r), i);
    let block = cut(sent(r))[i];
    let e = transfer_entries(
        source,
        r,
        file,
        (i * 262144) as nat,
        block.len(),
        block_end(sent(r).len(), i) as nat,
    );
    assert(e["offset"@] == JsonView::Number((i * 262144) as nat));
    assert(e["block_bytes"@] == JsonView::Number(block.len()));
    assert(e["bytes_sent"@] == JsonView::Number(block_end(sent(r).len(), i) as nat));
    assert(e.dom() =~= set![
        "type"@,
        "source"@,
        "endpoint"@,
        "status"@,
        "file"@,
        "offset"@,
        "block_bytes"@,
        "bytes_sent"@,
        "total"@,
    ]);
}

/// The numbers of a block are recorded as they are given.
pub proof fn law_transfer_numbers(
    source: Seq<char>,
    r: ReplyView,
    file: Seq<char>,
    offset: nat,
    size: nat,
    end: nat,
)
    ensures
        ({
            let e = transfer_entries(source, r, file, offset, size, end);
            &&& e["source"@] == JsonView::Text(source)
            &&& e["offset"@] == JsonView::Number(offset)
            &&& e["block_bytes"@] == JsonView::Number(size)
            &&& e["bytes_sent"@] == JsonView::Number(end)
            &&& e["total"@] == JsonView::Number(r.body.len())
        }),
{
    lemma_keys();
}

/// The record of a failure tells whose connection it was, where there was one, and the words of
/// the fault.
pub proof fn law_error_records(source: Seq<char>, error: Seq<char>)
    ensures
        ({
            let e = error_entries(source, error);
            &&& e["type"@] == JsonView::Text("error"@)
            &&& e["source"@] == JsonView::Text(source)
            &&& e["error"@] == JsonView::Text(error)
            &&& e.dom() == set!["type"@, "source"@, "error"@]
        }),
        ({
            let e = accept_error_entries(error);
            &&& e["type"@] == JsonView::Text("accept_error"@)
            &&& e["error"@] == JsonView::Text(error)
            &&& e.dom() == set!["type"@, "error"@]
        }),
{
    lemma_keys();
    assert(error_entries(source, error).dom() =~= set!["type"@, "source"@, "error"@]);
    assert(accept_error_entries(error).dom() =~= set!["type"@, "error"@]);
}

/// The record of the start tells where the server listens, what it serves under which digest,
/// how the signature came about, and whether and where an update is announced.
#[verifier::rlimit(40)]
pub proof fn law_startup_record(
    bind: Seq<char>,
    c: ConfigView,
    payload: Seq<u8>,
    announced: bool,
    logs: Seq<char>,
)
    ensures
        ({
            let e = startup_entries(bind, c, payload, announced, logs);
            &&& e["type"@] == JsonView::Text("startup"@)
            &&& e["bind"@] == JsonView::Text(bind)
            &&& e["file"@] == JsonView::Text(c.file)
            &&& e["size"@] == JsonView::Number(payload.len())
            &&& e["tiger_hex"@] matches JsonView::Text(t) && t.len() == 2 * tiger_of(payload).len()
                && forall|i: int|
                0 <= i < tiger_of(payload).len() ==> t[2 * i]
                    == "0123456789abcdef"@[#[trigger] tiger_of(payload)[i] as int / 16] && t[2 * i
                    + 1] == "0123456789abcdef"@[tiger_of(payload)[i] as int % 16]
            &&& e["signature_validated"@] == JsonView::Bool(
                !(c.signature is None && c.private_key is None),
            )
            &&& e["private_key_signing"@] == JsonView::Bool(c.private_key is Some)
            &&& c.public_key matches Some(path) ==> e["public_key"@] == JsonView::Text(path)
            &&& c.public_key is None ==> e["public_key"@] == JsonView::Null
            &&& e["diagnostic_unsigned"@] == JsonView::Bool(c.diagnostic)
            &&& e["manifest_enabled"@] == JsonView::Bool(announced)
            &&& e["manifest_path"@] == JsonView::Text(
                glued(seq![Seq::empty(), c.title, c.current, "GAME.VER"@], seq!['/']),
            )
            &&& e["destination"@] == JsonView::Text(c.destination)
            &&& e["logs"@] == JsonView::Text(logs)
            &&& e.dom() == set![
                "type"@,
                "bind"@,
                "file"@,
                "size"@,
                "tiger_hex"@,
                "signature_validated"@,
                "private_key_signing"@,
                "public_key"@,
                "diagnostic_unsigned"@,
                "manifest_enabled"@,
                "manifest_path"@,
                "destination"@,
                "logs"@,
            ]
        }),
{
    lemma_keys();
    law_hex_digits(tiger_of(payload));
    law_manifest_path_components(c);
    let e = startup_entries(bind, c, payload, announced, logs);
    assert(e["tiger_hex"@] == JsonView::Text(hex(tiger_of(payload))));
    assert(e.dom() =~= set![
        "type"@,
        "bind"@,
        "file"@,
        "size"@,
        "tiger_hex"@,
        "signature_validated"@,
        "private_key_signing"@,
        "public_key"@,
        "diagnostic_unsigned"@,
        "manifest_enabled"@,
        "manifest_path"@,
        "destination"@,
        "logs"@,
    ]);
}

/// The keys differ, those of one length in the character that is given.
proof fn lemma_keys()
    ensures
        "type"@.len() == 4 && "type"@[0] == 't',
        "bind"@.len() == 4 && "bind"@[0] == 'b' && "bind"@[1] == 'i',
        "file"@.len() == 4 && "file"@[0] == 'f',
        "size"@.len() == 4 && "size"@[0] == 's',
        "body"@.len() == 4 && "body"@[0] == 'b' && "body"@[1] == 'o',
        "head"@.len() == 4 && "head"@[0] == 'h',
        "logs"@.len() == 4 && "logs"@[0] == 'l',
        "error"@.len() == 5 && "error"@[0] == 'e',
        "total"@.len() == 5 && "total"@[0] == 't',
        "source"@.len() == 6 && "source"@[0] == 's' && "source"@[1] == 'o',
        "status"@.len() == 6 && "status"@[0] == 's' && "status"@[1] == 't',
        "method"@.len() == 6 && "method"@[0] == 'm',
        "offset"@.len() == 6 && "offset"@[0] == 'o',
        "headers"@.len() == 7,
        "endpoint"@.len() == 8 && "endpoint"@[0] == 'e',
        "body_hex"@.len() == 8 && "body_hex"@[0] == 'b',
        "body_size"@.len() == 9 && "body_size"@[0] == 'b',
        "tiger_hex"@.len() == 9 && "tiger_hex"@[0] == 't',
        "body_ascii"@.len() == 10 && "body_ascii"@[1] == 'o',
        "bytes_sent"@.len() == 10 && "bytes_sent"@[1] == 'y',
        "public_key"@.len() == 10 && "public_key"@[1] == 'u',
        "destination"@.len() == 11 && "destination"@[0] == 'd',
        "block_bytes"@.len() == 11 && "block_bytes"@[0] == 'b',
        "response_size"@.len() == 13 && "response_size"@[0] == 'r',
        "manifest_path"@.len() == 13 && "manifest_path"@[0] == 'm',
        "manifest_enabled"@.len() == 16,
        "signature_validated"@.len() == 19 && "signature_validated"@[0] == 's',
        "private_key_signing"@.len() == 19 && "private_key_signing"@[0] == 'p',
        "diagnostic_unsigned"@.len() == 19 && "diagnostic_unsigned"@[0] == 'd',
{
    reveal_strlit("type");
    reveal_strlit("bind");
    reveal_strlit("file");
    reveal_strlit("size");
    reveal_strlit("body");
    reveal_strlit("head");
    reveal_strlit("logs");
    reveal_strlit("error");
    reveal_strlit("total");
    reveal_strlit("source");
    reveal_strlit("status");
    reveal_strlit("method");
    reveal_strlit("offset");
    reveal_strlit("headers");
    reveal_strlit("endpoint");
    reveal_strlit("body_hex");
    reveal_strlit("body_size");
    reveal_strlit("tiger_hex");
    reveal_strlit("body_ascii");
    reveal_strlit("bytes_sent");
    reveal_strlit("public_key");
    reveal_strlit("destination");
    reveal_strlit("block_bytes");
    reveal_strlit("response_size");
    reveal_strlit("manifest_path");
    reveal_strlit("manifest_enabled");
    reveal_strlit("signature_validated");
    reveal_strlit("private_key_signing");
    reveal_strlit("diagnostic_unsigned");
}

} // verus!
