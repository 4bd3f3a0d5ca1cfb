//! Replies: which one a request gets, how it is written, and in which blocks its body is sent.

use crate::config::{Config, ConfigView};
use crate::request::{Request, RequestView};
use crate::start::opt_bytes;
use crate::text::{
    chars_of, decimal, find, find_char, glued, lemma_find, same_text, text_of, to_decimal,
};
use vstd::prelude::*;
use vstd::string::*;
use vstd::utf8::*;

verus! {

/// The largest block in which a body is sent.
pub const BLOCK: usize = 262144;

/// What the server serves.
#[derive(Debug)]
pub struct State {
    /// The settings.
    pub config: Config,
    /// The file for the client.
    pub payload: Vec<u8>,
    /// The manifest, where an update is announced.
    pub manifest: Option<Vec<u8>>,
}

/// The contents of a [`State`].
pub struct StateView {
    pub config: ConfigView,
    pub payload: Seq<u8>,
    pub manifest: Option<Seq<u8>>,
}

impl View for State {
    type V = StateView;

    open spec fn view(&self) -> StateView {
        StateView {
            config: self.config@,
            payload: self.payload@,
            manifest: opt_bytes(self.manifest),
        }
    }
}

/// A reply to one request.
#[derive(Debug)]
pub struct Reply<'a> {
    /// What was asked for, as it is logged.
    pub endpoint: String,
    /// The status.
    pub code: u16,
    /// The body.
    pub body: &'a [u8],
    /// The content type of the body.
    pub kind: &'static str,
    /// Whether the body is announced but not sent.
    pub head: bool,
}

/// The contents of a [`Reply`].
#[verifier::ext_equal]
pub struct ReplyView {
    pub endpoint: Seq<char>,
    pub code: u16,
    pub body: Seq<u8>,
    pub kind: Seq<char>,
    pub head: bool,
}

impl<'a> View for Reply<'a> {
    type V = ReplyView;

    open spec fn view(&self) -> ReplyView {
        ReplyView {
            endpoint: self.endpoint@,
            code: self.code,
            body: self.body@,
            kind: self.kind@,
            head: self.head,
        }
    }
}

// ---------------------------------------------------------------------------
// The answer to a request
// ---------------------------------------------------------------------------

/// Where the client looks for the manifest.
pub open spec fn manifest_path_text(c: ConfigView) -> Seq<char> {
    "/"@ + c.title + "/"@ + c.current + "/GAME.VER"@
}

/// Where the client looks for the manifest.
pub fn manifest_path(c: &Config) -> (r: String)
    ensures
        r@ == manifest_path_text(c@),
{
    let mut r: String = "/".to_owned();
    r.append(c.title.as_str());
    r.append("/");
    r.append(c.current.as_str());
    r.append("/GAME.VER");
    r
}

/// What an endpoint names: all before the first question mark.
pub open spec fn path_of(endpoint: Seq<char>) -> Seq<char> {
    endpoint.take(find(endpoint, '?') as int)
}

/// A short reply in plain text, with its body.
pub open spec fn notice(endpoint: Seq<char>, code: u16, text: Seq<char>) -> ReplyView {
    ReplyView { endpoint, code, body: encode_utf8(text), kind: "text/plain"@, head: false }
}

/// The reply to a request for a path.
pub open spec fn served(s: StateView, path: Seq<char>, head: bool) -> ReplyView {
    if path == "/payload.bin"@ {
        ReplyView {
            endpoint: path,
            code: 200,
            body: s.payload,
            kind: "application/octet-stream"@,
            head,
        }
    } else if path == manifest_path_text(s.config) {
        match s.manifest {
            Some(m) => ReplyView {
                endpoint: path,
                code: 200,
                body: m,
                kind: "text/plain"@,
                head,
            },
            None => ReplyView { head, ..notice(path, 404, "No update\n"@) },
        }
    } else {
        ReplyView { head, ..notice(path, 404, "Not found\n"@) }
    }
}

/// The reply to a complete request.
pub open spec fn answered(s: StateView, request: RequestView) -> ReplyView {
    if request.method != "GET"@ && request.method != "HEAD"@ {
        notice(request.endpoint, 405, "GET required\n"@)
    } else {
        served(s, path_of(request.endpoint), request.method == "HEAD"@)
    }
}

/// The reply to a head that does not end.
pub open spec fn head_too_large() -> ReplyView {
    notice(""@, 413, "Header too large\n"@)
}

/// The reply to a request line that is none.
pub open spec fn bad_request() -> ReplyView {
    notice(""@, 400, "Bad request\n"@)
}

/// The reply to a request whose body would be too long.
pub open spec fn body_too_large(endpoint: Seq<char>) -> ReplyView {
    notice(endpoint, 413, "Body too large\n"@)
}

fn plain(endpoint: String, code: u16, text: &'static str, head: bool) -> (r: Reply<'static>)
    ensures
        r@ == (ReplyView { head, ..notice(endpoint@, code, text@) }),
{
    Reply { endpoint, code, body: text.as_bytes(), kind: "text/plain", head }
}

/// The reply to a head that does not end.
pub fn refuse_head() -> (r: Reply<'static>)
    ensures
        r@ == head_too_large(),
{
    plain("".to_owned(), 413, "Header too large\n", false)
}

/// The reply to a request line that is none.
pub fn refuse_request_line() -> (r: Reply<'static>)
    ensures
        r@ == bad_request(),
{
    plain("".to_owned(), 400, "Bad request\n", false)
}

/// The reply to a request whose body would be too long.
pub fn refuse_body(endpoint: &str) -> (r: Reply<'static>)
    ensures
        r@ == body_too_large(endpoint@),
{
    plain(endpoint.to_owned(), 413, "Body too large\n", false)
}

/// The reply to a complete request.
pub fn answer<'a>(s: &'a State, request: &Request) -> (r: Reply<'a>)
    ensures
        r@ == answered(s@, request@),
{
    let head: bool = same_text(request.method.as_str(), "HEAD");
    if !head && !same_text(request.method.as_str(), "GET") {
        return plain(request.endpoint.clone(), 405, "GET required\n", false);
    }
    let chars: Vec<char> = chars_of(request.endpoint.as_str());
    let to: usize = find_char(chars.as_slice(), '?');
    let path: String = text_of(vstd::slice::slice_subrange(chars.as_slice(), 0, to));
    assert(path@ =~= path_of(request@.endpoint));
    if same_text(path.as_str(), "/payload.bin") {
        return Reply {
            endpoint: path,
            code: 200,
            body: s.payload.as_slice(),
            kind: "application/octet-stream",
            head,
        };
    }
    let wanted: String = manifest_path(&s.config);
    if !same_text(path.as_str(), wanted.as_str()) {
        return plain(path, 404, "Not found\n", head);
    }
    match &s.manifest {
        Some(m) => Reply { endpoint: path, code: 200, body: m.as_slice(), kind: "text/plain", head },
        None => plain(path, 404, "No update\n", head),
    }
}

// ---------------------------------------------------------------------------
// The reply on the wire
// ---------------------------------------------------------------------------

/// The words for a status.
pub open spec fn reason_text(code: u16) -> Seq<char> {
    if code == 200 {
        "OK"@
    } else if code == 404 {
        "Not Found"@
    } else if code == 405 {
        "Method Not Allowed"@
    } else if code == 400 {
        "Bad Request"@
    } else if code == 413 {
        "Content Too Large"@
    } else {
        "Error"@
    }
}

/// The words for a status.
pub fn reason(code: u16) -> (r: &'static str)
    ensures
        r@ == reason_text(code),
{
    match code {
        200 => "OK",
        404 => "Not Found",
        405 => "Method Not Allowed",
        400 => "Bad Request",
        413 => "Content Too Large",
        _ => "Error",
    }
}

/// The head of a reply, up to and with the empty line.
pub open spec fn reply_head(code: u16, length: nat, kind: Seq<char>) -> Seq<char> {
    "HTTP/1.1 "@ + decimal(code as nat) + " "@ + reason_text(code) + "\r\nContent-Length: "@
        + decimal(length) + "\r\nContent-Type: "@ + kind + "\r\nConnection: close\r\n\r\n"@
}

/// The bytes that a reply consists of.
pub open spec fn wire(r: ReplyView) -> Seq<u8> {
    encode_utf8(reply_head(r.code, r.body.len(), r.kind)) + sent(r)
}

/// The part of the body that is sent.
pub open spec fn sent(r: ReplyView) -> Seq<u8> {
    if r.head {
        Seq::empty()
    } else {
        r.body
    }
}

/// A block of a body on its way.
#[derive(Debug)]
pub struct Block<'a> {
    /// How many bytes of the body come before it.
    pub offset: usize,
    /// How many bytes of the body are sent with it.
    pub end: usize,
    /// Its bytes.
    pub bytes: &'a [u8],
}

/// How many blocks a body of `n` bytes takes.
pub open spec fn block_count(n: nat) -> nat {
    (n + BLOCK - 1) as nat / BLOCK as nat
}

/// Where the block `i` of a body of `n` bytes ends.
pub open spec fn block_end(n: nat, i: int) -> int {
    if (i + 1) * BLOCK <= n {
        (i + 1) * BLOCK
    } else {
        n as int
    }
}

/// A body cut into blocks: full ones, and what is left.
pub open spec fn cut(body: Seq<u8>) -> Seq<Seq<u8>> {
    Seq::new(
        block_count(body.len()),
        |i: int| body.subrange(i * BLOCK, block_end(body.len(), i)),
    )
}

impl<'a> Reply<'a> {
    /// The head of the reply, up to and with the empty line.
    #[verifier::rlimit(40)]
    pub fn head_text(&self) -> (r: String)
        ensures
            r@ == reply_head(self@.code, self@.body.len(), self@.kind),
    {
        let mut r: String = "HTTP/1.1 ".to_owned();
        r.append(to_decimal(self.code as u128).as_str());
        r.append(" ");
        r.append(reason(self.code));
        r.append("\r\nContent-Length: ");
        r.append(to_decimal(self.body.len() as u128).as_str());
        r.append("\r\nContent-Type: ");
        r.append(self.kind);
        r.append("\r\nConnection: close\r\n\r\n");
        r
    }

    /// The blocks in which the body is sent, in order: full ones, and what is left.
    pub fn blocks(&self) -> (r: Vec<Block<'a>>)
        ensures
            r@.len() == cut(sent(self@)).len(),
            forall|i: int|
                0 <= i < r@.len() ==> {
                    &&& (#[trigger] r@[i]).offset == i * BLOCK
                    &&& r@[i].end == block_end(sent(self@).len(), i)
                    &&& r@[i].bytes@ == cut(sent(self@))[i]
                },
    {
        let mut r: Vec<Block<'a>> = Vec::new();
        if self.head {
            return r;
        }
        let body: &'a [u8] = self.body;
        let n: usize = body.len();
        let mut offset: usize = 0;
        while offset < n
            invariant
                n == body@.len(),
                offset == (if r@.len() * BLOCK <= n {
                    r@.len() * BLOCK
                } else {
                    n as int
                }),
                r@.len() <= block_count(n as nat),
                forall|i: int|
                    0 <= i < r@.len() ==> {
                        &&& (#[trigger] r@[i]).offset == i * BLOCK
                        &&& r@[i].end == block_end(n as nat, i)
                        &&& r@[i].bytes@ == body@.subrange(i * BLOCK, block_end(n as nat, i))
                    },
            decreases n - offset,
        {
            let to: usize = if n - offset <= BLOCK {
                n
            } else {
                offset + BLOCK
            };
            let bytes: &'a [u8] = vstd::slice::slice_subrange(body, offset, to);
            r.push(Block { offset, end: to, bytes });
            offset = to;
        }
        r
    }
}

// ---------------------------------------------------------------------------
// Laws
// ---------------------------------------------------------------------------

/// What an endpoint names is all of it before its first question mark, and all of it where there
/// is none.
pub proof fn law_path_ends_at_the_query(endpoint: Seq<char>)
    ensures
        !path_of(endpoint).contains('?'),
        path_of(endpoint).len() <= endpoint.len(),
        path_of(endpoint) == endpoint.take(path_of(endpoint).len() as int),
        path_of(endpoint).len() < endpoint.len() ==> endpoint[path_of(endpoint).len() as int]
            == '?',
{
    lemma_find(endpoint, '?');
}

/// The manifest stands below the title and the version that the client has.
pub proof fn law_manifest_path_components(c: ConfigView)
    ensures
        manifest_path_text(c) == glued(
            seq![Seq::empty(), c.title, c.current, "GAME.VER"@],
            seq!['/'],
        ),
{
    reveal_strlit("/");
    reveal_strlit("GAME.VER");
    reveal_strlit("/GAME.VER");
    reveal_with_fuel(glued, 5);
    let none: Seq<char> = Seq::empty();
    let parts = seq![none, c.title, c.current, "GAME.VER"@];
    assert(parts.drop_last() =~= seq![none, c.title, c.current]);
    assert(parts.drop_last().drop_last() =~= seq![none, c.title]);
    assert(parts.drop_last().drop_last().drop_last() =~= seq![none]);
    assert("/"@ =~= seq!['/']);
    assert("/GAME.VER"@ =~= seq!['/'] + "GAME.VER"@);
    assert(glued(parts, seq!['/']) =~= none + seq!['/'] + c.title + seq!['/'] + c.current + seq![
        '/',
    ] + "GAME.VER"@);
    assert(manifest_path_text(c) =~= glued(parts, seq!['/']));
}

/// What a request is answered, for every method and every endpoint.
pub proof fn law_every_request_has_its_answer(s: StateView, q: RequestView)
    ensures
        ({
            let r = answered(s, q);
            let path = path_of(q.endpoint);
            let reads = q.method == "GET"@ || q.method == "HEAD"@;
            let update = glued(
                seq![Seq::empty(), s.config.title, s.config.current, "GAME.VER"@],
                seq!['/'],
            );
            &&& !reads ==> r.code == 405 && r.endpoint == q.endpoint && r.body == encode_utf8(
                "GET required\n"@,
            ) && r.kind == "text/plain"@ && !r.head
            &&& reads ==> r.endpoint == path && (r.head <==> q.method == "HEAD"@)
            &&& reads && path == "/payload.bin"@ ==> r.code == 200 && r.body == s.payload && r.kind
                == "application/octet-stream"@
            &&& reads && path == update ==> r.kind == "text/plain"@ && match s.manifest {
                Some(m) => r.code == 200 && r.body == m,
                None => r.code == 404 && r.body == encode_utf8("No update\n"@),
            }
            &&& reads && path != "/payload.bin"@ && path != update ==> r.code == 404 && r.body
                == encode_utf8("Not found\n"@) && r.kind == "text/plain"@
        }),
{
    law_manifest_path_components(s.config);
    reveal_strlit("/payload.bin");
    reveal_strlit("/GAME.VER");
    let path = manifest_path_text(s.config);
    assert(path[path.len() - 1] == "/GAME.VER"@[8]);
    assert("/GAME.VER"@[8] != "/payload.bin"@[11]);
}

/// What is answered without a complete request.
pub proof fn law_refusals(endpoint: Seq<char>)
    ensures
        ({
            let r = head_too_large();
            r.code == 413 && r.endpoint.len() == 0 && r.body == encode_utf8("Header too large\n"@)
                && r.kind == "text/plain"@ && !r.head
        }),
        ({
            let r = bad_request();
            r.code == 400 && r.endpoint.len() == 0 && r.body == encode_utf8("Bad request\n"@)
                && r.kind == "text/plain"@ && !r.head
        }),
        ({
            let r = body_too_large(endpoint);
            r.code == 413 && r.endpoint == endpoint && r.body == encode_utf8("Body too large\n"@)
                && r.kind == "text/plain"@ && !r.head
        }),
{
    reveal_strlit("");
}

/// The words for each status that the server uses, and for every other.
pub proof fn law_reasons(code: u16)
    ensures
        reason_text(200) == "OK"@,
        reason_text(400) == "Bad Request"@,
        reason_text(404) == "Not Found"@,
        reason_text(405) == "Method Not Allowed"@,
        reason_text(413) == "Content Too Large"@,
        code != 200 && code != 400 && code != 404 && code != 405 && code != 413 ==> reason_text(
            code,
        ) == "Error"@,
{
}

/// The whole body is sent, unless only the head was asked for, and then nothing of it.
pub proof fn law_body_is_sent_or_not(r: ReplyView)
    ensures
        !r.head ==> sent(r) == r.body,
        r.head ==> sent(r).len() == 0,
{
}

/// All blocks but the last are full, and each begins where the one before it ended.
pub proof fn law_blocks_are_full(body: Seq<u8>, i: int)
    requires
        0 <= i < cut(body).len(),
    ensures
        i < cut(body).len() - 1 ==> cut(body)[i].len() == 262144,
        0 < cut(body)[i].len() <= 262144,
        block_end(body.len(), i) == i * 262144 + cut(body)[i].len(),
        cut(body)[i] == body.subrange(i * 262144, i * 262144 + cut(body)[i].len()),
        i == cut(body).len() - 1 ==> block_end(body.len(), i) == body.len(),
{
}

} // verus!
