//! Whole messages: what is written is read back, by the server and by its client.

use crate::config::{valid, ConfigView};
use crate::connection::{joined, law_chunks_do_not_matter, law_decision_is_final, outcome};
use crate::encoding::{base64_bytes, law_base64_reads_back};
use crate::manifest::{
    client_lines, law_manifest_reads_back, manifest_text, required_kb, ManifestError,
};
use crate::reply::{
    answered, block_end, cut, manifest_path_text, notice, path_of, reason_text, reply_head, sent, served, wire,
    ReplyView, StateView, BLOCK,
};
use crate::request::{
    ends_head, head_end, is_request_line, law_content_length_is_its_number,
    law_fields_are_read_in_order, law_other_fields_are_ignored, law_what_bytes_amount_to,
    lemma_head_end_is, read_field, read_fields, read_head, verdict, RequestFault, RequestView,
    Verdict, MAX_BODY, MAX_HEAD,
};
use crate::signing::{accepts, law_signature_is_token, PublicKeyView, Signature};
use crate::start::announcement_bytes;
use crate::text::{
    decimal, equal_ignoring_case, find, glued, is_white_space, law_case_is_that_of_ascii_letters,
    law_decimal_reads_back, lemma_encode_concat, lemma_encode_without, lemma_find, lemma_find_is,
    lemma_lines_nonempty, lines, number, pieces, trimmed, words, NumberError,
};
use vstd::prelude::*;
use vstd::string::*;
use vstd::utf8::*;

verus! {

/// Lines, each with its line end.
pub open spec fn ended(fields: Seq<Seq<char>>) -> Seq<char>
    decreases fields.len(),
{
    if fields.len() == 0 {
        Seq::empty()
    } else {
        ended(fields.drop_last()) + fields.last() + "\r\n"@
    }
}

/// The head of a message: a first line, fields, and an empty line.
pub open spec fn message_head(first: Seq<char>, fields: Seq<Seq<char>>) -> Seq<char> {
    first + "\r\n"@ + ended(fields) + "\r\n"@
}

/// A line of a head: not empty and without carriage return.
pub open spec fn is_line(s: Seq<char>) -> bool {
    s.len() > 0 && !s.contains('\r')
}

/// A word: not empty and without white space.
pub open spec fn is_word(s: Seq<char>) -> bool {
    s.len() > 0 && forall|i: int| 0 <= i < s.len() ==> !is_white_space(#[trigger] s[i])
}

// ---------------------------------------------------------------------------
// Lines and words
// ---------------------------------------------------------------------------

proof fn lemma_lines_text(a: Seq<char>, line: Seq<char>)
    requires
        lines(a).last().len() == 0,
        !line.contains('\r'),
    ensures
        lines(a + line) == lines(a).drop_last().push(line),
    decreases line.len(),
{
    lemma_lines_nonempty(a);
    if line.len() == 0 {
        assert(a + line =~= a);
        assert(lines(a).last() =~= line);
        assert(lines(a).drop_last().push(line) =~= lines(a));
    } else {
        let before = line.drop_last();
        assert forall|k: int| 0 <= k < before.len() implies before[k] != '\r' by {
            assert(line[k] == before[k]);
            assert(line.contains(line[k]));
        }
        lemma_lines_text(a, before);
        assert((a + line).drop_last() =~= a + before);
        assert(line.contains(line.last()));
        if before.len() > 0 {
            assert(before.last() != '\r');
        }
        let known = lines(a + before);
        assert(known.last() == before);
        assert(known.drop_last() =~= lines(a).drop_last());
        assert(before.push(line.last()) =~= line);
    }
}

proof fn lemma_lines_ended(a: Seq<char>, line: Seq<char>)
    requires
        lines(a).last().len() == 0,
        !line.contains('\r'),
    ensures
        lines(a + line + "\r\n"@) == lines(a).drop_last().push(line).push(Seq::empty()),
{
    reveal_strlit("\r\n");
    lemma_lines_nonempty(a);
    lemma_lines_text(a, line);
    let t = a + line;
    let known = lines(t);
    assert(known.last() == line);
    assert(known.drop_last() =~= lines(a).drop_last());
    let u = t.push('\r');
    assert(u.drop_last() =~= t);
    assert(lines(u) == known.drop_last().push(line.push('\r')));
    let v = u.push('\n');
    assert(v.drop_last() =~= u);
    assert(lines(u).last() == line.push('\r'));
    assert(line.push('\r').drop_last() =~= line);
    assert(lines(u).drop_last() =~= known.drop_last());
    assert(t + "\r\n"@ =~= v);
}

proof fn lemma_lines_fields(first: Seq<char>, fields: Seq<Seq<char>>)
    requires
        is_line(first),
        forall|i: int| 0 <= i < fields.len() ==> is_line(#[trigger] fields[i]),
    ensures
        lines(first + "\r\n"@ + ended(fields)) == (seq![first] + fields).push(Seq::empty()),
    decreases fields.len(),
{
    let none: Seq<char> = Seq::empty();
    if fields.len() == 0 {
        assert(lines(none) == seq![none]);
        lemma_lines_ended(none, first);
        assert(none + first + "\r\n"@ =~= first + "\r\n"@ + ended(fields));
        assert(seq![none].drop_last().push(first).push(none) =~= (seq![first] + fields).push(none));
    } else {
        let before = fields.drop_last();
        assert forall|i: int| 0 <= i < before.len() implies is_line(#[trigger] before[i]) by {
            assert(before[i] == fields[i]);
        }
        lemma_lines_fields(first, before);
        let a = first + "\r\n"@ + ended(before);
        assert(is_line(fields[fields.len() - 1]));
        lemma_lines_ended(a, fields.last());
        assert(first + "\r\n"@ + ended(fields) =~= a + fields.last() + "\r\n"@);
        assert(lines(a).drop_last().push(fields.last()).push(none) =~= (seq![first] + fields).push(
            none,
        ));
    }
}

/// The head of a message splits into its first line, its fields and two empty lines.
pub proof fn lemma_head_lines(first: Seq<char>, fields: Seq<Seq<char>>)
    requires
        is_line(first),
        forall|i: int| 0 <= i < fields.len() ==> is_line(#[trigger] fields[i]),
    ensures
        lines(message_head(first, fields)) == (seq![first] + fields).push(Seq::empty()).push(
            Seq::empty(),
        ),
{
    let none: Seq<char> = Seq::empty();
    lemma_lines_fields(first, fields);
    let a = first + "\r\n"@ + ended(fields);
    lemma_lines_ended(a, none);
    assert(a + none + "\r\n"@ =~= message_head(first, fields));
    assert(lines(a).drop_last().push(none).push(none) =~= (seq![first] + fields).push(none).push(
        none,
    ));
}

proof fn lemma_one_word(s: Seq<char>)
    requires
        is_word(s),
    ensures
        words(s) == seq![s],
    decreases s.len(),
{
    assert(!is_white_space(s[s.len() - 1]));
    if s.len() == 1 {
        assert(words(s.drop_last()) =~= Seq::empty());
        assert(seq![s.last()] =~= s);
        assert(words(s) =~= seq![s]);
    } else {
        assert(!is_white_space(s[s.len() - 2]));
        lemma_one_word(s.drop_last());
        assert(s.drop_last().push(s.last()) =~= s);
        assert(seq![s.drop_last()].drop_last().push(s) =~= seq![s]);
    }
}

proof fn lemma_words_join(a: Seq<char>, b: Seq<char>)
    ensures
        words(a + " "@ + b) == words(a) + words(b),
    decreases b.len(),
{
    reveal_strlit(" ");
    let t = a + " "@ + b;
    if b.len() == 0 {
        assert(t =~= a.push(' '));
        assert(t.drop_last() =~= a);
        assert(words(a) + words(b) =~= words(a));
    } else {
        lemma_words_join(a, b.drop_last());
        assert(t.drop_last() =~= a + " "@ + b.drop_last());
        let before = words(b.drop_last());
        if is_white_space(b.last()) {
        } else if b.len() == 1 {
            assert(t[t.len() - 2] == ' ');
            assert(before =~= Seq::empty());
            assert(words(t) =~= words(a) + words(b));
        } else if is_white_space(b[b.len() - 2]) {
            assert(t[t.len() - 2] == b[b.len() - 2]);
            assert(words(t) =~= words(a) + words(b));
        } else {
            assert(t[t.len() - 2] == b[b.len() - 2]);
            lemma_words_nonempty(b.drop_last());
            assert((words(a) + before).last() == before.last());
            assert((words(a) + before).drop_last() =~= words(a) + before.drop_last());
            assert(words(t) =~= words(a) + words(b));
        }
    }
}

proof fn lemma_words_nonempty(s: Seq<char>)
    requires
        s.len() > 0,
        !is_white_space(s.last()),
    ensures
        words(s).len() > 0,
{
}

// ---------------------------------------------------------------------------
// Bytes
// ---------------------------------------------------------------------------

proof fn lemma_encoded_line_end()
    ensures
        encode_utf8("\r\n"@) == seq![13u8, 10u8],
{
    reveal_strlit("\r\n");
    let t = "\r\n"@;
    assert(is_ascii_chars(t));
    is_ascii_chars_encode_utf8(t);
    assert(t[0] as u8 == encode_utf8(t)[0]);
    assert(t[1] as u8 == encode_utf8(t)[1]);
    assert(encode_utf8(t) =~= seq![13u8, 10u8]);
}

/// Lines with their ends: no empty one, and a line end at the end.
spec fn has_no_gap(b: Seq<u8>) -> bool {
    &&& b.len() >= 2
    &&& b[b.len() - 2] == 13
    &&& b[b.len() - 1] == 10
    &&& forall|i: int| !ends_head(b, i)
}

proof fn lemma_line_bytes(line: Seq<char>)
    requires
        is_line(line),
    ensures
        encode_utf8(line).len() > 0,
        forall|i: int| 0 <= i < encode_utf8(line).len() ==> encode_utf8(line)[i] != 13,
        encode_utf8(line + "\r\n"@) == encode_utf8(line) + seq![13u8, 10u8],
{
    assert forall|i: int| 0 <= i < line.len() implies line[i] != '\r' by {
        assert(line.contains(line[i]));
    }
    lemma_encode_without(line, '\r');
    lemma_encode_concat(line, "\r\n"@);
    lemma_encoded_line_end();
    encode_utf8_decode_utf8(line);
    if encode_utf8(line).len() == 0 {
        assert(encode_utf8(line) =~= encode_utf8(Seq::empty()));
        encode_utf8_decode_utf8(Seq::empty());
    }
}

proof fn lemma_no_gap_kept(b: Seq<u8>, x: Seq<u8>)
    requires
        b.len() == 0 || has_no_gap(b),
        x.len() > 0,
        forall|i: int| 0 <= i < x.len() ==> x[i] != 13,
    ensures
        has_no_gap(b + x + seq![13u8, 10u8]),
{
    let t = b + x + seq![13u8, 10u8];
    assert forall|i: int| !ends_head(t, i) by {
        if ends_head(t, i) {
            assert(t[i] == 13 && t[i + 2] == 13);
            if i + 4 <= b.len() {
                assert(ends_head(b, i));
            } else if i + 2 < b.len() {
                assert(t[i + 2] == b[b.len() - 1]);
            } else if i + 2 < b.len() + x.len() {
                assert(t[i + 2] == x[i + 2 - b.len()]);
            } else if i >= b.len() {
                assert(t[i] == x[i - b.len()]);
            } else {
                assert(t[i] == b[b.len() - 1]);
            }
        }
    }
}

proof fn lemma_fields_bytes(first: Seq<char>, fields: Seq<Seq<char>>)
    requires
        is_line(first),
        forall|i: int| 0 <= i < fields.len() ==> is_line(#[trigger] fields[i]),
    ensures
        has_no_gap(encode_utf8(first + "\r\n"@ + ended(fields))),
    decreases fields.len(),
{
    if fields.len() == 0 {
        lemma_line_bytes(first);
        lemma_no_gap_kept(Seq::empty(), encode_utf8(first));
        assert(first + "\r\n"@ + ended(fields) =~= first + "\r\n"@);
        assert(Seq::<u8>::empty() + encode_utf8(first) + seq![13u8, 10u8] =~= encode_utf8(
            first + "\r\n"@,
        ));
    } else {
        let before = fields.drop_last();
        assert forall|i: int| 0 <= i < before.len() implies is_line(#[trigger] before[i]) by {
            assert(before[i] == fields[i]);
        }
        lemma_fields_bytes(first, before);
        assert(is_line(fields[fields.len() - 1]));
        lemma_line_bytes(fields.last());
        let a = first + "\r\n"@ + ended(before);
        lemma_encode_concat(a, fields.last() + "\r\n"@);
        assert(first + "\r\n"@ + ended(fields) =~= a + (fields.last() + "\r\n"@));
        lemma_no_gap_kept(encode_utf8(a), encode_utf8(fields.last()));
        assert(encode_utf8(a) + (encode_utf8(fields.last()) + seq![13u8, 10u8]) =~= encode_utf8(a)
            + encode_utf8(fields.last()) + seq![13u8, 10u8]);
    }
}

/// The head of a message ends where it says: at its empty line, whatever the body holds.
pub proof fn lemma_head_bytes(first: Seq<char>, fields: Seq<Seq<char>>, body: Seq<u8>)
    requires
        is_line(first),
        forall|i: int| 0 <= i < fields.len() ==> is_line(#[trigger] fields[i]),
    ensures
        head_end(encode_utf8(message_head(first, fields)) + body) == Some(
            encode_utf8(message_head(first, fields)).len(),
        ),
{
    let a = first + "\r\n"@ + ended(fields);
    let b = encode_utf8(a);
    lemma_fields_bytes(first, fields);
    lemma_encode_concat(a, "\r\n"@);
    lemma_encoded_line_end();
    let raw = encode_utf8(message_head(first, fields)) + body;
    assert(raw =~= b + seq![13u8, 10u8] + body);
    let n = b.len() as int;
    assert(ends_head(raw, n - 2)) by {
        assert(raw[n - 2] == b[n - 2]);
        assert(raw[n - 1] == b[n - 1]);
        assert(raw[n] == 13);
        assert(raw[n + 1] == 10);
    }
    assert forall|j: int| 0 <= j < n - 2 implies !ends_head(raw, j) by {
        if j + 4 <= n {
            assert(!ends_head(b, j));
        } else {
            assert(raw[j + 2] == b[n - 1]);
        }
    }
    lemma_head_end_is(raw, n - 2);
}

// ---------------------------------------------------------------------------
// Laws
// ---------------------------------------------------------------------------

/// A request line.
pub open spec fn request_line(
    method: Seq<char>,
    endpoint: Seq<char>,
    version: Seq<char>,
) -> Seq<char> {
    method + " "@ + endpoint + " "@ + version
}

/// The length of the body that fields give.
pub open spec fn length_of(fields: Seq<Seq<char>>) -> Result<nat, RequestFault> {
    match read_fields(fields) {
        Ok(Some(n)) => Ok(n),
        Ok(None) => Ok(0),
        Err(e) => Err(e),
    }
}

proof fn lemma_version_is_word(version: Seq<char>)
    requires
        version == "HTTP/1.0"@ || version == "HTTP/1.1"@,
    ensures
        is_word(version),
{
    reveal_strlit("HTTP/1.0");
    reveal_strlit("HTTP/1.1");
}

proof fn lemma_request_line(method: Seq<char>, endpoint: Seq<char>, version: Seq<char>)
    requires
        is_word(method),
        is_word(endpoint),
        is_word(version),
    ensures
        is_line(request_line(method, endpoint, version)),
        words(request_line(method, endpoint, version)) == seq![method, endpoint, version],
{
    reveal_strlit(" ");
    let line = request_line(method, endpoint, version);
    lemma_words_join(method + " "@ + endpoint, version);
    lemma_words_join(method, endpoint);
    lemma_one_word(method);
    lemma_one_word(endpoint);
    lemma_one_word(version);
    assert(words(line) =~= seq![method, endpoint, version]);
    let n = method.len() as int;
    let m = endpoint.len() as int;
    assert forall|i: int| 0 <= i < line.len() implies line[i] != '\r' by {
        if i < n {
            assert(!is_white_space(method[i]));
        } else if i == n {
        } else if i < n + 1 + m {
            assert(line[i] == endpoint[i - n - 1]);
            assert(!is_white_space(endpoint[i - n - 1]));
        } else if i > n + 1 + m {
            assert(line[i] == version[i - n - m - 2]);
            assert(!is_white_space(version[i - n - m - 2]));
        }
    }
}

proof fn lemma_fields_then_blank(fields: Seq<Seq<char>>)
    ensures
        read_fields(fields.push(Seq::empty()).push(Seq::empty())) == read_fields(fields),
{
    let none: Seq<char> = Seq::empty();
    assert(fields.push(none).drop_last() =~= fields);
    assert(fields.push(none).last() == none);
    assert(read_fields(fields.push(none)) == read_fields(fields));
    assert(fields.push(none).push(none).drop_last() =~= fields.push(none));
    assert(fields.push(none).push(none).last() == none);
}

/// A request reads back as it was written: the method, the endpoint, the whole head, and a
/// body of the length that its fields give.
pub proof fn law_request_reads_back(
    method: Seq<char>,
    endpoint: Seq<char>,
    version: Seq<char>,
    fields: Seq<Seq<char>>,
    body: Seq<u8>,
)
    requires
        is_word(method),
        is_word(endpoint),
        version == "HTTP/1.0"@ || version == "HTTP/1.1"@,
        forall|i: int| 0 <= i < fields.len() ==> is_line(#[trigger] fields[i]),
        length_of(fields) == Ok::<nat, RequestFault>(body.len()),
        body.len() <= MAX_BODY,
    ensures
        ({
            let head = message_head(request_line(method, endpoint, version), fields);
            verdict(encode_utf8(head) + body) == Verdict::Complete(
                (RequestView { method, endpoint, headers: head, length: body.len() }),
                body,
            )
        }),
{
    let first = request_line(method, endpoint, version);
    let head = message_head(first, fields);
    let raw = encode_utf8(head) + body;
    lemma_version_is_word(version);
    lemma_request_line(method, endpoint, version);
    lemma_head_bytes(first, fields, body);
    lemma_head_lines(first, fields);
    lemma_fields_then_blank(fields);
    encode_utf8_decode_utf8(head);
    encode_utf8_valid_utf8(head);
    let end = encode_utf8(head).len() as int;
    assert(raw.take(end) =~= encode_utf8(head));
    let all = lines(head);
    let none: Seq<char> = Seq::empty();
    assert(all[0] == first);
    assert(all.drop_first() =~= fields.push(none).push(none));
    assert(raw.subrange(end, end + body.len()) =~= body);
    assert(is_request_line(first)) by {
        assert(words(first)[2] == version);
    }
    assert(words(first)[0] == method && words(first)[1] == endpoint);
    assert(read_head(head) == Ok::<Option<RequestView>, RequestFault>(
        Some(RequestView { method, endpoint, headers: head, length: body.len() }),
    ));
}

/// The client gets the reply to its request, in whatever chunks the request arrives, as long
/// as its head is within the limit.
pub proof fn law_request_is_answered(
    s: StateView,
    method: Seq<char>,
    endpoint: Seq<char>,
    version: Seq<char>,
    fields: Seq<Seq<char>>,
    body: Seq<u8>,
    chunks: Seq<Seq<u8>>,
)
    requires
        method == "GET"@ || method == "HEAD"@,
        is_word(endpoint),
        version == "HTTP/1.0"@ || version == "HTTP/1.1"@,
        forall|i: int| 0 <= i < fields.len() ==> is_line(#[trigger] fields[i]),
        length_of(fields) == Ok::<nat, RequestFault>(body.len()),
        body.len() <= MAX_BODY,
        encode_utf8(message_head(request_line(method, endpoint, version), fields)).len()
            <= MAX_HEAD,
        joined(Seq::empty(), chunks) == encode_utf8(
            message_head(request_line(method, endpoint, version), fields),
        ) + body,
    ensures
        outcome(Seq::empty(), chunks) matches Verdict::Complete(request, read) && read == body
            && answered(s, request) == served(s, path_of(endpoint), method == "HEAD"@),
{
    reveal_strlit("GET");
    reveal_strlit("HEAD");
    assert(is_word(method));
    let first = request_line(method, endpoint, version);
    lemma_version_is_word(version);
    lemma_request_line(method, endpoint, version);
    lemma_head_bytes(first, fields, body);
    law_request_reads_back(method, endpoint, version, fields, body);
    law_chunks_do_not_matter(Seq::empty(), chunks);
}

/// Where the client is told to look there is something to find: under a valid configuration
/// the manifest's path and the path of the payload are words without a query, and differ.
pub proof fn law_paths_are_reachable(c: ConfigView)
    requires
        valid(c),
    ensures
        is_word(manifest_path_text(c)),
        path_of(manifest_path_text(c)) == manifest_path_text(c),
        is_word("/payload.bin"@),
        path_of("/payload.bin"@) == "/payload.bin"@,
        manifest_path_text(c) != "/payload.bin"@,
{
    reveal_strlit("/");
    reveal_strlit("/GAME.VER");
    reveal_strlit("/payload.bin");
    let path = manifest_path_text(c);
    let n = c.title.len() as int;
    let m = c.current.len() as int;
    assert forall|i: int| 0 <= i < path.len() implies !is_white_space(#[trigger] path[i]) && path[i]
        != '?' by {
        if 1 <= i < 1 + n {
            assert(path[i] == c.title[i - 1]);
        } else if n + 2 <= i < n + 2 + m {
            assert(path[i] == c.current[i - n - 2]);
        } else if i >= n + 2 + m {
            assert(path[i] == "/GAME.VER"@[i - n - 2 - m]);
        }
    }
    lemma_find(path, '?');
    assert(path.take(path.len() as int) =~= path);
    let file = "/payload.bin"@;
    lemma_find(file, '?');
    assert(file.take(file.len() as int) =~= file);
    assert(path[path.len() - 1] == 'R');
    assert(file[file.len() - 1] == 'n');
}

/// The client that asks for the manifest gets it, and the one that asks for the payload gets
/// that, whatever the fields of its request say.
pub proof fn law_update_is_served(s: StateView, request: RequestView)
    requires
        valid(s.config),
        request.method == "GET"@,
    ensures
        path_of(request.endpoint) == manifest_path_text(s.config) && s.manifest is Some
            ==> answered(s, request).code == 200 && Some(answered(s, request).body) == s.manifest
            && sent(answered(s, request)) == answered(s, request).body,
        path_of(request.endpoint) == "/payload.bin"@ ==> answered(s, request).code == 200
            && sent(answered(s, request)) == s.payload,
        path_of(request.endpoint) != manifest_path_text(s.config) && path_of(request.endpoint)
            != "/payload.bin"@ ==> answered(s, request).code == 404,
{
    law_paths_are_reachable(s.config);
    reveal_strlit("GET");
    reveal_strlit("HEAD");
    assert("GET"@.len() != "HEAD"@.len());
}

/// Where no update is wanted, or there is no signature, the manifest is not found and the
/// payload is served nonetheless.
pub proof fn law_no_update_still_serves(
    c: ConfigView,
    payload: Seq<u8>,
    signature: Option<Seq<char>>,
    request: RequestView,
)
    requires
        valid(c),
        c.no_update || signature is None,
        request.method == "GET"@,
    ensures
        announcement_bytes(c, payload.len(), signature) == Ok::<Option<Seq<u8>>, ManifestError>(
            None,
        ),
        ({
            let s = StateView { config: c, payload, manifest: None };
            &&& path_of(request.endpoint) == manifest_path_text(c) ==> answered(s, request)
                == notice(manifest_path_text(c), 404, "No update\n"@)
            &&& path_of(request.endpoint) == "/payload.bin"@ ==> answered(s, request).code == 200
                && sent(answered(s, request)) == payload
        }),
{
    law_paths_are_reachable(c);
    reveal_strlit("GET");
    reveal_strlit("HEAD");
    assert("GET"@.len() != "HEAD"@.len());
}

/// An announced update is accepted: the client that fetches the manifest reads in it where the
/// payload is and a signature, and fetches from there a payload to which, under the key that
/// the signature was checked with, the signature belongs.
pub proof fn law_announced_update_is_accepted(
    c: ConfigView,
    payload: Seq<u8>,
    signature: Signature,
    key: PublicKeyView,
    manifest: Seq<u8>,
    first: RequestView,
    second: RequestView,
)
    requires
        valid(c),
        signature.wf(),
        signature.bytes@.len() > 0,
        accepts(key, payload, signature.bytes@),
        announcement_bytes(c, payload.len(), Some(signature.text@)) == Ok::<
            Option<Seq<u8>>,
            ManifestError,
        >(Some(manifest)),
        first.method == "GET"@,
        first.endpoint == manifest_path_text(c),
        second.method == "GET"@,
        second.endpoint == "/payload.bin"@,
    ensures
        ({
            let s = StateView { config: c, payload, manifest: Some(manifest) };
            let read = client_lines(decode_utf8(sent(answered(s, first))));
            let parts = pieces(read[3], ' ');
            &&& answered(s, first).code == 200
            &&& read.len() == 5
            &&& read[0] == c.message
            &&& read[1] == c.version
            &&& parts == seq![c.base_url + second.endpoint, c.destination, signature.text@]
            &&& answered(s, second).code == 200
            &&& base64_bytes(parts[2]) matches Some(bytes) && accepts(
                key,
                sent(answered(s, second)),
                bytes,
            )
        }),
{
    let s = StateView { config: c, payload, manifest: Some(manifest) };
    let kb = required_kb(c, payload.len());
    law_signature_is_token(signature);
    law_base64_reads_back(signature.bytes@);
    law_manifest_reads_back(c, kb, signature.text@);
    law_paths_are_reachable(c);
    law_update_is_served(s, first);
    law_update_is_served(s, second);
    encode_utf8_decode_utf8(manifest_text(c, kb, signature.text@));
}

/// A query does not change what is served: a request with one gets the reply to a request
/// without it, whatever else the two say.
pub proof fn law_query_is_ignored(
    s: StateView,
    plain: RequestView,
    asked: RequestView,
    query: Seq<char>,
)
    requires
        plain.method == "GET"@ || plain.method == "HEAD"@,
        asked.method == plain.method,
        !plain.endpoint.contains('?'),
        asked.endpoint == plain.endpoint + "?"@ + query,
    ensures
        answered(s, asked) == answered(s, plain),
{
    reveal_strlit("?");
    let path = plain.endpoint;
    let whole = asked.endpoint;
    lemma_find(whole, '?');
    lemma_find(path, '?');
    assert(whole[path.len() as int] == '?');
    let at = find(whole, '?') as int;
    if at < path.len() {
        assert(path.contains(path[at]));
    }
    let own = find(path, '?') as int;
    if own < path.len() {
        assert(path.contains(path[own]));
    }
    assert(whole.take(at) =~= path.take(own));
}

/// The answer to `HEAD` is the head of the answer to `GET` for the same endpoint and nothing
/// more, whatever else the two requests say.
pub proof fn law_head_is_get_without_body(s: StateView, get: RequestView, head: RequestView)
    requires
        get.method == "GET"@,
        head.method == "HEAD"@,
        head.endpoint == get.endpoint,
    ensures
        wire(answered(s, get)) == wire(answered(s, head)) + answered(s, get).body,
        sent(answered(s, head)) == Seq::<u8>::empty(),
{
    reveal_strlit("GET");
    reveal_strlit("HEAD");
    assert("GET"@.len() != "HEAD"@.len());
    let reply = answered(s, get);
    assert(wire(answered(s, head)) =~= encode_utf8(
        reply_head(reply.code, reply.body.len(), reply.kind),
    ));
}

/// The lines of a reply's head after the first.
pub open spec fn reply_fields(length: nat, kind: Seq<char>) -> Seq<Seq<char>> {
    seq![
        "Content-Length: "@ + decimal(length),
        "Content-Type: "@ + kind,
        "Connection: close"@,
    ]
}

/// The first line of a reply.
pub open spec fn status_line(code: u16) -> Seq<char> {
    "HTTP/1.1 "@ + decimal(code as nat) + " "@ + reason_text(code)
}

#[verifier::rlimit(40)]
proof fn lemma_reply_head(code: u16, length: nat, kind: Seq<char>)
    requires
        !kind.contains('\r'),
    ensures
        reply_head(code, length, kind) == message_head(
            status_line(code),
            reply_fields(length, kind),
        ),
        is_line(status_line(code)),
        forall|i: int|
            0 <= i < reply_fields(length, kind).len() ==> is_line(
                #[trigger] reply_fields(length, kind)[i],
            ),
{
    reveal_strlit("HTTP/1.1 ");
    reveal_strlit(" ");
    reveal_strlit("OK");
    reveal_strlit("Not Found");
    reveal_strlit("Method Not Allowed");
    reveal_strlit("Bad Request");
    reveal_strlit("Content Too Large");
    reveal_strlit("Error");
    reveal_strlit("\r\n");
    reveal_strlit("Content-Length: ");
    reveal_strlit("Content-Type: ");
    reveal_strlit("Connection: close");
    reveal_strlit("\r\nContent-Length: ");
    reveal_strlit("\r\nContent-Type: ");
    reveal_strlit("\r\nConnection: close\r\n\r\n");
    law_decimal_reads_back(code as nat, code as nat);
    law_decimal_reads_back(length, length);
    let f = reply_fields(length, kind);
    assert(ended(f) =~= f[0] + "\r\n"@ + f[1] + "\r\n"@ + f[2] + "\r\n"@) by {
        assert(f.drop_last() =~= seq![f[0], f[1]]);
        assert(f.drop_last().drop_last() =~= seq![f[0]]);
        assert(f.drop_last().drop_last().drop_last() =~= Seq::empty());
        reveal_with_fuel(ended, 4);
    }
    assert("\r\n"@ + "Content-Length: "@ =~= "\r\nContent-Length: "@);
    assert("\r\n"@ + "Content-Type: "@ =~= "\r\nContent-Type: "@);
    assert("\r\n"@ + "Connection: close"@ + "\r\n"@ + "\r\n"@
        =~= "\r\nConnection: close\r\n\r\n"@);
    assert(reply_head(code, length, kind) =~= message_head(status_line(code), f));
    assert(is_line(f[0])) by {
        assert forall|i: int| 0 <= i < f[0].len() implies f[0][i] != '\r' by {
            if i >= 16 {
                assert(f[0][i] == decimal(length)[i - 16]);
            }
        }
    }
    assert(is_line(f[1])) by {
        assert forall|i: int| 0 <= i < f[1].len() implies f[1][i] != '\r' by {
            if i >= 14 {
                assert(f[1][i] == kind[i - 14]);
                assert(kind.contains(kind[i - 14]));
            }
        }
    }
    assert(is_line(f[2]));
    let first = status_line(code);
    let d = decimal(code as nat);
    assert forall|i: int| 0 <= i < first.len() implies first[i] != '\r' by {
        if 9 <= i < 9 + d.len() {
            assert(first[i] == d[i - 9]);
        } else if i > 9 + d.len() {
            assert(first[i] == reason_text(code)[i - 10 - d.len()]);
        }
    }
}

#[verifier::rlimit(40)]
proof fn lemma_reply_length(n: nat, kind: Seq<char>)
    requires
        n <= usize::MAX,
    ensures
        read_fields(reply_fields(n, kind)) == Ok::<Option<nat>, RequestFault>(Some(n)),
{
    reveal_strlit("Content-Length: ");
    reveal_strlit("Content-Type: ");
    reveal_strlit("Connection: close");
    reveal_strlit("transfer-encoding");
    reveal_strlit("content-length");
    reveal_strlit("expect");
    let f = reply_fields(n, kind);
    assert(f.drop_last() =~= seq![f[0], f[1]]);
    assert(f.drop_last().drop_last() =~= seq![f[0]]);
    assert(f.drop_last().drop_last().drop_last() =~= Seq::empty());
    reveal_with_fuel(read_fields, 4);
    lemma_find_is(f[0], ':', 14);
    lemma_find_is(f[1], ':', 12);
    lemma_find_is(f[2], ':', 10);
    law_decimal_reads_back(n, usize::MAX as nat);
    let d = decimal(n);
    assert(f[0].skip(15) =~= seq![' '] + d);
    assert((seq![' '] + d).drop_first() =~= d);
    assert('0' <= d[0] <= '9' && '0' <= d[d.len() - 1] <= '9');
    assert(trimmed(d) == d);
    assert(trimmed(seq![' '] + d) == d);
    let name = f[0].take(14);
    assert(name.len() == 14 && "content-length"@.len() == 14);
    assert(equal_ignoring_case(name, "content-length"@));
    assert(read_field(None, f[0]) == Ok::<Option<nat>, RequestFault>(Some(n)));
    let kind_name = f[1].take(12);
    assert(kind_name.len() == 12 && "expect"@.len() == 6);
    assert(read_field(Some(n), f[1]) == Ok::<Option<nat>, RequestFault>(Some(n)));
    let last_name = f[2].take(10);
    assert(last_name.len() == 10);
    assert(read_field(Some(n), f[2]) == Ok::<Option<nat>, RequestFault>(Some(n)));
}

/// A reply is framed: a client that looks for the first empty line finds the head and what is
/// sent of the body, and the length that the head announces is that of the body.
pub proof fn law_reply_is_framed(r: ReplyView)
    requires
        !r.kind.contains('\r'),
        r.body.len() <= usize::MAX,
    ensures
        head_end(wire(r)) == Some(encode_utf8(reply_head(r.code, r.body.len(), r.kind)).len()),
        wire(r).skip(head_end(wire(r))->0 as int) == sent(r),
        read_fields(lines(reply_head(r.code, r.body.len(), r.kind)).drop_first()) == Ok::<
            Option<nat>,
            RequestFault,
        >(Some(r.body.len())),
{
    let n = r.body.len();
    let first = status_line(r.code);
    let f = reply_fields(n, r.kind);
    lemma_reply_head(r.code, n, r.kind);
    lemma_head_bytes(first, f, sent(r));
    lemma_head_lines(first, f);
    lemma_fields_then_blank(f);
    let head = reply_head(r.code, n, r.kind);
    let none: Seq<char> = Seq::empty();
    assert(lines(head).drop_first() =~= f.push(none).push(none));
    assert(wire(r).skip(encode_utf8(head).len() as int) =~= sent(r));
    lemma_reply_length(n, r.kind);
}

/// Whatever is answered is framed.
pub proof fn law_answers_are_framed(s: StateView, request: RequestView)
    requires
        s.payload.len() <= usize::MAX,
        s.manifest matches Some(m) ==> m.len() <= usize::MAX,
    ensures
        ({
            let r = answered(s, request);
            let end = encode_utf8(reply_head(r.code, r.body.len(), r.kind)).len();
            head_end(wire(r)) == Some(end) && wire(r).skip(end as int) == sent(r)
        }),
{
    reveal_strlit("text/plain");
    reveal_strlit("application/octet-stream");
    reveal_strlit("GET required\n");
    reveal_strlit("No update\n");
    reveal_strlit("Not found\n");
    is_ascii_chars_encode_utf8("GET required\n"@);
    is_ascii_chars_encode_utf8("No update\n"@);
    is_ascii_chars_encode_utf8("Not found\n"@);
    law_reply_is_framed(answered(s, request));
}

/// The blocks, one after the other, are the body; none is empty and none is above the limit.
pub proof fn law_blocks_carry_the_body(body: Seq<u8>)
    ensures
        joined(Seq::empty(), cut(body)) == body,
        forall|i: int| 0 <= i < cut(body).len() ==> 0 < #[trigger] cut(body)[i].len() <= BLOCK,
{
    lemma_blocks(body, 0);
    assert(body.take(0) =~= Seq::empty());
    assert(cut(body).skip(0) =~= cut(body));
}

proof fn lemma_blocks(body: Seq<u8>, i: int)
    requires
        0 <= i <= cut(body).len(),
    ensures
        joined(
            body.take(
                if i * BLOCK <= body.len() {
                    i * BLOCK
                } else {
                    body.len() as int
                },
            ),
            cut(body).skip(i),
        ) == body,
    decreases cut(body).len() - i,
{
    let blocks = cut(body);
    if i == blocks.len() {
        assert(body.take(body.len() as int) =~= body);
    } else {
        lemma_blocks(body, i + 1);
        assert(blocks.skip(i)[0] == blocks[i]);
        assert(blocks.skip(i).drop_first() =~= blocks.skip(i + 1));
        assert(body.take(i * BLOCK) + blocks[i] =~= body.take(block_end(body.len(), i)));
    }
}

/// The head of a reply reads back: the first line holds the protocol, the status as a number and
/// the words for it; the fields hold the length of the body, its kind, and that the connection
/// closes; and nothing else stands there.
pub proof fn law_reply_head_reads_back(code: u16, length: nat, kind: Seq<char>)
    requires
        !kind.contains('\r'),
    ensures
        ({
            let all = lines(reply_head(code, length, kind));
            let first = words(all[0]);
            &&& all.len() == 6
            &&& first.len() > 2
            &&& first[0] == "HTTP/1.1"@
            &&& number(first[1], 65535) == Ok::<nat, NumberError>(code as nat)
            &&& first[1].len() > 1 ==> first[1][0] != '0'
            &&& all[0] == glued(seq!["HTTP/1.1"@, first[1], reason_text(code)], seq![' '])
            &&& all[1].len() > 16
            &&& all[1].take(16) == "Content-Length: "@
            &&& number(all[1].skip(16), length) == Ok::<nat, NumberError>(length)
            &&& all[1].len() > 17 ==> all[1][16] != '0'
            &&& all[2] == "Content-Type: "@ + kind
            &&& all[3] == "Connection: close"@
            &&& all[4].len() == 0
            &&& all[5].len() == 0
        }),
{
    lemma_reply_head(code, length, kind);
    let f = reply_fields(length, kind);
    let first = status_line(code);
    lemma_head_lines(first, f);
    let all = lines(reply_head(code, length, kind));
    let none: Seq<char> = Seq::empty();
    assert(all =~= seq![first, f[0], f[1], f[2], none, none]);
    reveal_strlit("Content-Length: ");
    assert(f[0].take(16) =~= "Content-Length: "@);
    assert(f[0].skip(16) =~= decimal(length));
    law_decimal_reads_back(length, length);
    law_decimal_reads_back(code as nat, 65535);
    lemma_status_words(code);
}

proof fn lemma_status_words(code: u16)
    ensures
        words(status_line(code)) == seq!["HTTP/1.1"@, decimal(code as nat)] + words(
            reason_text(code),
        ),
        words(reason_text(code)).len() > 0,
        status_line(code) == glued(
            seq!["HTTP/1.1"@, decimal(code as nat), reason_text(code)],
            seq![' '],
        ),
{
    reveal_strlit("HTTP/1.1");
    reveal_strlit("HTTP/1.1 ");
    reveal_strlit(" ");
    let d = decimal(code as nat);
    let r = reason_text(code);
    law_decimal_reads_back(code as nat, code as nat);
    assert forall|i: int| 0 <= i < d.len() implies !is_white_space(#[trigger] d[i]) by {
        assert('0' <= d[i] <= '9');
    }
    lemma_one_word(d);
    lemma_one_word("HTTP/1.1"@);
    assert(status_line(code) =~= "HTTP/1.1"@ + " "@ + (d + " "@ + r));
    lemma_words_join("HTTP/1.1"@, d + " "@ + r);
    lemma_words_join(d, r);
    assert(words(status_line(code)) =~= seq!["HTTP/1.1"@, d] + words(r));
    reveal_strlit("OK");
    reveal_strlit("Not Found");
    reveal_strlit("Method Not Allowed");
    reveal_strlit("Bad Request");
    reveal_strlit("Content Too Large");
    reveal_strlit("Error");
    assert(!is_white_space(r.last()));
    lemma_words_nonempty(r);
    reveal_with_fuel(glued, 4);
    let parts = seq!["HTTP/1.1"@, d, r];
    assert(parts.drop_last() =~= seq!["HTTP/1.1"@, d]);
    assert(parts.drop_last().drop_last() =~= seq!["HTTP/1.1"@]);
    assert(" "@ =~= seq![' ']);
    assert(glued(parts, seq![' ']) =~= status_line(code));
}

/// A request whose fields all have other names than those that bear on the body is complete with
/// its empty line, has no body, and is answered, whatever the values of its fields are and
/// whatever comes after it.
pub proof fn law_ordinary_request_is_complete(
    s: StateView,
    method: Seq<char>,
    endpoint: Seq<char>,
    version: Seq<char>,
    fields: Seq<Seq<char>>,
    colons: Seq<int>,
    rest: Seq<u8>,
)
    requires
        is_word(method),
        is_word(endpoint),
        version == "HTTP/1.0"@ || version == "HTTP/1.1"@,
        forall|i: int| 0 <= i < fields.len() ==> is_line(#[trigger] fields[i]),
        colons.len() == fields.len(),
        forall|k: int|
            0 <= k < fields.len() ==> {
                &&& 0 <= #[trigger] colons[k] < fields[k].len()
                &&& fields[k][colons[k]] == ':'
                &&& forall|j: int| 0 <= j < colons[k] ==> fields[k][j] != ':'
                &&& !equal_ignoring_case(fields[k].take(colons[k]), "transfer-encoding"@)
                &&& !equal_ignoring_case(fields[k].take(colons[k]), "content-length"@)
                &&& !equal_ignoring_case(fields[k].take(colons[k]), "expect"@)
            },
    ensures
        ({
            let head = message_head(request_line(method, endpoint, version), fields);
            verdict(encode_utf8(head) + rest) == Verdict::Complete(
                (RequestView { method, endpoint, headers: head, length: 0 }),
                Seq::empty(),
            )
        }),
{
    let none: Seq<u8> = Seq::empty();
    let head = message_head(request_line(method, endpoint, version), fields);
    law_other_fields_are_ignored(fields, colons);
    law_request_reads_back(method, endpoint, version, fields, none);
    lemma_version_is_word(version);
    lemma_request_line(method, endpoint, version);
    lemma_head_bytes(request_line(method, endpoint, version), fields, none);
    assert(encode_utf8(head) + none =~= encode_utf8(head));
    law_decision_is_final(encode_utf8(head), rest);
}

/// A request with one field for the length of its body, among fields of other names, has a body
/// of that length: what comes after the head up to there.
#[verifier::rlimit(40)]
pub proof fn law_length_field_measures_the_body(
    method: Seq<char>,
    endpoint: Seq<char>,
    version: Seq<char>,
    name: Seq<char>,
    fields: Seq<Seq<char>>,
    colons: Seq<int>,
    body: Seq<u8>,
    rest: Seq<u8>,
)
    requires
        is_word(method),
        is_word(endpoint),
        version == "HTTP/1.0"@ || version == "HTTP/1.1"@,
        equal_ignoring_case(name, "content-length"@),
        body.len() <= 65536,
        forall|i: int| 0 <= i < fields.len() ==> is_line(#[trigger] fields[i]),
        colons.len() == fields.len(),
        forall|k: int|
            0 <= k < fields.len() ==> {
                &&& 0 <= #[trigger] colons[k] < fields[k].len()
                &&& fields[k][colons[k]] == ':'
                &&& forall|j: int| 0 <= j < colons[k] ==> fields[k][j] != ':'
                &&& !equal_ignoring_case(fields[k].take(colons[k]), "transfer-encoding"@)
                &&& !equal_ignoring_case(fields[k].take(colons[k]), "content-length"@)
                &&& !equal_ignoring_case(fields[k].take(colons[k]), "expect"@)
            },
    ensures
        ({
            let length = name + seq![':', ' '] + decimal(body.len());
            let head = message_head(
                request_line(method, endpoint, version),
                fields.push(length),
            );
            verdict(encode_utf8(head) + body + rest) == Verdict::Complete(
                (RequestView { method, endpoint, headers: head, length: body.len() }),
                body,
            )
        }),
{
    let n = body.len();
    let d = decimal(n);
    let length = name + seq![':', ' '] + d;
    let all = fields.push(length);
    law_decimal_reads_back(n, usize::MAX as nat);
    law_other_fields_are_ignored(fields, colons);
    law_fields_are_read_in_order(fields, length);
    let none: Seq<char> = Seq::empty();
    assert('0' <= d[0] <= '9' && '0' <= d[d.len() - 1] <= '9');
    law_content_length_is_its_number(name, seq![' '], d, none);
    assert(name + seq![':'] + seq![' '] + d + none =~= length);
    lemma_length_line(name, d);
    assert forall|i: int| 0 <= i < all.len() implies is_line(#[trigger] all[i]) by {
        if i < fields.len() {
            assert(all[i] == fields[i]);
        }
    }
    let head = message_head(request_line(method, endpoint, version), all);
    law_request_reads_back(method, endpoint, version, all, body);
    lemma_version_is_word(version);
    lemma_request_line(method, endpoint, version);
    lemma_head_bytes(request_line(method, endpoint, version), all, body);
    law_decision_is_final(encode_utf8(head) + body, rest);
}

proof fn lemma_length_line(name: Seq<char>, d: Seq<char>)
    requires
        equal_ignoring_case(name, "content-length"@),
        forall|i: int| 0 <= i < d.len() ==> '0' <= #[trigger] d[i] <= '9',
    ensures
        is_line(name + seq![':', ' '] + d),
{
    let line = name + seq![':', ' '] + d;
    reveal_strlit("content-length");
    law_case_is_that_of_ascii_letters(name, "content-length"@);
    assert forall|j: int| 0 <= j < line.len() implies line[j] != '\r' by {
        if j < name.len() {
            assert(line[j] == name[j]);
            char_u32_cast(name[j], name[j] as u32);
            let c = "content-length"@[j];
            assert(c == '-' || 'a' <= c <= 'z');
        } else if j >= name.len() + 2 {
            assert(line[j] == d[j - name.len() - 2]);
        }
    }
}

/// A first line that is not three words, the last of them a version of the protocol, is refused,
/// whatever the fields say.
pub proof fn law_other_first_lines_are_refused(
    first: Seq<char>,
    fields: Seq<Seq<char>>,
    rest: Seq<u8>,
)
    requires
        is_line(first),
        forall|i: int| 0 <= i < fields.len() ==> is_line(#[trigger] fields[i]),
        words(first).len() != 3 || (words(first)[2] != "HTTP/1.0"@ && words(first)[2]
            != "HTTP/1.1"@),
    ensures
        verdict(encode_utf8(message_head(first, fields)) + rest) == Verdict::BadRequest,
{
    let head = message_head(first, fields);
    let raw = encode_utf8(head) + rest;
    lemma_head_bytes(first, fields, rest);
    lemma_head_lines(first, fields);
    assert(raw.take(encode_utf8(head).len() as int) =~= encode_utf8(head));
    assert(lines(head)[0] == first);
    law_what_bytes_amount_to(raw, head);
}

} // verus!
