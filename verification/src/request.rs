//! Requests: where the head of a request ends, what it says, and what the bytes received so
//! far amount to.

use crate::text::{
    chars_of, equal_ignoring_case, find, find_char, from_utf8, is_white_space,
    law_case_is_that_of_ascii_letters, law_trimmed_is_what_is_within, lemma_find_is, lines, number,
    parse_number, same_ignoring_case, spells, split_lines, split_words, text_of, trim, trimmed,
    utf8_fault, views, words, NumberError,
};
use vstd::prelude::*;
use vstd::string::*;
use vstd::utf8::*;

verus! {

/// Once this many bytes came without the end of the head, the request is refused.
pub const MAX_HEAD: usize = 32768;

/// The longest body of a request.
pub const MAX_BODY: usize = 65536;

/// How many bytes are read at once while the head is incomplete.
pub const HEAD_CHUNK: usize = 2048;

/// How many bytes are read at once while the body is incomplete.
pub const BODY_CHUNK: usize = 4096;

/// Why a connection is dropped without an answer.
#[derive(Debug)]
pub enum RequestError {
    /// The client stopped within the head.
    IncompleteHead,
    /// The head is no UTF-8; the words say why.
    NotUtf8(String),
    /// A line of the head has no colon.
    MalformedHeader,
    /// The body would come in chunks.
    TransferEncoding,
    /// The length of the body is given twice.
    DuplicateLength,
    /// The length of the body is no number.
    ContentLength(NumberError),
    /// The client waits for a go-ahead.
    Expect,
    /// The client stopped within the body.
    IncompleteBody,
}

/// The contents of a [`RequestError`].
pub enum RequestFault {
    IncompleteHead,
    NotUtf8(Seq<char>),
    MalformedHeader,
    TransferEncoding,
    DuplicateLength,
    ContentLength(NumberError),
    Expect,
    IncompleteBody,
}

impl View for RequestError {
    type V = RequestFault;

    open spec fn view(&self) -> RequestFault {
        match *self {
            RequestError::IncompleteHead => RequestFault::IncompleteHead,
            RequestError::NotUtf8(w) => RequestFault::NotUtf8(w@),
            RequestError::MalformedHeader => RequestFault::MalformedHeader,
            RequestError::TransferEncoding => RequestFault::TransferEncoding,
            RequestError::DuplicateLength => RequestFault::DuplicateLength,
            RequestError::ContentLength(e) => RequestFault::ContentLength(e),
            RequestError::Expect => RequestFault::Expect,
            RequestError::IncompleteBody => RequestFault::IncompleteBody,
        }
    }
}

impl RequestFault {
    /// The words in which the fault is reported.
    pub open spec fn words(self) -> Seq<char> {
        match self {
            RequestFault::IncompleteHead => "Incomplete request headers"@,
            RequestFault::NotUtf8(w) => w,
            RequestFault::MalformedHeader => "Malformed header"@,
            RequestFault::TransferEncoding => "Transfer-Encoding requests are not supported"@,
            RequestFault::DuplicateLength => "Duplicate Content-Length"@,
            RequestFault::ContentLength(e) => e.words(),
            RequestFault::Expect => "Expect requests are not supported"@,
            RequestFault::IncompleteBody => "Incomplete body"@,
        }
    }
}

impl RequestError {
    /// The words in which the fault is reported.
    pub fn message(&self) -> (r: String)
        ensures
            r@ == self@.words(),
    {
        match self {
            RequestError::IncompleteHead => "Incomplete request headers".to_owned(),
            RequestError::NotUtf8(w) => w.clone(),
            RequestError::MalformedHeader => "Malformed header".to_owned(),
            RequestError::TransferEncoding =>
                "Transfer-Encoding requests are not supported".to_owned(),
            RequestError::DuplicateLength => "Duplicate Content-Length".to_owned(),
            RequestError::ContentLength(e) => e.message(),
            RequestError::Expect => "Expect requests are not supported".to_owned(),
            RequestError::IncompleteBody => "Incomplete body".to_owned(),
        }
    }
}

/// The head of a request.
#[derive(Debug)]
pub struct Request {
    /// The method, such as `GET`.
    pub method: String,
    /// What is asked for, with its query.
    pub endpoint: String,
    /// The whole head as text.
    pub headers: String,
    /// The length of the body.
    pub length: usize,
}

/// The contents of a [`Request`].
pub struct RequestView {
    pub method: Seq<char>,
    pub endpoint: Seq<char>,
    pub headers: Seq<char>,
    pub length: nat,
}

impl View for Request {
    type V = RequestView;

    open spec fn view(&self) -> RequestView {
        RequestView {
            method: self.method@,
            endpoint: self.endpoint@,
            headers: self.headers@,
            length: self.length as nat,
        }
    }
}

// ---------------------------------------------------------------------------
// The end of the head
// ---------------------------------------------------------------------------

/// Whether an empty line, and with it the end of the head, stands at `i`.
pub open spec fn ends_head(raw: Seq<u8>, i: int) -> bool {
    &&& 0 <= i
    &&& i + 4 <= raw.len()
    &&& raw[i] == 13
    &&& raw[i + 1] == 10
    &&& raw[i + 2] == 13
    &&& raw[i + 3] == 10
}

/// The position after the first empty line at or after `i`.
pub open spec fn head_end_from(raw: Seq<u8>, i: nat) -> Option<nat>
    decreases raw.len() - i,
{
    if i + 4 > raw.len() {
        None
    } else if ends_head(raw, i as int) {
        Some(i + 4)
    } else {
        head_end_from(raw, i + 1)
    }
}

/// The position after the first empty line, where the head ends.
pub open spec fn head_end(raw: Seq<u8>) -> Option<nat> {
    head_end_from(raw, 0)
}

proof fn lemma_head_end_from(raw: Seq<u8>, i: nat)
    ensures
        match head_end_from(raw, i) {
            Some(e) => i + 4 <= e <= raw.len() && ends_head(raw, e - 4) && forall|j: int|
                i <= j < e - 4 ==> !ends_head(raw, j),
            None => forall|j: int| i <= j ==> !ends_head(raw, j),
        },
    decreases raw.len() - i,
{
    if i + 4 <= raw.len() && !ends_head(raw, i as int) {
        lemma_head_end_from(raw, i + 1);
    }
}

/// What `head_end` finds is the first empty line.
pub proof fn lemma_head_end(raw: Seq<u8>)
    ensures
        match head_end(raw) {
            Some(e) => 4 <= e <= raw.len() && ends_head(raw, e - 4) && forall|j: int|
                0 <= j < e - 4 ==> !ends_head(raw, j),
            None => forall|j: int| !ends_head(raw, j),
        },
{
    lemma_head_end_from(raw, 0);
}

/// The first empty line is what `head_end` finds.
pub proof fn lemma_head_end_is(raw: Seq<u8>, i: int)
    requires
        ends_head(raw, i),
        forall|j: int| 0 <= j < i ==> !ends_head(raw, j),
    ensures
        head_end(raw) == Some((i + 4) as nat),
{
    lemma_head_end(raw);
}

/// Finds the end of the head.
pub fn find_head_end(raw: &[u8]) -> (r: Option<usize>)
    ensures
        match r {
            Some(e) => head_end(raw@) == Some(e as nat) && e <= raw@.len(),
            None => head_end(raw@) is None,
        },
{
    let n: usize = raw.len();
    if n < 4 {
        return None;
    }
    let mut i: usize = 0;
    while i <= n - 4
        invariant
            n == raw@.len(),
            4 <= n,
            i <= n - 3,
            head_end(raw@) == head_end_from(raw@, i as nat),
        decreases n - i,
    {
        if raw[i] == 13 && raw[i + 1] == 10 && raw[i + 2] == 13 && raw[i + 3] == 10 {
            return Some(i + 4);
        }
        i = i + 1;
    }
    None
}

// ---------------------------------------------------------------------------
// The head
// ---------------------------------------------------------------------------

/// What one more line after the request line does to the length of the body as known so far.
/// Empty lines say nothing.
pub open spec fn read_field(known: Option<nat>, line: Seq<char>) -> Result<
    Option<nat>,
    RequestFault,
> {
    let colon = find(line, ':');
    let name = line.take(colon as int);
    if line.len() == 0 {
        Ok(known)
    } else if colon == line.len() {
        Err(RequestFault::MalformedHeader)
    } else if equal_ignoring_case(name, "transfer-encoding"@) {
        Err(RequestFault::TransferEncoding)
    } else if equal_ignoring_case(name, "content-length"@) {
        if known is Some {
            Err(RequestFault::DuplicateLength)
        } else {
            match number(trimmed(line.skip((colon + 1) as int)), usize::MAX as nat) {
                Ok(n) => Ok(Some(n)),
                Err(e) => Err(RequestFault::ContentLength(e)),
            }
        }
    } else if equal_ignoring_case(name, "expect"@) {
        Err(RequestFault::Expect)
    } else {
        Ok(known)
    }
}

/// The length of the body that the lines after the request line give, or their first fault.
pub open spec fn read_fields(fields: Seq<Seq<char>>) -> Result<Option<nat>, RequestFault>
    decreases fields.len(),
{
    if fields.len() == 0 {
        Ok(None)
    } else {
        match read_fields(fields.drop_last()) {
            Ok(known) => read_field(known, fields.last()),
            Err(e) => Err(e),
        }
    }
}

/// Whether the request line is one: a method, an endpoint and a known version of the protocol.
pub open spec fn is_request_line(line: Seq<char>) -> bool {
    &&& words(line).len() == 3
    &&& words(line)[2] == "HTTP/1.0"@ || words(line)[2] == "HTTP/1.1"@
}

/// What the text of a head says; `None` where the request line is none.
pub open spec fn read_head(text: Seq<char>) -> Result<Option<RequestView>, RequestFault> {
    let all = lines(text);
    if !is_request_line(all[0]) {
        Ok(None)
    } else {
        match read_fields(all.drop_first()) {
            Err(e) => Err(e),
            Ok(known) => Ok(
                Some(
                    RequestView {
                        method: words(all[0])[0],
                        endpoint: words(all[0])[1],
                        headers: text,
                        length: match known {
                            Some(n) => n,
                            None => 0,
                        },
                    },
                ),
            ),
        }
    }
}

/// What the bytes of a head say.
pub open spec fn read_head_bytes(head: Seq<u8>) -> Result<Option<RequestView>, RequestFault> {
    if valid_utf8(head) {
        read_head(decode_utf8(head))
    } else {
        Err(RequestFault::NotUtf8(utf8_fault(head)))
    }
}

proof fn lemma_fields_fault(fields: Seq<Seq<char>>, i: int)
    requires
        0 <= i <= fields.len(),
        read_fields(fields.take(i)) is Err,
    ensures
        read_fields(fields) == read_fields(fields.take(i)),
    decreases fields.len(),
{
    if i < fields.len() {
        assert(fields.drop_last().take(i) =~= fields.take(i));
        lemma_fields_fault(fields.drop_last(), i);
    } else {
        assert(fields.take(i) =~= fields);
    }
}

fn parse_field(known: Option<usize>, line: &[char]) -> (r: Result<Option<usize>, RequestError>)
    ensures
        match r {
            Ok(n) => read_field(opt_nat(known), line@) == Ok::<Option<nat>, RequestFault>(
                opt_nat(n),
            ),
            Err(e) => read_field(opt_nat(known), line@) == Err::<Option<nat>, RequestFault>(e@),
        },
{
    if line.len() == 0 {
        return Ok(known);
    }
    let colon: usize = find_char(line, ':');
    if colon == line.len() {
        return Err(RequestError::MalformedHeader);
    }
    let name: &[char] = vstd::slice::slice_subrange(line, 0, colon);
    let value: &[char] = vstd::slice::slice_subrange(line, colon + 1, line.len());
    assert(name@ =~= line@.take(colon as int));
    assert(value@ =~= line@.skip(colon + 1));
    let transfer: Vec<char> = chars_of("transfer-encoding");
    let content: Vec<char> = chars_of("content-length");
    let expect: Vec<char> = chars_of("expect");
    if same_ignoring_case(name, transfer.as_slice()) {
        return Err(RequestError::TransferEncoding);
    }
    if same_ignoring_case(name, content.as_slice()) {
        if known.is_some() {
            return Err(RequestError::DuplicateLength);
        }
        return match parse_number(trim(value), usize::MAX as u64) {
            Ok(n) => Ok(Some(n as usize)),
            Err(e) => Err(RequestError::ContentLength(e)),
        };
    }
    if same_ignoring_case(name, expect.as_slice()) {
        return Err(RequestError::Expect);
    }
    Ok(known)
}

/// An optional number as a mathematical one.
pub open spec fn opt_nat(o: Option<usize>) -> Option<nat> {
    match o {
        Some(n) => Some(n as nat),
        None => None,
    }
}

/// The contents of an optional request.
pub open spec fn opt_request(o: Option<Request>) -> Option<RequestView> {
    match o {
        Some(r) => Some(r@),
        None => None,
    }
}

fn parse_fields(all: &Vec<Vec<char>>) -> (r: Result<usize, RequestError>)
    requires
        all@.len() > 0,
    ensures
        match r {
            Ok(n) => match read_fields(views(all@).drop_first()) {
                Ok(Some(m)) => n == m,
                Ok(None) => n == 0,
                Err(_) => false,
            },
            Err(e) => read_fields(views(all@).drop_first()) == Err::<Option<nat>, RequestFault>(
                e@,
            ),
        },
{
    let mut known: Option<usize> = None;
    let mut i: usize = 1;
    let ghost fields = views(all@).drop_first();
    while i < all.len()
        invariant
            1 <= i <= all.len(),
            fields == views(all@).drop_first(),
            read_fields(fields.take(i - 1)) == Ok::<Option<nat>, RequestFault>(opt_nat(known)),
        decreases all.len() - i,
    {
        assert(fields.take(i as int).drop_last() =~= fields.take(i - 1));
        assert(fields.take(i as int).last() == all@[i as int]@);
        match parse_field(known, all[i].as_slice()) {
            Ok(n) => {
                known = n;
            },
            Err(e) => {
                proof {
                    lemma_fields_fault(fields, i as int);
                }
                return Err(e);
            },
        }
        i = i + 1;
    }
    assert(fields.take(i - 1) =~= fields);
    match known {
        Some(n) => Ok(n),
        None => Ok(0),
    }
}

/// Reads the head of a request; `None` where the request line is none.
pub fn parse_head(head: &[u8]) -> (r: Result<Option<Request>, RequestError>)
    ensures
        match r {
            Ok(q) => read_head_bytes(head@) == Ok::<Option<RequestView>, RequestFault>(
                opt_request(q),
            ),
            Err(e) => read_head_bytes(head@) == Err::<Option<RequestView>, RequestFault>(e@),
        },
{
    let text: &str = match from_utf8(head) {
        Ok(s) => s,
        Err(w) => {
            return Err(RequestError::NotUtf8(w));
        },
    };
    proof {
        encode_utf8_decode_utf8(text@);
    }
    assert(decode_utf8(head@) == text@);
    let chars: Vec<char> = chars_of(text);
    let all: Vec<Vec<char>> = split_lines(chars.as_slice());
    assert(views(all@)[0] == all@[0]@);
    let parts: Vec<Vec<char>> = split_words(all[0].as_slice());
    if parts.len() != 3 {
        assert(words(lines(text@)[0]).len() == parts@.len());
        return Ok(None);
    }
    assert(words(lines(text@)[0])[2] == parts@[2]@);
    if !spells(parts[2].as_slice(), "HTTP/1.0") && !spells(parts[2].as_slice(), "HTTP/1.1") {
        return Ok(None);
    }
    match parse_fields(&all) {
        Err(e) => Err(e),
        Ok(length) => {
            assert(words(lines(text@)[0])[0] == parts@[0]@);
            assert(words(lines(text@)[0])[1] == parts@[1]@);
            Ok(
                Some(
                    Request {
                        method: text_of(parts[0].as_slice()),
                        endpoint: text_of(parts[1].as_slice()),
                        headers: text.to_owned(),
                        length,
                    },
                ),
            )
        },
    }
}

// ---------------------------------------------------------------------------
// The bytes received so far
// ---------------------------------------------------------------------------

/// What the bytes received so far amount to.
pub enum Verdict {
    /// Nothing yet: up to so many more bytes are to be read.
    More(nat),
    /// The head does not end.
    HeadTooLarge,
    /// The request line is none.
    BadRequest,
    /// The connection is dropped.
    Fail(RequestFault),
    /// The body of the request for this endpoint would be too long.
    BodyTooLarge(Seq<char>),
    /// A request and its body.
    Complete(RequestView, Seq<u8>),
}

/// What the bytes received so far amount to. What comes after the body is ignored.
pub open spec fn verdict(raw: Seq<u8>) -> Verdict {
    match head_end(raw) {
        None => if raw.len() >= MAX_HEAD {
            Verdict::HeadTooLarge
        } else {
            Verdict::More(HEAD_CHUNK as nat)
        },
        Some(end) => match read_head_bytes(raw.take(end as int)) {
            Err(e) => Verdict::Fail(e),
            Ok(None) => Verdict::BadRequest,
            Ok(Some(request)) => if request.length > MAX_BODY {
                Verdict::BodyTooLarge(request.endpoint)
            } else if raw.len() < end + request.length {
                Verdict::More(BODY_CHUNK as nat)
            } else {
                Verdict::Complete(
                    request,
                    raw.subrange(end as int, (end + request.length) as int),
                )
            },
        },
    }
}

/// The fault of a client that stops after these bytes.
pub open spec fn broken_off(raw: Seq<u8>) -> RequestFault {
    if head_end(raw) is None {
        RequestFault::IncompleteHead
    } else {
        RequestFault::IncompleteBody
    }
}

// ---------------------------------------------------------------------------
// Laws
// ---------------------------------------------------------------------------

/// The head ends with the first empty line: carriage return and line feed, twice.
pub proof fn law_head_ends_with_the_first_empty_line(raw: Seq<u8>)
    ensures
        match head_end(raw) {
            Some(e) => 4 <= e <= raw.len() && raw.subrange(e - 4, e as int) == seq![
                13u8,
                10u8,
                13u8,
                10u8,
            ] && forall|j: int|
                4 <= j < e ==> #[trigger] raw.subrange(j - 4, j) != seq![13u8, 10u8, 13u8, 10u8],
            None => forall|j: int|
                4 <= j <= raw.len() ==> #[trigger] raw.subrange(j - 4, j) != seq![
                    13u8,
                    10u8,
                    13u8,
                    10u8,
                ],
        },
{
    lemma_head_end(raw);
    let gap = seq![13u8, 10u8, 13u8, 10u8];
    assert forall|j: int| 4 <= j <= raw.len() implies (#[trigger] raw.subrange(j - 4, j) == gap
        <==> ends_head(raw, j - 4)) by {
        let part = raw.subrange(j - 4, j);
        assert(part[0] == raw[j - 4] && part[1] == raw[j - 3] && part[2] == raw[j - 2] && part[3]
            == raw[j - 1]);
        if ends_head(raw, j - 4) {
            assert(part =~= gap);
        } else if part == gap {
            assert(part[0] == 13 && part[1] == 10 && part[2] == 13 && part[3] == 10);
        }
    }
    match head_end(raw) {
        Some(e) => {
            assert(ends_head(raw, e - 4));
            assert forall|j: int| 4 <= j < e implies #[trigger] raw.subrange(j - 4, j) != gap by {
                assert(!ends_head(raw, j - 4));
            }
        },
        None => {
            assert forall|j: int| 4 <= j <= raw.len() implies #[trigger] raw.subrange(j - 4, j)
                != gap by {
                assert(!ends_head(raw, j - 4));
            }
        },
    }
}

/// What a field does, by its name, which is what stands before its first colon at `i`. Only the
/// three names that bear on the body have an effect. A line without colon is a fault unless it
/// is empty.
pub proof fn law_field_acts_by_its_name(known: Option<nat>, line: Seq<char>, i: int)
    requires
        0 <= i <= line.len(),
        forall|j: int| 0 <= j < i ==> #[trigger] line[j] != ':',
        i < line.len() ==> line[i] == ':',
    ensures
        line.len() == 0 ==> read_field(known, line) == Ok::<Option<nat>, RequestFault>(known),
        line.len() > 0 && i == line.len() ==> read_field(known, line) == Err::<
            Option<nat>,
            RequestFault,
        >(RequestFault::MalformedHeader),
        i < line.len() ==> {
            &&& equal_ignoring_case(line.take(i), "transfer-encoding"@) ==> read_field(known, line)
                == Err::<Option<nat>, RequestFault>(RequestFault::TransferEncoding)
            &&& equal_ignoring_case(line.take(i), "expect"@) ==> read_field(known, line) == Err::<
                Option<nat>,
                RequestFault,
            >(RequestFault::Expect)
            &&& equal_ignoring_case(line.take(i), "content-length"@) && known is Some
                ==> read_field(known, line) == Err::<Option<nat>, RequestFault>(
                RequestFault::DuplicateLength,
            )
            &&& !equal_ignoring_case(line.take(i), "transfer-encoding"@) && !equal_ignoring_case(
                line.take(i),
                "content-length"@,
            ) && !equal_ignoring_case(line.take(i), "expect"@) ==> read_field(known, line) == Ok::<
                Option<nat>,
                RequestFault,
            >(known)
        },
{
    lemma_find_is(line, ':', i);
    reveal_strlit("transfer-encoding");
    reveal_strlit("content-length");
    reveal_strlit("expect");
    assert("transfer-encoding"@.len() == 17);
    assert("content-length"@.len() == 14);
    assert("expect"@.len() == 6);
}

/// The first length of the body is the number that the value spells, whatever white space is
/// around it. A value that spells none is refused for the reason why it does not.
pub proof fn law_content_length_is_its_number(
    name: Seq<char>,
    before: Seq<char>,
    value: Seq<char>,
    after: Seq<char>,
)
    requires
        equal_ignoring_case(name, "content-length"@),
        forall|i: int| 0 <= i < before.len() ==> is_white_space(#[trigger] before[i]),
        forall|i: int| 0 <= i < after.len() ==> is_white_space(#[trigger] after[i]),
        value.len() > 0 ==> !is_white_space(value[0]) && !is_white_space(value.last()),
    ensures
        read_field(None, name + seq![':'] + before + value + after) == (match number(
            value,
            usize::MAX as nat,
        ) {
            Ok(n) => Ok::<Option<nat>, RequestFault>(Some(n)),
            Err(e) => Err(RequestFault::ContentLength(e)),
        }),
{
    let line = name + seq![':'] + before + value + after;
    reveal_strlit("transfer-encoding");
    reveal_strlit("content-length");
    assert("transfer-encoding"@.len() == 17);
    law_case_is_that_of_ascii_letters(name, "content-length"@);
    assert forall|j: int| 0 <= j < name.len() implies line[j] != ':' by {
        assert(line[j] == name[j]);
        char_u32_cast(name[j], name[j] as u32);
        let c = "content-length"@[j];
        assert(c == '-' || 'a' <= c <= 'z');
    }
    assert(line[name.len() as int] == ':');
    lemma_find_is(line, ':', name.len() as int);
    assert(line.take(name.len() as int) =~= name);
    assert(line.skip((name.len() + 1) as int) =~= before + value + after);
    law_trimmed_is_what_is_within(before, value, after);
}

/// A field of another name never makes a request fail and says nothing of its body, and so with
/// any number of them.
pub proof fn law_other_fields_are_ignored(fields: Seq<Seq<char>>, colons: Seq<int>)
    requires
        colons.len() == fields.len(),
        forall|k: int|
            0 <= k < fields.len() ==> {
                &&& 0 <= #[trigger] colons[k] < fields[k].len()
                &&& fields[k][colons[k]] == ':'
                &&& forall|j: int| 0 <= j < colons[k] ==> fields[k][j] != ':'
                &&& !equal_ignoring_case(fields[k].take(colons[k]), "transfer-encoding"@)
                &&& !equal_ignoring_case(fields[k].take(colons[k]), "content-length"@)
                &&& !equal_ignoring_case(fields[k].take(colons[k]), "expect"@)
            },
    ensures
        read_fields(fields) == Ok::<Option<nat>, RequestFault>(None),
    decreases fields.len(),
{
    if fields.len() > 0 {
        let n = fields.len() - 1;
        assert forall|k: int| 0 <= k < fields.drop_last().len() implies {
            &&& 0 <= #[trigger] colons.drop_last()[k] < fields.drop_last()[k].len()
            &&& fields.drop_last()[k][colons.drop_last()[k]] == ':'
            &&& forall|j: int| 0 <= j < colons.drop_last()[k] ==> fields.drop_last()[k][j] != ':'
            &&& !equal_ignoring_case(
                fields.drop_last()[k].take(colons.drop_last()[k]),
                "transfer-encoding"@,
            )
            &&& !equal_ignoring_case(
                fields.drop_last()[k].take(colons.drop_last()[k]),
                "content-length"@,
            )
            &&& !equal_ignoring_case(fields.drop_last()[k].take(colons.drop_last()[k]), "expect"@)
        } by {
            assert(colons.drop_last()[k] == colons[k]);
            assert(fields.drop_last()[k] == fields[k]);
        }
        law_other_fields_are_ignored(fields.drop_last(), colons.drop_last());
        assert(0 <= colons[n] < fields[n].len());
        law_field_acts_by_its_name(None, fields[n], colons[n]);
    }
}

/// Fields are read in their order: each acts on what those before it said, and the first fault
/// stays.
pub proof fn law_fields_are_read_in_order(fields: Seq<Seq<char>>, line: Seq<char>)
    ensures
        read_fields(Seq::empty()) == Ok::<Option<nat>, RequestFault>(None),
        match read_fields(fields) {
            Ok(known) => read_fields(fields.push(line)) == read_field(known, line),
            Err(e) => read_fields(fields.push(line)) == Err::<Option<nat>, RequestFault>(e),
        },
{
    assert(fields.push(line).drop_last() =~= fields);
}

/// What bytes amount to: without an empty line, nothing until there are too many; with one, what
/// the head before it says. `text` is the head as text, where it is one.
pub proof fn law_what_bytes_amount_to(raw: Seq<u8>, text: Seq<char>)
    ensures
        head_end(raw) is None ==> verdict(raw) == (if raw.len() >= 32768 {
            Verdict::HeadTooLarge
        } else {
            Verdict::More(2048)
        }),
        head_end(raw) matches Some(end) ==> {
            let head = raw.take(end as int);
            let first = words(lines(text)[0]);
            &&& !valid_utf8(head) ==> verdict(raw) == Verdict::Fail(
                RequestFault::NotUtf8(utf8_fault(head)),
            )
            &&& head == encode_utf8(text) && (first.len() != 3 || (first[2] != "HTTP/1.0"@
                && first[2] != "HTTP/1.1"@)) ==> verdict(raw) == Verdict::BadRequest
            &&& head == encode_utf8(text) && first.len() == 3 && (first[2] == "HTTP/1.0"@
                || first[2] == "HTTP/1.1"@) ==> match read_fields(lines(text).drop_first()) {
                Err(e) => verdict(raw) == Verdict::Fail(e),
                Ok(known) => {
                    let n: nat = match known {
                        Some(n) => n,
                        None => 0,
                    };
                    if n > 65536 {
                        verdict(raw) == Verdict::BodyTooLarge(first[1])
                    } else if raw.len() - end < n {
                        verdict(raw) == Verdict::More(4096)
                    } else {
                        verdict(raw) matches Verdict::Complete(q, body) && q.method == first[0]
                            && q.endpoint == first[1] && q.headers == text && q.length == n && body
                            == raw.skip(end as int).take(n as int)
                    }
                },
            }
        },
{
    encode_utf8_valid_utf8(text);
    encode_utf8_decode_utf8(text);
    lemma_head_end(raw);
    if head_end(raw) is Some {
        let end = head_end(raw)->0;
        assert forall|n: int| 0 <= n <= raw.len() - end implies raw.skip(end as int).take(n)
            == #[trigger] raw.subrange(end as int, end + n) by {
            assert(raw.skip(end as int).take(n) =~= raw.subrange(end as int, end + n));
        }
    }
}

/// The fault of a client that stops is named after the part of the request that it left open.
pub proof fn law_broken_off(raw: Seq<u8>)
    ensures
        head_end(raw) is None ==> broken_off(raw) == RequestFault::IncompleteHead,
        head_end(raw) is Some ==> broken_off(raw) == RequestFault::IncompleteBody,
{
}

} // verus!
