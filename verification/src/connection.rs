//! One connection: bytes come in, and at some point a reply goes out.

use crate::reply::{
    answer, answered, bad_request, body_too_large, head_too_large, refuse_body, refuse_head,
    refuse_request_line, Reply, ReplyView, State,
};
use crate::request::{
    broken_off, ends_head, find_head_end, head_end, lemma_head_end, lemma_head_end_is, parse_head,
    read_head_bytes, verdict, Request, RequestError, RequestFault, RequestView, Verdict,
    BODY_CHUNK, HEAD_CHUNK, MAX_BODY, MAX_HEAD,
};
use vstd::prelude::*;

verus! {

/// A connection whose request is incomplete.
#[derive(Debug)]
pub struct Connection {
    raw: Vec<u8>,
    head: Option<(usize, Request)>,
}

/// What became of a connection after some bytes.
#[derive(Debug)]
pub enum Progress<'a> {
    /// The request is still incomplete.
    More(Connection),
    /// The request is refused with this reply before all of it was read.
    Refuse(Reply<'a>),
    /// The request, its body, and the reply to it.
    Answer(Request, Vec<u8>, Reply<'a>),
    /// The connection is dropped.
    Fail(RequestError),
}

/// The reply with which a request is refused before all of it was read.
pub open spec fn refusal(v: Verdict) -> Option<ReplyView> {
    match v {
        Verdict::HeadTooLarge => Some(head_too_large()),
        Verdict::BadRequest => Some(bad_request()),
        Verdict::BodyTooLarge(endpoint) => Some(body_too_large(endpoint)),
        _ => None,
    }
}

/// The end of the head does not move when more bytes come.
pub proof fn lemma_head_end_kept(raw: Seq<u8>, more: Seq<u8>)
    requires
        head_end(raw) is Some,
    ensures
        head_end(raw + more) == head_end(raw),
        (raw + more).take(head_end(raw)->0 as int) == raw.take(head_end(raw)->0 as int),
{
    lemma_head_end(raw);
    let e = head_end(raw)->0;
    assert forall|j: int| 0 <= j < e - 4 implies !ends_head(raw + more, j) by {
        assert(!ends_head(raw, j));
    }
    lemma_head_end_is(raw + more, e - 4);
    assert((raw + more).take(e as int) =~= raw.take(e as int));
}

impl Connection {
    #[verifier::type_invariant]
    spec fn waits(self) -> bool {
        &&& verdict(self.raw@) is More
        &&& match self.head {
            None => head_end(self.raw@) is None,
            Some(h) => {
                &&& head_end(self.raw@) == Some(h.0 as nat)
                &&& h.0 <= self.raw@.len()
                &&& read_head_bytes(self.raw@.take(h.0 as int)) == Ok::<
                    Option<RequestView>,
                    RequestFault,
                >(Some(h.1@))
            },
        }
    }

    /// The bytes received so far.
    pub closed spec fn received(self) -> Seq<u8> {
        self.raw@
    }

    /// A connection on which nothing was received yet.
    pub fn new() -> (r: Connection)
        ensures
            r.received() == Seq::<u8>::empty(),
    {
        Connection { raw: Vec::new(), head: None }
    }

    /// How many bytes to read next, at most.
    pub fn wants(&self) -> (r: usize)
        ensures
            verdict(self.received()) == Verdict::More(r as nat),
    {
        proof {
            use_type_invariant(self);
        }
        if self.head.is_none() {
            HEAD_CHUNK
        } else {
            BODY_CHUNK
        }
    }

    /// Takes the bytes that were read. That none were means that the client stopped.
    pub fn receive<'a>(self, chunk: &[u8], state: &'a State) -> (r: Progress<'a>)
        ensures
            chunk@.len() == 0 ==> (r matches Progress::Fail(e) && e@ == broken_off(
                self.received(),
            )),
            chunk@.len() > 0 ==> match r {
                Progress::More(c) => c.received() == self.received() + chunk@ && verdict(
                    c.received(),
                ) is More,
                Progress::Refuse(reply) => refusal(verdict(self.received() + chunk@)) == Some(
                    reply@,
                ),
                Progress::Answer(request, body, reply) => verdict(self.received() + chunk@)
                    == Verdict::Complete(request@, body@) && reply@ == answered(
                    state@,
                    request@,
                ),
                Progress::Fail(e) => verdict(self.received() + chunk@) == Verdict::Fail(e@),
            },
    {
        proof {
            use_type_invariant(&self);
        }
        let Connection { raw: before, head } = self;
        if chunk.len() == 0 {
            return Progress::Fail(
                if head.is_none() {
                    RequestError::IncompleteHead
                } else {
                    RequestError::IncompleteBody
                },
            );
        }
        let mut raw: Vec<u8> = before;
        raw.extend_from_slice(chunk);
        proof {
            if head_end(before@) is Some {
                lemma_head_end_kept(before@, chunk@);
            }
        }
        assert(raw@ == before@ + chunk@);
        let (end, request): (usize, Request) = match head {
            Some(h) => h,
            None => match find_head_end(raw.as_slice()) {
                None => {
                    if raw.len() >= MAX_HEAD {
                        return Progress::Refuse(refuse_head());
                    }
                    return Progress::More(Connection { raw, head: None });
                },
                Some(end) => {
                    let text: &[u8] = vstd::slice::slice_subrange(raw.as_slice(), 0, end);
                    assert(text@ =~= raw@.take(end as int));
                    match parse_head(text) {
                        Err(e) => {
                            return Progress::Fail(e);
                        },
                        Ok(None) => {
                            return Progress::Refuse(refuse_request_line());
                        },
                        Ok(Some(q)) => (end, q),
                    }
                },
            },
        };
        if request.length > MAX_BODY {
            return Progress::Refuse(refuse_body(request.endpoint.as_str()));
        }
        if raw.len() - end < request.length {
            return Progress::More(Connection { raw, head: Some((end, request)) });
        }
        let body: Vec<u8> = vstd::slice::slice_to_vec(
            vstd::slice::slice_subrange(raw.as_slice(), end, end + request.length),
        );
        let reply: Reply<'a> = answer(state, &request);
        Progress::Answer(request, body, reply)
    }
}

// ---------------------------------------------------------------------------
// Laws
// ---------------------------------------------------------------------------

/// The decisions that refuse a request are answered, each in its own way; the others are not
/// refusals.
pub proof fn law_refusals_are_answered(v: Verdict, endpoint: Seq<char>)
    ensures
        refusal(Verdict::HeadTooLarge) == Some(head_too_large()),
        refusal(Verdict::BadRequest) == Some(bad_request()),
        refusal(Verdict::BodyTooLarge(endpoint)) == Some(body_too_large(endpoint)),
        refusal(v) is Some <==> v is HeadTooLarge || v is BadRequest || v is BodyTooLarge,
{
}

/// Once the head is complete, a decision stands whatever comes after.
pub proof fn law_decision_is_final(raw: Seq<u8>, more: Seq<u8>)
    requires
        !(verdict(raw) is More),
        head_end(raw) is Some,
    ensures
        verdict(raw + more) == verdict(raw),
{
    lemma_head_end_kept(raw, more);
    lemma_head_end(raw);
    let end = head_end(raw)->0;
    match read_head_bytes(raw.take(end as int)) {
        Ok(Some(q)) => {
            if q.length <= MAX_BODY {
                assert((raw + more).subrange(end as int, (end + q.length) as int) =~= raw.subrange(
                    end as int,
                    (end + q.length) as int,
                ));
            }
        },
        _ => {},
    }
}

/// What comes of bytes that arrive in chunks, after those of `raw`: chunks are taken until
/// there is a decision.
pub open spec fn outcome(raw: Seq<u8>, chunks: Seq<Seq<u8>>) -> Verdict
    decreases chunks.len(),
{
    if !(verdict(raw) is More) || chunks.len() == 0 {
        verdict(raw)
    } else {
        outcome(raw + chunks[0], chunks.drop_first())
    }
}

/// The bytes of `raw` and of all chunks.
pub open spec fn joined(raw: Seq<u8>, chunks: Seq<Seq<u8>>) -> Seq<u8>
    decreases chunks.len(),
{
    if chunks.len() == 0 {
        raw
    } else {
        joined(raw + chunks[0], chunks.drop_first())
    }
}

proof fn lemma_joined(raw: Seq<u8>, chunks: Seq<Seq<u8>>) -> (rest: Seq<u8>)
    ensures
        joined(raw, chunks) == raw + rest,
    decreases chunks.len(),
{
    if chunks.len() == 0 {
        assert(raw + Seq::<u8>::empty() =~= raw);
        Seq::empty()
    } else {
        let rest = lemma_joined(raw + chunks[0], chunks.drop_first());
        assert(raw + chunks[0] + rest =~= raw + (chunks[0] + rest));
        chunks[0] + rest
    }
}

/// How the bytes of a request are cut into chunks does not matter, as long as the head, if it
/// ends, ends within its limit.
pub proof fn law_chunks_do_not_matter(raw: Seq<u8>, chunks: Seq<Seq<u8>>)
    requires
        head_end(joined(raw, chunks)) matches Some(end) ==> end <= MAX_HEAD,
    ensures
        outcome(raw, chunks) == verdict(joined(raw, chunks)),
    decreases chunks.len(),
{
    if chunks.len() > 0 {
        let rest = lemma_joined(raw, chunks);
        let all = joined(raw, chunks);
        if verdict(raw) is More {
            law_chunks_do_not_matter(raw + chunks[0], chunks.drop_first());
        } else if head_end(raw) is Some {
            law_decision_is_final(raw, rest);
        } else {
            lemma_head_end(raw);
            lemma_head_end(all);
            if head_end(all) is Some {
                let end = head_end(all)->0;
                assert(ends_head(raw, end - 4));
            }
        }
    }
}

/// Chunks that are no longer than what was asked for, each taken while the request was
/// incomplete.
pub open spec fn as_asked(raw: Seq<u8>, chunks: Seq<Seq<u8>>) -> bool
    decreases chunks.len(),
{
    chunks.len() > 0 ==> {
        &&& verdict(raw) matches Verdict::More(n) && chunks[0].len() <= n
        &&& as_asked(raw + chunks[0], chunks.drop_first())
    }
}

/// A client cannot make the server hold more than a fixed number of bytes.
pub proof fn law_memory_is_bounded(chunks: Seq<Seq<u8>>)
    requires
        as_asked(Seq::empty(), chunks),
    ensures
        joined(Seq::empty(), chunks).len() < MAX_HEAD + HEAD_CHUNK + MAX_BODY + BODY_CHUNK,
{
    lemma_head_end(Seq::empty());
    lemma_memory(Seq::empty(), chunks);
}

proof fn lemma_memory(raw: Seq<u8>, chunks: Seq<Seq<u8>>)
    requires
        as_asked(raw, chunks),
        raw.len() < MAX_HEAD + HEAD_CHUNK + MAX_BODY + BODY_CHUNK,
        head_end(raw) matches Some(end) ==> end < MAX_HEAD + HEAD_CHUNK,
    ensures
        joined(raw, chunks).len() < MAX_HEAD + HEAD_CHUNK + MAX_BODY + BODY_CHUNK,
    decreases chunks.len(),
{
    if chunks.len() > 0 {
        if head_end(raw) is Some {
            lemma_head_end_kept(raw, chunks[0]);
        } else {
            lemma_head_end(raw + chunks[0]);
        }
        lemma_memory(raw + chunks[0], chunks.drop_first());
    }
}

} // verus!
