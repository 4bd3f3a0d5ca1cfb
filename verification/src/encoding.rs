//! Base64 in the standard alphabet, padded.

use crate::text::is_ascii_alphanumeric;
use base64::engine::general_purpose::STANDARD;
use base64::Engine;
use vstd::prelude::*;
use vstd::string::*;

verus! {

/// The character of the standard alphabet for a value below 64.
pub open spec fn base64_char(v: nat) -> char {
    if v < 26 {
        ('A' as u32 + v) as char
    } else if v < 52 {
        ('a' as u32 + v - 26) as char
    } else if v < 62 {
        ('0' as u32 + v - 52) as char
    } else if v == 62 {
        '+'
    } else {
        '/'
    }
}

/// The Base64 text of bytes: four characters for every three bytes, and for one or two bytes
/// that are left over, the characters that hold their bits and padding.
pub open spec fn base64_text(b: Seq<u8>) -> Seq<char>
    decreases b.len(),
{
    if b.len() == 0 {
        Seq::empty()
    } else if b.len() == 1 {
        seq![base64_char((b[0] / 4) as nat), base64_char((b[0] % 4 * 16) as nat), '=', '=']
    } else if b.len() == 2 {
        seq![
            base64_char((b[0] / 4) as nat),
            base64_char((b[0] % 4 * 16 + b[1] / 16) as nat),
            base64_char((b[1] % 16 * 4) as nat),
            '=',
        ]
    } else {
        seq![
            base64_char((b[0] / 4) as nat),
            base64_char((b[0] % 4 * 16 + b[1] / 16) as nat),
            base64_char((b[1] % 16 * 4 + b[2] / 64) as nat),
            base64_char((b[2] % 64) as nat),
        ] + base64_text(b.skip(3))
    }
}

/// The bytes of a Base64 text; `None` where it is the text of no bytes.
pub open spec fn base64_bytes(text: Seq<char>) -> Option<Seq<u8>> {
    if exists|b: Seq<u8>| base64_text(b) == text {
        Some(choose|b: Seq<u8>| base64_text(b) == text)
    } else {
        None
    }
}

/// A character of the standard Base64 alphabet, or its padding.
pub open spec fn is_base64_char(c: char) -> bool {
    is_ascii_alphanumeric(c) || c == '+' || c == '/' || c == '='
}

/// The length of the Base64 text of `n` bytes.
pub open spec fn base64_len(n: nat) -> nat {
    (n + 2) / 3 * 4
}

/// The errors of `base64` on decoding.
#[verifier::external_type_specification]
#[verifier::external_body]
pub struct ExDecodeError(base64::DecodeError);

/// Calls `Engine::encode` of `base64` with the engine `STANDARD`, which gives the Base64 text of
/// the bytes. The outside function panics where the length of the text is no `usize`.
#[verifier::external_body]
pub(crate) fn base64_encode(bytes: &[u8]) -> (r: String)
    requires
        base64_len(bytes@.len()) <= usize::MAX,
    ensures
        r@ == base64_text(bytes@),
{
    STANDARD.encode(bytes)
}

/// Calls `Engine::decode` of `base64` with the engine `STANDARD`. The engine takes canonical
/// text only, with its padding and without stray bits: it succeeds on the Base64 text of some
/// bytes, gives these bytes, and fails on every other text.
#[verifier::external_body]
pub(crate) fn base64_decode(text: &str) -> (r: Result<Vec<u8>, base64::DecodeError>)
    ensures
        match r {
            Ok(v) => base64_text(v@) == text@,
            Err(_) => forall|b: Seq<u8>| #[trigger] base64_text(b) != text@,
        },
{
    STANDARD.decode(text)
}

// ---------------------------------------------------------------------------
// Laws
// ---------------------------------------------------------------------------

proof fn lemma_base64_char(v: nat)
    requires
        v < 64,
    ensures
        is_base64_char(base64_char(v)),
        base64_char(v) != '=',
{
}

proof fn lemma_base64_value(v: nat, w: nat)
    requires
        v < 64,
        w < 64,
        base64_char(v) == base64_char(w),
    ensures
        v == w,
{
}

/// The Base64 text of bytes has four characters for every three bytes begun, all of them of the
/// alphabet or padding.
pub proof fn law_base64_shape(b: Seq<u8>)
    ensures
        base64_text(b).len() == base64_len(b.len()),
        forall|i: int|
            0 <= i < base64_text(b).len() ==> is_base64_char(#[trigger] base64_text(b)[i]),
    decreases b.len(),
{
    if b.len() > 0 {
        lemma_base64_char((b[0] / 4) as nat);
        if b.len() == 1 {
            lemma_base64_char((b[0] % 4 * 16) as nat);
        } else {
            lemma_base64_char((b[0] % 4 * 16 + b[1] / 16) as nat);
            if b.len() == 2 {
                lemma_base64_char((b[1] % 16 * 4) as nat);
            } else {
                lemma_base64_char((b[1] % 16 * 4 + b[2] / 64) as nat);
                lemma_base64_char((b[2] % 64) as nat);
                law_base64_shape(b.skip(3));
            }
        }
    }
}

proof fn lemma_base64_injective(a: Seq<u8>, b: Seq<u8>)
    requires
        base64_text(a) == base64_text(b),
    ensures
        a == b,
    decreases a.len(),
{
    let t = base64_text(a);
    law_base64_shape(a);
    law_base64_shape(b);
    if a.len() == 0 || b.len() == 0 {
        assert(a =~= b);
    } else {
        lemma_base64_first(a);
        lemma_base64_first(b);
        lemma_base64_value((a[0] / 4) as nat, (b[0] / 4) as nat);
        if a.len() == 1 {
            lemma_base64_value((a[0] % 4 * 16) as nat, (b[0] % 4 * 16) as nat);
            assert(a =~= b);
        } else {
            lemma_base64_value(
                (a[0] % 4 * 16 + a[1] / 16) as nat,
                (b[0] % 4 * 16 + b[1] / 16) as nat,
            );
            assert(a[0] == b[0]);
            if a.len() == 2 {
                lemma_base64_value((a[1] % 16 * 4) as nat, (b[1] % 16 * 4) as nat);
                assert(a =~= b);
            } else {
                lemma_base64_value(
                    (a[1] % 16 * 4 + a[2] / 64) as nat,
                    (b[1] % 16 * 4 + b[2] / 64) as nat,
                );
                lemma_base64_value((a[2] % 64) as nat, (b[2] % 64) as nat);
                assert(a[1] == b[1] && a[2] == b[2]);
                assert(t.skip(4) =~= base64_text(a.skip(3)));
                assert(t.skip(4) =~= base64_text(b.skip(3)));
                lemma_base64_injective(a.skip(3), b.skip(3));
                assert forall|i: int| 0 <= i < a.len() implies a[i] == b[i] by {
                    if i >= 3 {
                        assert(a[i] == a.skip(3)[i - 3]);
                        assert(b[i] == b.skip(3)[i - 3]);
                    }
                }
                assert(a =~= b);
            }
        }
    }
}

proof fn lemma_base64_first(b: Seq<u8>)
    requires
        b.len() > 0,
    ensures
        base64_text(b).len() >= 4,
        base64_text(b)[2] == '=' <==> b.len() == 1,
        base64_text(b)[3] == '=' <==> b.len() <= 2,
        base64_text(b)[0] == base64_char((b[0] / 4) as nat),
        b.len() == 1 ==> base64_text(b)[1] == base64_char((b[0] % 4 * 16) as nat),
        b.len() > 1 ==> base64_text(b)[1] == base64_char((b[0] % 4 * 16 + b[1] / 16) as nat),
        b.len() == 2 ==> base64_text(b)[2] == base64_char((b[1] % 16 * 4) as nat),
        b.len() > 2 ==> base64_text(b)[2] == base64_char((b[1] % 16 * 4 + b[2] / 64) as nat),
        b.len() > 2 ==> base64_text(b)[3] == base64_char((b[2] % 64) as nat),
{
    law_base64_shape(b);
    if b.len() == 2 {
        lemma_base64_char((b[1] % 16 * 4) as nat);
    } else if b.len() > 2 {
        lemma_base64_char((b[1] % 16 * 4 + b[2] / 64) as nat);
        lemma_base64_char((b[2] % 64) as nat);
    }
}

/// Bytes that are written in Base64 read back.
pub proof fn law_base64_reads_back(b: Seq<u8>)
    ensures
        base64_bytes(base64_text(b)) == Some(b),
{
    let text = base64_text(b);
    let read = choose|a: Seq<u8>| base64_text(a) == text;
    lemma_base64_injective(read, b);
}

} // verus!
