//! The update manifest: the text that tells the client what to fetch and where to put it.

use crate::config::{is_token, valid, Config, ConfigView};
use crate::text::{
    decimal, glued, law_decimal_reads_back, lemma_encode_concat, lemma_encode_without, number, pieces,
    to_decimal, NumberError,
};
use vstd::prelude::*;
use vstd::string::*;
use vstd::utf8::*;

verus! {

/// The largest number that the client's signed integer holds.
pub const MAX_KB: u64 = 0x7fff_ffff;

/// Why no manifest can be made.
#[derive(Debug, Clone, Copy, PartialEq, Eq, Structural)]
pub enum ManifestError {
    /// The required disk space is more than the client can read.
    RequiredKbTooLarge,
}

impl ManifestError {
    /// The words in which the fault is reported.
    pub open spec fn words(self) -> Seq<char> {
        "required-kb exceeds the client's signed integer range"@
    }

    /// The words in which the fault is reported.
    pub fn message(&self) -> (r: String)
        ensures
            r@ == self.words(),
    {
        "required-kb exceeds the client's signed integer range".to_owned()
    }
}

/// The disk space, in KiB, that the client is told to need: what the configuration says, or
/// room for two copies of the payload and 4 MiB.
pub open spec fn required_kb(c: ConfigView, size: nat) -> nat {
    match c.required_kb {
        Some(kb) => kb as nat,
        None => (size + 1023) / 1024 * 2 + 4096,
    }
}

/// Where the client finds the payload.
pub open spec fn payload_url(c: ConfigView) -> Seq<char> {
    c.base_url + "/payload.bin"@
}

/// The line that names the payload, its destination and its signature.
pub open spec fn file_line(c: ConfigView, signature: Seq<char>) -> Seq<char> {
    payload_url(c) + " "@ + c.destination + " "@ + signature
}

/// The manifest's text. It ends in NUL because the client does not add one.
pub open spec fn manifest_text(c: ConfigView, kb: nat, signature: Seq<char>) -> Seq<char> {
    c.message + "\n"@ + c.version + "\n"@ + decimal(kb) + "\n"@ + file_line(c, signature) + "\n\0"@
}

/// The manifest's bytes, unless the client could not read its number.
pub open spec fn manifest_bytes(c: ConfigView, size: nat, signature: Seq<char>) -> Result<
    Seq<u8>,
    ManifestError,
> {
    if required_kb(c, size) > MAX_KB {
        Err(ManifestError::RequiredKbTooLarge)
    } else {
        Ok(encode_utf8(manifest_text(c, required_kb(c, size), signature)))
    }
}

fn needed_kb(c: &Config, size: usize) -> (r: u64)
    ensures
        r == required_kb(c@, size as nat),
{
    match c.required_kb {
        Some(kb) => kb,
        None => {
            let blocks: u64 = if size % 1024 == 0 {
                (size / 1024) as u64
            } else {
                (size / 1024) as u64 + 1
            };
            blocks * 2 + 4096
        },
    }
}

/// Builds the manifest for a payload of `size` bytes.
#[verifier::spinoff_prover]
#[verifier::rlimit(40)]
pub fn manifest(c: &Config, size: usize, signature: &str) -> (r: Result<Vec<u8>, ManifestError>)
    ensures
        match r {
            Ok(b) => manifest_bytes(c@, size as nat, signature@) == Ok::<Seq<u8>, ManifestError>(
                b@,
            ),
            Err(e) => manifest_bytes(c@, size as nat, signature@) == Err::<Seq<u8>, ManifestError>(
                e,
            ),
        },
{
    let kb: u64 = needed_kb(c, size);
    if kb > MAX_KB {
        return Err(ManifestError::RequiredKbTooLarge);
    }
    let mut text: String = c.message.clone();
    text.append("\n");
    text.append(c.version.as_str());
    text.append("\n");
    text.append(to_decimal(kb as u128).as_str());
    text.append("\n");
    let mut line: String = c.base_url.clone();
    line.append("/payload.bin");
    line.append(" ");
    line.append(c.destination.as_str());
    line.append(" ");
    line.append(signature);
    text.append(line.as_str());
    text.append("\n\0");
    Ok(text.as_str().as_bytes_vec())
}

// ---------------------------------------------------------------------------
// Laws
// ---------------------------------------------------------------------------

/// Text without a separator is one piece.
pub proof fn lemma_one_piece(s: Seq<char>, sep: char)
    requires
        !s.contains(sep),
    ensures
        pieces(s, sep) == seq![s],
    decreases s.len(),
{
    if s.len() > 0 {
        assert(s.last() == s[s.len() - 1]);
        assert forall|c: char| s.drop_last().contains(c) implies s.contains(c) by {
            let k = choose|k: int| 0 <= k < s.drop_last().len() && s.drop_last()[k] == c;
            assert(s[k] == c);
        }
        lemma_one_piece(s.drop_last(), sep);
        assert(s.drop_last().push(s.last()) =~= s);
        assert(seq![s.drop_last()].drop_last().push(s) =~= seq![s]);
    }
}

/// A separator between two texts separates their pieces.
pub proof fn lemma_pieces_join(a: Seq<char>, b: Seq<char>, sep: char)
    ensures
        pieces(a.push(sep) + b, sep) == pieces(a, sep) + pieces(b, sep),
    decreases b.len(),
{
    let all = a.push(sep) + b;
    if b.len() == 0 {
        assert(all =~= a.push(sep));
        assert(all.drop_last() =~= a);
        assert(b =~= Seq::empty());
        assert(pieces(b, sep) =~= seq![b]);
        assert(pieces(a, sep).push(Seq::empty()) =~= pieces(a, sep) + pieces(b, sep));
    } else {
        let rest = b.drop_last();
        lemma_pieces_join(a, rest, sep);
        crate::text::lemma_pieces_nonempty(rest, sep);
        assert(all.drop_last() =~= a.push(sep) + rest);
        assert(all.last() == b.last());
        let left = pieces(a, sep);
        let right = pieces(rest, sep);
        assert((left + right).last() == right.last());
        assert((left + right).drop_last() =~= left + right.drop_last());
        assert(pieces(all, sep) =~= left + pieces(b, sep));
    }
}

proof fn lemma_newline_literals()
    ensures
        "\n"@ == seq!['\n'],
        " "@ == seq![' '],
        "\0"@ == seq!['\0'],
        "\n\0"@ == "\n"@ + "\0"@,
{
    reveal_strlit("\n");
    reveal_strlit(" ");
    reveal_strlit("\0");
    reveal_strlit("\n\0");
    assert("\n"@ =~= seq!['\n']);
    assert(" "@ =~= seq![' ']);
    assert("\0"@ =~= seq!['\0']);
    assert("\n\0"@ =~= "\n"@ + "\0"@);
}

proof fn lemma_token_excludes(s: Seq<char>)
    requires
        is_token(s),
    ensures
        !s.contains('\n'),
        !s.contains(' '),
        !s.contains('\0'),
{
}

/// What the client takes from a manifest: a message, a version, a number, and a line of three
/// parts.
pub open spec fn client_lines(text: Seq<char>) -> Seq<Seq<char>> {
    pieces(text, '\n')
}

/// The client reads back from the manifest of a valid configuration exactly what went in: the
/// message, the version, the number and, on the fourth line, the payload's address, its
/// destination and its signature. After the last line end stands only NUL.
pub proof fn law_manifest_reads_back(c: ConfigView, kb: nat, signature: Seq<char>)
    requires
        valid(c),
        kb <= MAX_KB,
        is_token(signature),
    ensures
        client_lines(manifest_text(c, kb, signature)) == seq![
            c.message,
            c.version,
            decimal(kb),
            file_line(c, signature),
            "\0"@,
        ],
        number(decimal(kb), MAX_KB as nat) == Ok::<nat, NumberError>(kb),
        pieces(file_line(c, signature), ' ') == seq![payload_url(c), c.destination, signature],
{
    lemma_newline_literals();
    law_decimal_reads_back(kb, MAX_KB as nat);
    lemma_token_excludes(c.version);
    lemma_token_excludes(c.destination);
    lemma_token_excludes(c.base_url);
    lemma_token_excludes(signature);
    reveal_strlit("/payload.bin");
    let url = payload_url(c);
    assert forall|i: int| 0 <= i < url.len() implies url[i] != '\n' && url[i] != ' ' && url[i]
        != '\0' by {
        if i < c.base_url.len() {
            assert(c.base_url.contains(url[i]));
        } else {
            assert(url[i] == "/payload.bin"@[i - c.base_url.len()]);
        }
    }
    let tail = c.destination.push(' ') + signature;
    let line = file_line(c, signature);
    assert(line =~= url.push(' ') + tail);
    lemma_pieces_join(url, tail, ' ');
    lemma_pieces_join(c.destination, signature, ' ');
    lemma_one_piece(url, ' ');
    lemma_one_piece(c.destination, ' ');
    lemma_one_piece(signature, ' ');
    assert(pieces(line, ' ') =~= seq![url, c.destination, signature]);
    assert forall|i: int| 0 <= i < line.len() implies line[i] != '\n' by {
        if i < url.len() {
        } else if i == url.len() {
        } else if i < url.len() + 1 + c.destination.len() {
            assert(c.destination.contains(line[i]));
        } else if i == url.len() + 1 + c.destination.len() {
        } else {
            assert(signature.contains(line[i]));
        }
    }
    let t4 = line.push('\n') + "\0"@;
    let t3 = decimal(kb).push('\n') + t4;
    let t2 = c.version.push('\n') + t3;
    let t1 = c.message.push('\n') + t2;
    assert(manifest_text(c, kb, signature) =~= t1);
    lemma_pieces_join(c.message, t2, '\n');
    lemma_pieces_join(c.version, t3, '\n');
    lemma_pieces_join(decimal(kb), t4, '\n');
    lemma_pieces_join(line, "\0"@, '\n');
    lemma_one_piece(c.message, '\n');
    lemma_one_piece(c.version, '\n');
    lemma_one_piece(decimal(kb), '\n');
    lemma_one_piece(line, '\n');
    lemma_one_piece("\0"@, '\n');
    assert(pieces(t1, '\n') =~= seq![c.message, c.version, decimal(kb), line, "\0"@]);
}

/// The manifest of a valid configuration, as bytes, holds NUL at its end and nowhere else.
pub proof fn law_manifest_ends_in_nul(c: ConfigView, size: nat, signature: Seq<char>)
    requires
        valid(c),
        required_kb(c, size) <= MAX_KB,
        is_token(signature),
    ensures
        manifest_bytes(c, size, signature) matches Ok(b) && b.len() > 0 && b.last() == 0 && forall|
            i: int,
        |
            0 <= i < b.len() - 1 ==> b[i] != 0,
{
    let kb = required_kb(c, size);
    let text = manifest_text(c, kb, signature);
    let body = text.drop_last();
    lemma_newline_literals();
    lemma_token_excludes(c.version);
    lemma_token_excludes(c.destination);
    lemma_token_excludes(c.base_url);
    lemma_token_excludes(signature);
    law_decimal_reads_back(kb, kb);
    reveal_strlit("/payload.bin");
    let newline = seq!['\n'];
    assert(body =~= c.message + newline + c.version + newline + decimal(kb) + newline + file_line(
        c,
        signature,
    ) + newline);
    assert forall|i: int| 0 <= i < body.len() implies body[i] != '\0' by {
        let n1 = c.message.len() as int;
        let n2 = n1 + 1 + c.version.len();
        let n3 = n2 + 1 + decimal(kb).len();
        let line = file_line(c, signature);
        if i < n1 {
            assert(body[i] == c.message[i]);
        } else if i == n1 {
        } else if i < n2 {
            assert(body[i] == c.version[i - n1 - 1]);
        } else if i == n2 {
        } else if i < n3 {
            assert(body[i] == decimal(kb)[i - n2 - 1]);
        } else if i == n3 {
        } else if i < n3 + 1 + line.len() {
            let j = i - n3 - 1;
            assert(body[i] == line[j]);
            let url = payload_url(c);
            if j < c.base_url.len() {
                assert(line[j] == c.base_url[j]);
            } else if j < url.len() {
                assert(line[j] == "/payload.bin"@[j - c.base_url.len()]);
            } else if j == url.len() {
            } else if j < url.len() + 1 + c.destination.len() {
                assert(line[j] == c.destination[j - url.len() - 1]);
            } else if j == url.len() + 1 + c.destination.len() {
            } else {
                assert(line[j] == signature[j - url.len() - 2 - c.destination.len()]);
            }
        }
    }
    assert(text =~= body + seq!['\0']);
    lemma_encode_concat(body, seq!['\0']);
    lemma_encode_without(body, '\0');
    assert(is_ascii_chars(seq!['\0']));
    is_ascii_chars_encode_utf8(seq!['\0']);
    let end = encode_utf8(seq!['\0']);
    assert(seq!['\0'][0] as u8 == end[0]);
    assert(end[0] == 0);
}

/// Without an override, the announced disk space holds two copies of the payload and 4 MiB,
/// and for every payload that can be served it is a number that the client can read.
pub proof fn law_estimate_suffices(c: ConfigView, size: nat)
    requires
        c.required_kb is None,
    ensures
        required_kb(c, size) * 1024 >= 2 * size + 4096 * 1024,
        size <= 0x7fff_ffff ==> required_kb(c, size) <= MAX_KB,
{
}

/// A manifest is made whenever its number is one that the client can read, and refused
/// otherwise.
pub proof fn law_manifest_is_made_for_every_readable_number(
    c: ConfigView,
    size: nat,
    signature: Seq<char>,
)
    ensures
        c.required_kb matches Some(kb) ==> (manifest_bytes(c, size, signature) is Ok <==> kb
            <= 2147483647),
        c.required_kb is None ==> (manifest_bytes(c, size, signature) is Ok <==> (size + 1023)
            / 1024 <= 1073739775),
        manifest_bytes(c, size, signature) is Err ==> manifest_bytes(c, size, signature)
            == Err::<Seq<u8>, ManifestError>(ManifestError::RequiredKbTooLarge),
{
}

/// The disk space that is given is the one that the client reads, whatever the size of the
/// payload and the rest of the configuration.
pub proof fn law_given_space_is_announced(
    c: ConfigView,
    size: nat,
    signature: Seq<char>,
    kb: u64,
)
    requires
        valid(c),
        is_token(signature),
        c.required_kb == Some(kb),
        kb <= 2147483647,
    ensures
        manifest_bytes(c, size, signature) matches Ok(b) && number(
            pieces(decode_utf8(b), '\n')[2],
            2147483647,
        ) == Ok::<nat, NumberError>(kb as nat),
{
    law_manifest_reads_back(c, kb as nat, signature);
    encode_utf8_decode_utf8(manifest_text(c, kb as nat, signature));
}

/// The disk space that is estimated is the one that the client reads. It is the least number
/// that holds 4 MiB and, in whole KiB, the payload twice.
pub proof fn law_estimated_space_is_announced(c: ConfigView, size: nat, signature: Seq<char>)
    requires
        valid(c),
        is_token(signature),
        c.required_kb is None,
        manifest_bytes(c, size, signature) is Ok,
    ensures
        number(
            pieces(decode_utf8(manifest_bytes(c, size, signature)->Ok_0), '\n')[2],
            2147483647,
        ) matches Ok(kb) && {
            &&& kb >= 4096
            &&& (kb - 4096) % 2 == 0
            &&& (kb - 4096) / 2 * 1024 >= size
            &&& ((kb - 4096) / 2 - 1) * 1024 < size
        },
{
    let kb = required_kb(c, size);
    law_manifest_reads_back(c, kb, signature);
    encode_utf8_decode_utf8(manifest_text(c, kb, signature));
}

/// A manifest is five lines: the message, the version, a number, a line of three words, and
/// NUL. The words are the address of the payload, its destination and its signature.
pub proof fn law_manifest_lines(c: ConfigView, size: nat, signature: Seq<char>) -> (kb: Seq<char>)
    requires
        manifest_bytes(c, size, signature) is Ok,
    ensures
        match c.required_kb {
            Some(given) => number(kb, 2147483647) == Ok::<nat, NumberError>(given as nat),
            None => number(kb, 2147483647) matches Ok(k) && k >= 4096 && (k - 4096) % 2 == 0 && (k
                - 4096) / 2 * 1024 >= size && ((k - 4096) / 2 - 1) * 1024 < size,
        },
        kb.len() > 1 ==> kb[0] != '0',
        forall|i: int| 0 <= i < kb.len() ==> '0' <= #[trigger] kb[i] <= '9',
        decode_utf8(manifest_bytes(c, size, signature)->Ok_0) == glued(
            seq![
                c.message,
                c.version,
                kb,
                glued(seq![c.base_url + "/payload.bin"@, c.destination, signature], seq![' ']),
                seq!['\0'],
            ],
            seq!['\n'],
        ),
        valid_utf8(manifest_bytes(c, size, signature)->Ok_0),
{
    let n = required_kb(c, size);
    let kb = decimal(n);
    law_decimal_reads_back(n, 2147483647);
    encode_utf8_decode_utf8(manifest_text(c, n, signature));
    lemma_newline_literals();
    let url = c.base_url + "/payload.bin"@;
    let line = glued(seq![url, c.destination, signature], seq![' ']);
    lemma_glued_three(url, c.destination, signature, seq![' ']);
    assert(line =~= file_line(c, signature));
    lemma_glued_five(c.message, c.version, kb, line, seq!['\0'], seq!['\n']);
    assert(manifest_text(c, n, signature) =~= glued(
        seq![c.message, c.version, kb, line, seq!['\0']],
        seq!['\n'],
    ));
    encode_utf8_valid_utf8(manifest_text(c, n, signature));
    kb
}

proof fn lemma_glued_three(a: Seq<char>, b: Seq<char>, c: Seq<char>, t: Seq<char>)
    ensures
        glued(seq![a, b, c], t) == a + t + b + t + c,
{
    reveal_with_fuel(glued, 4);
    assert(seq![a, b, c].drop_last() =~= seq![a, b]);
    assert(seq![a, b].drop_last() =~= seq![a]);
}

proof fn lemma_glued_five(
    a: Seq<char>,
    b: Seq<char>,
    c: Seq<char>,
    d: Seq<char>,
    e: Seq<char>,
    t: Seq<char>,
)
    ensures
        glued(seq![a, b, c, d, e], t) == a + t + b + t + c + t + d + t + e,
{
    lemma_glued_three(a, b, c, t);
    assert(seq![a, b, c, d, e].drop_last() =~= seq![a, b, c, d]);
    assert(seq![a, b, c, d].drop_last() =~= seq![a, b, c]);
    assert(glued(seq![a, b, c, d], t) == glued(seq![a, b, c], t) + t + d);
}

} // verus!
