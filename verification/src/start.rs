//! What happens between reading the command line and listening: which signature is used,
//! whether it is saved, and what is announced.

use crate::config::{valid, Config, ConfigView};
use crate::encoding::base64_bytes;
use crate::manifest::{manifest, manifest_bytes, manifest_text, required_kb, ManifestError};
use crate::signing::{law_saved_signature_reads_back, Signature};
use crate::text::{
    decimal, glued, law_decimal_reads_back, number, to_decimal, without_white_space, NumberError,
};
use vstd::prelude::*;
use vstd::string::*;
use vstd::utf8::*;

verus! {

/// The largest payload.
pub const MAX_PAYLOAD: usize = 0x7fff_ffff;

/// Why the program does not start.
#[derive(Debug, Clone, Copy, PartialEq, Eq, Structural)]
pub enum StartError {
    /// The payload is empty or too large.
    PayloadSize,
    /// There is no signature to save.
    NothingToSave,
    /// Signing only makes sense where the signature is saved.
    SignOnlyWithoutOutput,
}

impl StartError {
    /// The words in which the fault is reported.
    pub open spec fn words(self) -> Seq<char> {
        match self {
            StartError::PayloadSize =>
                "payload must be nonempty and <=2 GiB-1; PS3 RAM imposes a much lower practical limit"@,
            StartError::NothingToSave => "signature-out requires signature or private-key"@,
            StartError::SignOnlyWithoutOutput => "sign-only requires signature-out"@,
        }
    }

    /// The words in which the fault is reported.
    pub fn message(&self) -> (r: String)
        ensures
            r@ == self.words(),
    {
        match self {
            StartError::PayloadSize =>
                "payload must be nonempty and <=2 GiB-1; PS3 RAM imposes a much lower practical limit".to_owned(),
            StartError::NothingToSave =>
                "signature-out requires signature or private-key".to_owned(),
            StartError::SignOnlyWithoutOutput => "sign-only requires signature-out".to_owned(),
        }
    }
}

/// Whether a payload of this size can be served.
pub open spec fn payload_fits(size: nat) -> bool {
    0 < size <= MAX_PAYLOAD
}

/// Checks the size of the payload.
pub fn check_payload(size: usize) -> (r: Result<(), StartError>)
    ensures
        r == (if 0 < size <= MAX_PAYLOAD {
            Ok(())
        } else {
            Err(StartError::PayloadSize)
        }),
        r is Ok <==> payload_fits(size as nat),
{
    if size == 0 || size > MAX_PAYLOAD {
        Err(StartError::PayloadSize)
    } else {
        Ok(())
    }
}

/// Where the signature comes from.
#[derive(Debug)]
pub enum SignatureSource<'a> {
    /// It is made with the private key in this file.
    PrivateKey(&'a str),
    /// It is read from this file.
    Supplied(&'a str),
    /// Zeros stand in for it.
    Diagnostic,
    /// There is none.
    Absent,
}

/// The contents of a [`SignatureSource`].
pub enum SourceView {
    PrivateKey(Seq<char>),
    Supplied(Seq<char>),
    Diagnostic,
    Absent,
}

impl<'a> View for SignatureSource<'a> {
    type V = SourceView;

    open spec fn view(&self) -> SourceView {
        match *self {
            SignatureSource::PrivateKey(path) => SourceView::PrivateKey(path@),
            SignatureSource::Supplied(path) => SourceView::Supplied(path@),
            SignatureSource::Diagnostic => SourceView::Diagnostic,
            SignatureSource::Absent => SourceView::Absent,
        }
    }
}

/// Where the signature comes from.
pub open spec fn source_of(c: ConfigView) -> SourceView {
    match c.private_key {
        Some(path) => SourceView::PrivateKey(path),
        None => match c.signature {
            Some(path) => SourceView::Supplied(path),
            None => if c.diagnostic {
                SourceView::Diagnostic
            } else {
                SourceView::Absent
            },
        },
    }
}

/// Chooses the source of the signature.
pub fn signature_source<'a>(c: &'a Config) -> (r: SignatureSource<'a>)
    ensures
        match r {
            SignatureSource::PrivateKey(path) => c@.private_key == Some(path@),
            SignatureSource::Supplied(path) => c@.private_key is None && c@.signature == Some(
                path@,
            ),
            SignatureSource::Diagnostic => c@.private_key is None && c@.signature is None
                && c@.diagnostic,
            SignatureSource::Absent => c@.private_key is None && c@.signature is None
                && !c@.diagnostic,
        },
        r@ == source_of(c@),
{
    match &c.private_key {
        Some(path) => SignatureSource::PrivateKey(path.as_str()),
        None => match &c.signature {
            Some(path) => SignatureSource::Supplied(path.as_str()),
            None => if c.diagnostic {
                SignatureSource::Diagnostic
            } else {
                SignatureSource::Absent
            },
        },
    }
}

/// The contents of an optional borrowed string.
pub open spec fn opt_str(o: Option<&str>) -> Option<Seq<char>> {
    match o {
        Some(s) => Some(s@),
        None => None,
    }
}

/// A file to write.
#[derive(Debug)]
pub struct Saved<'a> {
    pub path: &'a str,
    pub text: String,
}

/// What is saved of the signature: the path of the file and its text.
pub open spec fn saved_file(c: ConfigView, signature: Option<Seq<char>>) -> Result<
    Option<(Seq<char>, Seq<char>)>,
    StartError,
> {
    match c.signature_out {
        None => Ok(None),
        Some(path) => match signature {
            None => Err(StartError::NothingToSave),
            Some(s) => Ok(Some((path, s + "\n"@))),
        },
    }
}

/// What is saved of the signature: its text and a line end, where a file was named for it.
pub fn signature_file<'a>(c: &'a Config, signature: Option<&str>) -> (r: Result<
    Option<Saved<'a>>,
    StartError,
>)
    ensures
        match r {
            Ok(None) => c@.signature_out is None,
            Ok(Some(f)) => opt_str(signature) matches Some(s) && c@.signature_out == Some(f.path@)
                && f.text@ == s + "\n"@,
            Err(e) => c@.signature_out is Some && signature is None && e
                == StartError::NothingToSave,
        },
        match r {
            Ok(None) => saved_file(c@, opt_str(signature)) == Ok::<
                Option<(Seq<char>, Seq<char>)>,
                StartError,
            >(None),
            Ok(Some(f)) => saved_file(c@, opt_str(signature)) == Ok::<
                Option<(Seq<char>, Seq<char>)>,
                StartError,
            >(Some((f.path@, f.text@))),
            Err(e) => saved_file(c@, opt_str(signature)) == Err::<
                Option<(Seq<char>, Seq<char>)>,
                StartError,
            >(e),
        },
{
    match &c.signature_out {
        None => Ok(None),
        Some(path) => match signature {
            None => Err(StartError::NothingToSave),
            Some(s) => {
                let mut text: String = s.to_owned();
                text.append("\n");
                Ok(Some(Saved { path: path.as_str(), text }))
            },
        },
    }
}

/// Whether the program ends once the signature is saved.
pub open spec fn ending(c: ConfigView) -> Result<bool, StartError> {
    if !c.sign_only {
        Ok(false)
    } else if c.signature_out is None {
        Err(StartError::SignOnlyWithoutOutput)
    } else {
        Ok(true)
    }
}

/// Whether the program ends once the signature is saved.
pub fn ends_after_saving(c: &Config) -> (r: Result<bool, StartError>)
    ensures
        r == (if !c@.sign_only {
            Ok(false)
        } else if c@.signature_out is None {
            Err(StartError::SignOnlyWithoutOutput)
        } else {
            Ok(true)
        }),
        r == ending(c@),
{
    if !c.sign_only {
        Ok(false)
    } else if c.signature_out.is_none() {
        Err(StartError::SignOnlyWithoutOutput)
    } else {
        Ok(true)
    }
}

/// The manifest that is announced; none where no update is wanted or there is no signature.
pub open spec fn announcement_bytes(
    c: ConfigView,
    size: nat,
    signature: Option<Seq<char>>,
) -> Result<Option<Seq<u8>>, ManifestError> {
    if c.no_update || signature is None {
        Ok(None)
    } else {
        match manifest_bytes(c, size, signature->0) {
            Ok(b) => Ok(Some(b)),
            Err(e) => Err(e),
        }
    }
}

/// The contents of optional bytes.
pub open spec fn opt_bytes(o: Option<Vec<u8>>) -> Option<Seq<u8>> {
    match o {
        Some(b) => Some(b@),
        None => None,
    }
}

/// Builds the manifest that is announced, where there is one.
pub fn announcement(c: &Config, size: usize, signature: Option<&str>) -> (r: Result<
    Option<Vec<u8>>,
    ManifestError,
>)
    ensures
        match r {
            Ok(m) => announcement_bytes(c@, size as nat, opt_str(signature)) == Ok::<
                Option<Seq<u8>>,
                ManifestError,
            >(opt_bytes(m)),
            Err(e) => announcement_bytes(c@, size as nat, opt_str(signature)) == Err::<
                Option<Seq<u8>>,
                ManifestError,
            >(e),
        },
{
    if c.no_update {
        return Ok(None);
    }
    match signature {
        None => Ok(None),
        Some(s) => match manifest(c, size, s) {
            Ok(b) => Ok(Some(b)),
            Err(e) => Err(e),
        },
    }
}

/// The name of the session's log.
pub open spec fn log_name(stamp: nat, process: nat) -> Seq<char> {
    "session-"@ + decimal(stamp) + "-"@ + decimal(process) + ".jsonl"@
}

/// The name of the session's log.
pub fn log_file_name(stamp: u128, process: u32) -> (r: String)
    ensures
        r@ == "session-"@ + decimal(stamp as nat) + "-"@ + decimal(process as nat) + ".jsonl"@,
        r@ == log_name(stamp as nat, process as nat),
{
    let mut r: String = "session-".to_owned();
    r.append(to_decimal(stamp).as_str());
    r.append("-");
    r.append(to_decimal(process as u128).as_str());
    r.append(".jsonl");
    r
}

// ---------------------------------------------------------------------------
// Laws
// ---------------------------------------------------------------------------

/// An update is announced whenever one is wanted, there is a signature and the client can read
/// the disk space, whatever the other settings are; what is announced is the manifest.
pub proof fn law_update_is_announced(c: ConfigView, size: nat, signature: Seq<char>)
    requires
        !c.no_update,
        required_kb(c, size) <= 2147483647,
    ensures
        announcement_bytes(c, size, Some(signature)) == Ok::<Option<Seq<u8>>, ManifestError>(
            Some(encode_utf8(manifest_text(c, required_kb(c, size), signature))),
        ),
{
}

/// Every payload that can be served is announced where an update is wanted, no disk space is
/// given and there is a signature.
pub proof fn law_served_payload_is_announced(c: ConfigView, size: nat, signature: Seq<char>)
    requires
        !c.no_update,
        c.required_kb is None,
        payload_fits(size),
    ensures
        announcement_bytes(c, size, Some(signature)) matches Ok(Some(b)) && manifest_bytes(
            c,
            size,
            signature,
        ) == Ok::<Seq<u8>, ManifestError>(b),
{
}

/// Nothing is announced where no update is wanted or there is no signature. What is announced
/// depends on nothing but the manifest's own settings, and where the manifest cannot be made
/// its fault is reported.
pub proof fn law_announcement_depends_on_the_manifest_alone(
    c: ConfigView,
    d: ConfigView,
    size: nat,
    signature: Seq<char>,
)
    ensures
        announcement_bytes(c, size, None) == Ok::<Option<Seq<u8>>, ManifestError>(None),
        c.no_update ==> announcement_bytes(c, size, Some(signature)) == Ok::<
            Option<Seq<u8>>,
            ManifestError,
        >(None),
        !c.no_update ==> match manifest_bytes(c, size, signature) {
            Ok(b) => announcement_bytes(c, size, Some(signature)) == Ok::<
                Option<Seq<u8>>,
                ManifestError,
            >(Some(b)),
            Err(e) => announcement_bytes(c, size, Some(signature)) == Err::<
                Option<Seq<u8>>,
                ManifestError,
            >(e),
        },
        !c.no_update && announcement_bytes(c, size, Some(signature)) is Ok
            ==> announcement_bytes(c, size, Some(signature))->Ok_0 is Some,
        c.no_update == d.no_update && c.message == d.message && c.version == d.version && c.base_url
            == d.base_url && c.destination == d.destination && c.required_kb == d.required_kb
            ==> announcement_bytes(c, size, Some(signature)) == announcement_bytes(
            d,
            size,
            Some(signature),
        ),
{
}

/// A payload fits where it has at least one byte and at most as many as a signed number of 32
/// bits counts.
pub proof fn law_payload_limits(size: nat)
    ensures
        payload_fits(size) <==> size != 0 && size < 0x8000_0000,
{
}

/// Under a valid configuration the signature comes from the one source that was named, with the
/// file that was named for it, and from none where none was named.
pub proof fn law_source_is_the_one_named(c: ConfigView, path: Seq<char>)
    requires
        valid(c),
    ensures
        source_of(c) == SourceView::PrivateKey(path) <==> c.private_key == Some(path),
        source_of(c) == SourceView::Supplied(path) <==> c.signature == Some(path),
        source_of(c) == SourceView::Diagnostic <==> c.diagnostic,
        source_of(c) == SourceView::Absent <==> c.private_key is None && c.signature is None
            && !c.diagnostic,
{
}

/// A private key comes before a signature, and a signature before the diagnostic one.
pub proof fn law_order_of_sources(c: ConfigView)
    ensures
        c.private_key matches Some(p) ==> source_of(c) == SourceView::PrivateKey(p),
        c.private_key is None ==> (c.signature matches Some(p) ==> source_of(c)
            == SourceView::Supplied(p)),
        c.private_key is None && c.signature is None ==> source_of(c) == (if c.diagnostic {
            SourceView::Diagnostic
        } else {
            SourceView::Absent
        }),
{
}

/// A signature is saved where a file was named for it, and only there; it is one line, and
/// without white space it is the signature. No signature cannot be saved.
pub proof fn law_signature_is_saved_where_it_was_asked(
    c: ConfigView,
    signature: Seq<char>,
    path: Seq<char>,
)
    ensures
        c.signature_out is None ==> saved_file(c, Some(signature)) == Ok::<
            Option<(Seq<char>, Seq<char>)>,
            StartError,
        >(None),
        c.signature_out is None ==> saved_file(c, None) == Ok::<
            Option<(Seq<char>, Seq<char>)>,
            StartError,
        >(None),
        c.signature_out == Some(path) ==> (saved_file(c, Some(signature)) matches Ok(Some(f)) && f.0
            == path && f.1 == signature.push('\n')),
        c.signature_out is Some ==> saved_file(c, None) == Err::<
            Option<(Seq<char>, Seq<char>)>,
            StartError,
        >(StartError::NothingToSave),
{
    reveal_strlit("\n");
    assert(signature + "\n"@ =~= signature.push('\n'));
}

/// A saved signature reads back: the file that holds it, read as a supplied signature is, gives
/// its text and its bytes.
pub proof fn law_saved_file_reads_back(c: ConfigView, s: Signature)
    requires
        s.wf(),
        c.signature_out is Some,
    ensures
        saved_file(c, Some(s.text@)) matches Ok(Some(f)) && without_white_space(f.1) == s.text@
            && base64_bytes(without_white_space(f.1)) == Some(s.bytes@),
{
    law_saved_signature_reads_back(s);
}

/// The program ends after saving where only signing was asked for, which needs a file.
pub proof fn law_signing_only(c: ConfigView)
    ensures
        ending(c) == Ok::<bool, StartError>(true) <==> c.sign_only && c.signature_out is Some,
        ending(c) == Ok::<bool, StartError>(false) <==> !c.sign_only,
        ending(c) is Err ==> ending(c) == Err::<bool, StartError>(
            StartError::SignOnlyWithoutOutput,
        ),
{
}

/// The name of the log tells when the session began and which process it was.
pub proof fn law_log_name_reads_back(stamp: nat, process: nat)
    ensures
        log_name(stamp, process) == glued(
            seq!["session"@, decimal(stamp), decimal(process) + ".jsonl"@],
            seq!['-'],
        ),
        number(decimal(stamp), stamp) == Ok::<nat, NumberError>(stamp),
        number(decimal(process), process) == Ok::<nat, NumberError>(process),
        decimal(stamp).len() > 1 ==> decimal(stamp)[0] != '0',
        decimal(process).len() > 1 ==> decimal(process)[0] != '0',
{
    law_decimal_reads_back(stamp, stamp);
    law_decimal_reads_back(process, process);
    reveal_strlit("session-");
    reveal_strlit("session");
    reveal_strlit("-");
    reveal_with_fuel(glued, 4);
    let parts = seq!["session"@, decimal(stamp), decimal(process) + ".jsonl"@];
    assert(parts.drop_last() =~= seq!["session"@, decimal(stamp)]);
    assert(parts.drop_last().drop_last() =~= seq!["session"@]);
    assert(log_name(stamp, process) =~= "session"@ + seq!['-'] + decimal(stamp) + seq!['-'] + (
    decimal(process) + ".jsonl"@));
    assert(glued(parts, seq!['-']) =~= "session"@ + seq!['-'] + decimal(stamp) + seq!['-'] + (
    decimal(process) + ".jsonl"@));
}

} // verus!
