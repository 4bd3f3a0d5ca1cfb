//! Signatures: RSA-PSS over the Tiger digest of the payload with a salt of no bytes, written in
//! Base64.

use crate::encoding::{
    base64_bytes, base64_decode, base64_encode, base64_len, base64_text, is_base64_char,
    law_base64_reads_back, law_base64_shape,
};
use crate::text::{
    chars_of, is_white_space, law_white_space_is_left_out, remove_white_space, same_bytes, text_of,
    without_white_space,
};
use rsa::pkcs1::{DecodeRsaPrivateKey, DecodeRsaPublicKey};
use rsa::rand_core::OsRng;
use rsa::traits::{PrivateKeyParts, PublicKeyParts};
use rsa::{BigUint, Pss, RsaPrivateKey, RsaPublicKey};
use tiger::{Digest, Tiger};
use vstd::prelude::*;
use vstd::string::*;

verus! {

/// The length of the salt that the client expects.
pub const SALT_LEN: u8 = 0;

/// The length of the signature that stands in when there is none.
pub const DIAGNOSTIC_LEN: usize = 128;

// ---------------------------------------------------------------------------
// Keys
// ---------------------------------------------------------------------------

/// An RSA public key: its numbers in big-endian bytes without leading zeros.
#[derive(Debug)]
pub struct PublicKey {
    pub modulus: Vec<u8>,
    pub exponent: Vec<u8>,
}

/// The contents of a [`PublicKey`].
pub struct PublicKeyView {
    pub modulus: Seq<u8>,
    pub exponent: Seq<u8>,
}

impl View for PublicKey {
    type V = PublicKeyView;

    open spec fn view(&self) -> PublicKeyView {
        PublicKeyView { modulus: self.modulus@, exponent: self.exponent@ }
    }
}

/// An RSA private key with two primes: its numbers in big-endian bytes without leading zeros.
pub struct PrivateKey {
    pub modulus: Vec<u8>,
    pub exponent: Vec<u8>,
    pub private_exponent: Vec<u8>,
    pub prime1: Vec<u8>,
    pub prime2: Vec<u8>,
}

/// The contents of a [`PrivateKey`].
pub struct PrivateKeyView {
    pub modulus: Seq<u8>,
    pub exponent: Seq<u8>,
    pub private_exponent: Seq<u8>,
    pub prime1: Seq<u8>,
    pub prime2: Seq<u8>,
}

impl View for PrivateKey {
    type V = PrivateKeyView;

    open spec fn view(&self) -> PrivateKeyView {
        PrivateKeyView {
            modulus: self.modulus@,
            exponent: self.exponent@,
            private_exponent: self.private_exponent@,
            prime1: self.prime1@,
            prime2: self.prime2@,
        }
    }
}

impl PrivateKeyView {
    /// The public half of the key.
    pub open spec fn public(self) -> PublicKeyView {
        PublicKeyView { modulus: self.modulus, exponent: self.exponent }
    }

    /// The same key with its primes in an order in which the second is not the longer one.
    pub open spec fn ordered(self) -> PrivateKeyView {
        if self.prime1.len() < self.prime2.len() {
            PrivateKeyView { prime1: self.prime2, prime2: self.prime1, ..self }
        } else {
            self
        }
    }
}

/// A number in big-endian bytes without leading zeros, and not zero.
pub open spec fn is_minimal(bytes: Seq<u8>) -> bool {
    bytes.len() > 0 && bytes[0] != 0
}

/// Whether two public keys are the same.
pub fn same_key(a: &PublicKey, b: &PublicKey) -> (r: bool)
    ensures
        r == (a@ == b@),
{
    same_bytes(a.modulus.as_slice(), b.modulus.as_slice()) && same_bytes(
        a.exponent.as_slice(),
        b.exponent.as_slice(),
    )
}

/// The public half of a private key.
pub fn public_half(key: &PrivateKey) -> (r: PublicKey)
    ensures
        r@ == key@.public(),
{
    PublicKey {
        modulus: vstd::slice::slice_to_vec(key.modulus.as_slice()),
        exponent: vstd::slice::slice_to_vec(key.exponent.as_slice()),
    }
}

/// The same key with its primes in an order in which the second is not the longer one.
fn order_primes(key: PrivateKey) -> (r: PrivateKey)
    ensures
        r@ == key@.ordered(),
{
    if key.prime1.len() < key.prime2.len() {
        PrivateKey {
            modulus: key.modulus,
            exponent: key.exponent,
            private_exponent: key.private_exponent,
            prime1: key.prime2,
            prime2: key.prime1,
        }
    } else {
        key
    }
}

// ---------------------------------------------------------------------------
// What the outside crates compute
// ---------------------------------------------------------------------------

/// The errors of `rsa`.
#[verifier::external_type_specification]
#[verifier::external_body]
pub struct ExRsaError(rsa::Error);

/// The errors of `rsa::pkcs1`.
#[verifier::external_type_specification]
#[verifier::external_body]
pub struct ExPkcs1Error(rsa::pkcs1::Error);

/// The Tiger digest of bytes.
pub uninterp spec fn tiger_of(data: Seq<u8>) -> Seq<u8>;

/// The public key that a PKCS#1 document in DER holds, where it holds one.
pub uninterp spec fn public_key_in(der: Seq<u8>) -> Option<PublicKeyView>;

/// The private key that a PKCS#1 document in PEM holds, where it holds one.
pub uninterp spec fn private_key_in(pem: Seq<char>) -> Option<PrivateKeyView>;

/// The RSA-PSS signature of a Tiger digest under a key, with an empty salt; `None` where the
/// key cannot sign.
pub uninterp spec fn pss_signature(key: PrivateKeyView, digest: Seq<u8>) -> Option<Seq<u8>>;

/// Whether `signature` is an RSA-PSS signature of the Tiger digest `digest` under the key, with
/// a salt of `salt_len` bytes.
pub uninterp spec fn pss_accepts(
    key: PublicKeyView,
    salt_len: u8,
    digest: Seq<u8>,
    signature: Seq<u8>,
) -> bool;

/// What the signature of a digest holds with an empty salt: the digest of eight zero bytes and
/// the digest.
pub open spec fn pss_hash(digest: Seq<u8>) -> Seq<u8> {
    tiger_of(Seq::new(8, |i: int| 0u8) + digest)
}

/// Bytes that are all zero, or none.
pub open spec fn is_zeros(bytes: Seq<u8>) -> bool {
    forall|i: int| 0 <= i < bytes.len() ==> bytes[i] == 0
}

/// Calls `Tiger::digest` of `tiger`. The digest is a function of the data and has 24 bytes.
#[verifier::external_body]
fn tiger_digest(data: &[u8]) -> (r: Vec<u8>)
    ensures
        r@ == tiger_of(data@),
        r@.len() == 24,
{
    Tiger::digest(data).to_vec()
}

/// Calls `DecodeRsaPublicKey::from_pkcs1_der` of `rsa` and takes the key's numbers out of it.
/// Whether it succeeds and the numbers are a function of the document. The modulus is not zero,
/// since it is above the exponent, and has at most 4096 bits.
#[verifier::external_body]
fn parse_public_key(der: &[u8]) -> (r: Result<PublicKey, rsa::pkcs1::Error>)
    ensures
        match r {
            Ok(key) => public_key_in(der@) == Some(key@),
            Err(_) => public_key_in(der@) is None,
        },
        r matches Ok(key) ==> is_minimal(key@.modulus) && key@.modulus.len() <= 512,
{
    let key = RsaPublicKey::from_pkcs1_der(der)?;
    Ok(PublicKey { modulus: key.n().to_bytes_be(), exponent: key.e().to_bytes_be() })
}

/// Calls `DecodeRsaPrivateKey::from_pkcs1_pem` of `rsa` and takes the key's numbers out of it;
/// it accepts keys of two primes only. Whether it succeeds and the numbers are a function of
/// the document. The primes are above one, and the modulus is their product. No number in a DER
/// document has more than 0x0fff_ffff bytes.
#[verifier::external_body]
fn parse_private_key(pem: &str) -> (r: Result<PrivateKey, rsa::pkcs1::Error>)
    ensures
        match r {
            Ok(key) => private_key_in(pem@) == Some(key@),
            Err(_) => private_key_in(pem@) is None,
        },
        r matches Ok(key) ==> is_minimal(key@.modulus) && key@.modulus.len() <= 0x0fff_ffff,
        r matches Ok(key) ==> is_minimal(key@.prime1) && is_minimal(key@.prime2),
{
    let key = RsaPrivateKey::from_pkcs1_pem(pem)?;
    Ok(PrivateKey {
        modulus: key.n().to_bytes_be(),
        exponent: key.e().to_bytes_be(),
        private_exponent: key.d().to_bytes_be(),
        prime1: key.primes()[0].to_bytes_be(),
        prime2: key.primes()[1].to_bytes_be(),
    })
}

/// Calls `RsaPrivateKey::sign_with_rng` of `rsa` with the scheme `Pss` over Tiger, on the key
/// rebuilt from its numbers. The random generator fills the salt and serves nothing else, and
/// panics where the system has no randomness to give. With an empty salt nothing is asked of
/// it, so whether the call succeeds and the signature are a function of the key and the digest.
/// A signature has the length of the modulus and is accepted under the public half of the key:
/// `rsa` raises it to the public exponent and compares before it returns it.
///
/// The outside function panics where the mask over the encoded digest, which is shorter than the
/// modulus, has more than 2^32 bytes. It adds the first prime to a number above the negated
/// second prime until the sum is not negative, so the first prime must not be the smaller one
/// by orders of magnitude: with a first byte other than zero and no fewer bytes than the second
/// prime, 256 additions are enough.
#[verifier::external_body]
fn pss_sign(key: &PrivateKey, salt_len: u8, digest: &[u8]) -> (r: Result<Vec<u8>, rsa::Error>)
    requires
        salt_len == 0,
        key@.modulus.len() <= 0xffff_ffff,
        is_minimal(key@.prime1),
        key@.prime2.len() <= key@.prime1.len(),
    ensures
        match r {
            Ok(s) => pss_signature(key@, digest@) == Some(s@),
            Err(_) => pss_signature(key@, digest@) is None,
        },
        r matches Ok(s) ==> is_minimal(key@.modulus) ==> s@.len() == key@.modulus.len(),
        r matches Ok(s) ==> pss_accepts(key@.public(), salt_len, digest@, s@),
{
    let signer = RsaPrivateKey::from_components(
        BigUint::from_bytes_be(&key.modulus),
        BigUint::from_bytes_be(&key.exponent),
        BigUint::from_bytes_be(&key.private_exponent),
        vec![BigUint::from_bytes_be(&key.prime1), BigUint::from_bytes_be(&key.prime2)],
    )?;
    signer.sign_with_rng(&mut OsRng, Pss::new_with_salt::<Tiger>(usize::from(salt_len)), digest)
}

/// Calls `RsaPublicKey::verify` of `rsa` with the scheme `Pss` over Tiger, on the key rebuilt
/// from its numbers without a limit on its size. Whether it succeeds is a function of the key,
/// the salt's length, the digest and the signature. It succeeds only on signatures of the
/// length of the modulus, and never on zeros, whose power does not end as an encoded digest
/// does. With an empty salt the power of an accepted signature holds the Tiger digest of eight
/// zero bytes and `digest`, so two digests for which one signature is accepted agree in that.
///
/// The outside function panics where the mask over the encoded digest, which is shorter than the
/// modulus, has more than 2^32 bytes.
#[verifier::external_body]
fn pss_verify(key: &PublicKey, salt_len: u8, digest: &[u8], signature: &[u8]) -> (r: Result<
    (),
    rsa::Error,
>)
    requires
        key@.modulus.len() <= 0xffff_ffff,
    ensures
        r is Ok <==> pss_accepts(key@, salt_len, digest@, signature@),
        r is Ok && is_minimal(key@.modulus) ==> signature@.len() == key@.modulus.len(),
        r is Ok ==> !is_zeros(signature@),
        r is Ok && salt_len == 0 ==> forall|other: Seq<u8>| #[trigger]
            pss_accepts(key@, salt_len, other, signature@) ==> pss_hash(other) == pss_hash(
                digest@,
            ),
{
    let verifier = RsaPublicKey::new_with_max_size(
        BigUint::from_bytes_be(&key.modulus),
        BigUint::from_bytes_be(&key.exponent),
        usize::MAX,
    )?;
    verifier.verify(Pss::new_with_salt::<Tiger>(usize::from(salt_len)), digest, signature)
}

// ---------------------------------------------------------------------------
// Signatures
// ---------------------------------------------------------------------------

/// Why a payload could not be signed or its signature not be accepted.
#[derive(Debug)]
pub enum SignError {
    /// The private key cannot be read.
    PrivateKey(rsa::pkcs1::Error),
    /// The public key cannot be read.
    PublicKey(rsa::pkcs1::Error),
    /// The signature is no Base64 text.
    Base64(base64::DecodeError),
    /// The key cannot sign, or the signature does not belong to key and payload.
    Signature(rsa::Error),
    /// The public key is not the private key's other half.
    KeyMismatch,
}

/// The kind of a [`SignError`].
pub enum SignFault {
    PrivateKey,
    PublicKey,
    Base64,
    Signature,
    KeyMismatch,
}

impl View for SignError {
    type V = SignFault;

    open spec fn view(&self) -> SignFault {
        match *self {
            SignError::PrivateKey(_) => SignFault::PrivateKey,
            SignError::PublicKey(_) => SignFault::PublicKey,
            SignError::Base64(_) => SignFault::Base64,
            SignError::Signature(_) => SignFault::Signature,
            SignError::KeyMismatch => SignFault::KeyMismatch,
        }
    }
}

/// The kind of fault that a result is, if it is one.
pub open spec fn fault_of<T>(r: Result<T, SignError>) -> Option<SignFault> {
    match r {
        Ok(_) => None,
        Err(e) => Some(e@),
    }
}

/// A signature and its text.
#[derive(Debug)]
pub struct Signature {
    pub bytes: Vec<u8>,
    pub text: String,
}

impl Signature {
    /// The text is the Base64 form of the bytes.
    pub open spec fn wf(&self) -> bool {
        self.text@ == base64_text(self.bytes@)
    }

    fn of_bytes(bytes: Vec<u8>) -> (r: Signature)
        requires
            base64_len(bytes@.len()) <= usize::MAX,
        ensures
            r.wf(),
            r.bytes@ == bytes@,
    {
        let text: String = base64_encode(bytes.as_slice());
        Signature { bytes, text }
    }
}

/// Whether the signature belongs to the payload under the key.
pub open spec fn accepts(key: PublicKeyView, payload: Seq<u8>, signature: Seq<u8>) -> bool {
    pss_accepts(key, SALT_LEN, tiger_of(payload), signature)
}

/// Whether the signature belongs to the payload under the key, and what follows: it has the
/// length of the modulus, is not zeros, and belongs to no other payload unless Tiger collides.
pub open spec fn vouches(key: PublicKeyView, payload: Seq<u8>, signature: Seq<u8>) -> bool {
    &&& accepts(key, payload, signature)
    &&& signature.len() == key.modulus.len()
    &&& signature.len() > 0
    &&& !is_zeros(signature)
    &&& forall|other: Seq<u8>| #[trigger]
        accepts(key, other, signature) ==> pss_hash(tiger_of(other)) == pss_hash(
            tiger_of(payload),
        )
}

/// Why a signature is not accepted for a payload under the key in a document, if it is not.
pub open spec fn verifying_fault(der: Seq<u8>, payload: Seq<u8>, signature: Seq<u8>) -> Option<
    SignFault,
> {
    match public_key_in(der) {
        None => Some(SignFault::PublicKey),
        Some(key) => if accepts(key, payload, signature) {
            None
        } else {
            Some(SignFault::Signature)
        },
    }
}

/// Why a payload cannot be signed with the key in a document, if it cannot.
pub open spec fn signing_fault(pem: Seq<char>, payload: Seq<u8>) -> Option<SignFault> {
    match private_key_in(pem) {
        None => Some(SignFault::PrivateKey),
        Some(k) => match pss_signature(k.ordered(), tiger_of(payload)) {
            None => Some(SignFault::Signature),
            Some(_) => None,
        },
    }
}

/// Why the key in a document is not a given one, if it is not.
pub open spec fn matching_fault(der: Seq<u8>, key: PublicKeyView) -> Option<SignFault> {
    match public_key_in(der) {
        None => Some(SignFault::PublicKey),
        Some(k) => if k == key {
            None
        } else {
            Some(SignFault::KeyMismatch)
        },
    }
}

/// The signature that stands in when there is none.
pub open spec fn diagnostic_bytes() -> Seq<u8> {
    Seq::new(DIAGNOSTIC_LEN as nat, |i: int| 0u8)
}

/// The digest of the payload in hexadecimal.
pub fn fingerprint(payload: &[u8]) -> (r: String)
    ensures
        r@ == crate::text::hex(tiger_of(payload@)),
        r@.len() == 48,
{
    let digest: Vec<u8> = tiger_digest(payload);
    proof {
        crate::text::lemma_hex_len(digest@);
    }
    crate::text::to_hex(digest.as_slice())
}

/// Checks a payload's signature against a public key, a PKCS#1 document in DER. The signature
/// that stands in when there is none is refused under every key.
pub fn verify(public_key: &[u8], payload: &[u8], signature: &[u8]) -> (r: Result<(), SignError>)
    ensures
        match r {
            Ok(_) => public_key_in(public_key@) matches Some(key) && vouches(
                key,
                payload@,
                signature@,
            ),
            Err(SignError::PublicKey(_)) => public_key_in(public_key@) is None,
            Err(SignError::Signature(_)) => public_key_in(public_key@) matches Some(key)
                && !accepts(key, payload@, signature@),
            Err(_) => false,
        },
        signature@ == diagnostic_bytes() ==> r is Err,
        fault_of(r) == verifying_fault(public_key@, payload@, signature@),
{
    match parse_public_key(public_key) {
        Err(e) => Err(SignError::PublicKey(e)),
        Ok(key) => {
            let digest: Vec<u8> = tiger_digest(payload);
            match pss_verify(&key, SALT_LEN, digest.as_slice(), signature) {
                Err(e) => Err(SignError::Signature(e)),
                Ok(_) => {
                    assert(is_zeros(diagnostic_bytes()));
                    Ok(())
                },
            }
        },
    }
}

/// Signs a payload with a private key, a PKCS#1 document in PEM, and checks the signature
/// before handing it out with the public half of the key. Every document that holds that
/// public half accepts the signature.
pub fn sign(private_key: &str, payload: &[u8]) -> (r: Result<(Signature, PublicKey), SignError>)
    ensures
        match r {
            Ok((s, key)) => {
                &&& private_key_in(private_key@) matches Some(k)
                &&& key@ == k.public()
                &&& pss_signature(k.ordered(), tiger_of(payload@)) == Some(s.bytes@)
                &&& s.wf()
                &&& vouches(key@, payload@, s.bytes@)
            },
            Err(SignError::PrivateKey(_)) => private_key_in(private_key@) is None,
            Err(SignError::Signature(_)) => private_key_in(private_key@) matches Some(k)
                && pss_signature(k.ordered(), tiger_of(payload@)) is None,
            Err(_) => false,
        },
        fault_of(r) == signing_fault(private_key@, payload@),
{
    match parse_private_key(private_key) {
        Err(e) => Err(SignError::PrivateKey(e)),
        Ok(read) => {
            let key: PrivateKey = order_primes(read);
            let public: PublicKey = public_half(&key);
            let digest: Vec<u8> = tiger_digest(payload);
            match pss_sign(&key, SALT_LEN, digest.as_slice()) {
                Err(e) => Err(SignError::Signature(e)),
                Ok(bytes) => {
                    match pss_verify(&public, SALT_LEN, digest.as_slice(), bytes.as_slice()) {
                        Err(e) => Err(SignError::Signature(e)),
                        Ok(_) => Ok((Signature::of_bytes(bytes), public)),
                    }
                },
            }
        },
    }
}

/// Checks that a public key, a PKCS#1 document in DER, is the one that a signature was made
/// for.
pub fn match_key(public_key: &[u8], key: &PublicKey) -> (r: Result<(), SignError>)
    ensures
        match r {
            Ok(_) => public_key_in(public_key@) == Some(key@),
            Err(SignError::PublicKey(_)) => public_key_in(public_key@) is None,
            Err(SignError::KeyMismatch) => public_key_in(public_key@) matches Some(k) && k != key@,
            Err(_) => false,
        },
        fault_of(r) == matching_fault(public_key@, key@),
{
    match parse_public_key(public_key) {
        Err(e) => Err(SignError::PublicKey(e)),
        Ok(expected) => {
            if same_key(&expected, key) {
                Ok(())
            } else {
                Err(SignError::KeyMismatch)
            }
        },
    }
}

/// The bytes of a supplied signature; `None` where its text is none.
pub open spec fn supplied_bytes(text: Seq<char>) -> Option<Seq<u8>> {
    base64_bytes(without_white_space(text))
}

/// Reads a signature in Base64, with white space anywhere in it. Its text is what was read
/// without the white space.
pub fn read_signature(text: &str) -> (r: Result<Signature, SignError>)
    ensures
        match r {
            Ok(s) => {
                &&& base64_bytes(without_white_space(text@)) == Some(s.bytes@)
                &&& s.wf()
                &&& s.text@ == without_white_space(text@)
            },
            Err(SignError::Base64(_)) => base64_bytes(without_white_space(text@)) is None,
            Err(_) => false,
        },
        match r {
            Ok(s) => supplied_bytes(text@) == Some(s.bytes@),
            Err(_) => supplied_bytes(text@) is None,
        },
{
    let chars: Vec<char> = chars_of(text);
    let kept: Vec<char> = remove_white_space(chars.as_slice());
    let clean: String = text_of(kept.as_slice());
    match base64_decode(clean.as_str()) {
        Err(e) => Err(SignError::Base64(e)),
        Ok(bytes) => {
            assert(kept.len() == kept@.len());
            proof {
                law_base64_shape(bytes@);
                law_base64_reads_back(bytes@);
            }
            Ok(Signature::of_bytes(bytes))
        },
    }
}

/// The contents of optional borrowed bytes.
pub open spec fn opt_slice(o: Option<&[u8]>) -> Option<Seq<u8>> {
    match o {
        Some(b) => Some(b@),
        None => None,
    }
}

/// The document with which a supplied signature is checked: the one that was named, or else
/// that of the unpatched client.
pub open spec fn checking_key(own_key: Option<Seq<u8>>, original_key: Seq<u8>) -> Seq<u8> {
    match own_key {
        Some(der) => der,
        None => original_key,
    }
}

/// The text of a supplied signature, once it is checked against the key that was named, or
/// else against that of the unpatched client.
pub fn accept_supplied<'a>(
    given: &'a Signature,
    own_key: Option<&[u8]>,
    original_key: &[u8],
    payload: &[u8],
) -> (r: Result<&'a str, SignError>)
    ensures
        match r {
            Ok(t) => t@ == given.text@ && (public_key_in(
                checking_key(opt_slice(own_key), original_key@),
            ) matches Some(key) && vouches(key, payload@, given.bytes@)),
            Err(SignError::PublicKey(_)) => public_key_in(
                checking_key(opt_slice(own_key), original_key@),
            ) is None,
            Err(SignError::Signature(_)) => public_key_in(
                checking_key(opt_slice(own_key), original_key@),
            ) matches Some(key) && !accepts(key, payload@, given.bytes@),
            Err(_) => false,
        },
        given.bytes@ == diagnostic_bytes() ==> r is Err,
        fault_of(r) == verifying_fault(
            checking_key(opt_slice(own_key), original_key@),
            payload@,
            given.bytes@,
        ),
{
    let key: &[u8] = match own_key {
        Some(der) => der,
        None => original_key,
    };
    match verify(key, payload, given.bytes.as_slice()) {
        Err(e) => Err(e),
        Ok(_) => Ok(given.text.as_str()),
    }
}

/// The text of a signature that was made for the public half of a key, once that half is
/// compared with the key that was named, if one was.
pub fn accept_made<'a>(made: &'a Signature, half: &PublicKey, own_key: Option<&[u8]>) -> (r:
    Result<&'a str, SignError>)
    ensures
        match r {
            Ok(t) => t@ == made.text@ && (own_key matches Some(der) ==> public_key_in(der@)
                == Some(half@)),
            Err(SignError::PublicKey(_)) => own_key matches Some(der) && public_key_in(
                der@,
            ) is None,
            Err(SignError::KeyMismatch) => own_key matches Some(der) && (public_key_in(
                der@,
            ) matches Some(k) && k != half@),
            Err(_) => false,
        },
        fault_of(r) == (match own_key {
            Some(der) => matching_fault(der@, half@),
            None => None,
        }),
{
    if let Some(der) = own_key {
        match match_key(der, half) {
            Err(e) => {
                return Err(e);
            },
            Ok(_) => {},
        }
    }
    Ok(made.text.as_str())
}

/// The signature that stands in for a real one: zeros, which the client rejects.
pub fn diagnostic_signature() -> (r: Signature)
    ensures
        r.wf(),
        r.bytes@ == diagnostic_bytes(),
{
    let mut bytes: Vec<u8> = Vec::new();
    while bytes.len() < DIAGNOSTIC_LEN
        invariant
            bytes@.len() <= DIAGNOSTIC_LEN,
            forall|i: int| 0 <= i < bytes@.len() ==> bytes@[i] == 0,
        decreases DIAGNOSTIC_LEN - bytes@.len(),
    {
        bytes.push(0);
    }
    assert(bytes@ =~= diagnostic_bytes());
    Signature::of_bytes(bytes)
}

// ---------------------------------------------------------------------------
// Laws
// ---------------------------------------------------------------------------

/// A saved signature reads back: the text with a line end after it gives the same text and the
/// same bytes.
pub proof fn law_saved_signature_reads_back(s: Signature)
    requires
        s.wf(),
    ensures
        without_white_space(s.text@ + "\n"@) == s.text@,
        base64_bytes(without_white_space(s.text@ + "\n"@)) == Some(s.bytes@),
{
    reveal_strlit("\n");
    law_base64_shape(s.bytes@);
    law_base64_reads_back(s.bytes@);
    let keep = |c: char| !is_white_space(c);
    assert("\n"@ =~= seq!['\n']);
    lemma_keeps_all(s.text@);
    let all = s.text@ + "\n"@;
    assert(all.drop_last() =~= s.text@);
    assert(all.filter(keep) == s.text@.filter(keep)) by {
        reveal(Seq::filter);
    }
}

proof fn lemma_keeps_all(text: Seq<char>)
    requires
        forall|i: int| 0 <= i < text.len() ==> is_base64_char(#[trigger] text[i]),
    ensures
        without_white_space(text) == text,
    decreases text.len(),
{
    let keep = |c: char| !is_white_space(c);
    reveal(Seq::filter);
    if text.len() > 0 {
        lemma_keeps_all(text.drop_last());
        assert(is_base64_char(text[text.len() - 1]));
        assert(text.filter(keep) =~= text);
    } else {
        assert(text.filter(keep) =~= text);
    }
}

/// The text of a nonempty signature is a single token, so it can stand in the manifest.
pub proof fn law_signature_is_token(s: Signature)
    requires
        s.wf(),
        s.bytes@.len() > 0,
    ensures
        crate::config::is_token(s.text@),
{
    law_base64_shape(s.bytes@);
    assert forall|i: int| 0 <= i < s.text@.len() implies '\0' <= #[trigger] s.text@[i] <= '\u{7f}'
        && !crate::text::is_ascii_space(s.text@[i]) && s.text@[i] != '\0' by {
        assert(is_base64_char(s.text@[i]));
    }
}

/// Whether a signature belongs to a payload is whether RSA-PSS over Tiger, with an empty salt,
/// accepts it for the payload's digest.
pub proof fn law_payloads_are_signed_by_their_digest(
    key: PublicKeyView,
    payload: Seq<u8>,
    signature: Seq<u8>,
)
    ensures
        accepts(key, payload, signature) <==> pss_accepts(key, 0, tiger_of(payload), signature),
        vouches(key, payload, signature) ==> accepts(key, payload, signature) && signature.len()
            == key.modulus.len() && signature.len() > 0 && exists|i: int|
            0 <= i < signature.len() && signature[i] != 0,
{
}

/// A signature is accepted just where the document holds a key and RSA-PSS accepts it for the
/// payload's digest under that key, with an empty salt. Where it is not, the fault tells which.
pub proof fn law_what_is_accepted(der: Seq<u8>, payload: Seq<u8>, signature: Seq<u8>)
    ensures
        verifying_fault(der, payload, signature) is None <==> (public_key_in(der) matches Some(key)
            && pss_accepts(key, 0, tiger_of(payload), signature)),
        verifying_fault(der, payload, signature) == Some(SignFault::PublicKey) <==> public_key_in(
            der,
        ) is None,
        verifying_fault(der, payload, signature) matches Some(f) ==> f is PublicKey
            || f is Signature,
{
}

/// A payload is signed just where the document holds a key and that key can sign the payload's
/// digest. Where it is not, the fault tells which.
pub proof fn law_what_is_signed(pem: Seq<char>, payload: Seq<u8>, k: PrivateKeyView)
    requires
        private_key_in(pem) == Some(k),
    ensures
        k.prime1.len() >= k.prime2.len() ==> (signing_fault(pem, payload) is None <==> pss_signature(
            k,
            tiger_of(payload),
        ) is Some),
        k.prime1.len() < k.prime2.len() ==> (signing_fault(pem, payload) is None <==> pss_signature(
            (PrivateKeyView { prime1: k.prime2, prime2: k.prime1, ..k }),
            tiger_of(payload),
        ) is Some),
        signing_fault(pem, payload) matches Some(f) ==> f is Signature,
{
}

/// A document that holds no private key signs nothing.
pub proof fn law_no_key_signs_nothing(pem: Seq<char>, payload: Seq<u8>)
    ensures
        private_key_in(pem) is None <==> signing_fault(pem, payload) == Some(SignFault::PrivateKey),
{
}

/// A named key matches just where both its numbers are those of the other key.
pub proof fn law_what_matches(der: Seq<u8>, key: PublicKeyView)
    ensures
        matching_fault(der, key) is None <==> (public_key_in(der) matches Some(k) && k.modulus
            == key.modulus && k.exponent == key.exponent),
        matching_fault(der, key) == Some(SignFault::PublicKey) <==> public_key_in(der) is None,
        matching_fault(der, key) matches Some(f) ==> f is PublicKey || f is KeyMismatch,
{
}

/// The order of the primes does not make another key: the numbers are the same, and the two
/// primes are the same two. The first is not shorter than the second.
pub proof fn law_ordered_key_is_the_same_key(k: PrivateKeyView)
    ensures
        k.ordered().public() == k.public(),
        k.public().modulus == k.modulus && k.public().exponent == k.exponent,
        k.ordered().private_exponent == k.private_exponent,
        k.ordered().prime1.len() >= k.ordered().prime2.len(),
        (k.ordered().prime1 == k.prime1 && k.ordered().prime2 == k.prime2) || (k.ordered().prime1
            == k.prime2 && k.ordered().prime2 == k.prime1),
        k.prime1.len() >= k.prime2.len() ==> k.ordered() == k,
{
}

/// A key that was named is the one that a supplied signature is checked with, whatever the
/// unpatched client holds; without it the unpatched client's is.
pub proof fn law_named_key_goes_first(own: Seq<u8>, original: Seq<u8>)
    ensures
        checking_key(Some(own), original) == own,
        checking_key(None, original) == original,
{
}

/// The signature that stands in when there is none is as long as one of a key of 1024 bits, and
/// no key vouches for it.
pub proof fn law_nobody_vouches_for_the_diagnostic_signature(
    key: PublicKeyView,
    payload: Seq<u8>,
)
    ensures
        diagnostic_bytes().len() * 8 == 1024,
        forall|i: int| 0 <= i < 128 ==> #[trigger] diagnostic_bytes()[i] == 0,
        !vouches(key, payload, diagnostic_bytes()),
{
    assert(is_zeros(diagnostic_bytes()));
}

/// White space makes no difference to a supplied signature, wherever it stands, and bytes that
/// are written in Base64 are supplied as they were.
pub proof fn law_white_space_makes_no_difference(
    before: Seq<char>,
    c: char,
    after: Seq<char>,
    bytes: Seq<u8>,
)
    requires
        is_white_space(c),
    ensures
        supplied_bytes(before.push(c) + after) == supplied_bytes(before + after),
        supplied_bytes(base64_text(bytes)) == Some(bytes),
        supplied_bytes(before) matches Some(b) ==> base64_text(b) == without_white_space(before),
{
    lemma_white_space_dropped(before, c, after);
    law_base64_shape(bytes);
    law_base64_reads_back(bytes);
    lemma_keeps_all(base64_text(bytes));
}

proof fn lemma_white_space_dropped(before: Seq<char>, c: char, after: Seq<char>)
    requires
        is_white_space(c),
    ensures
        without_white_space(before.push(c) + after) == without_white_space(before + after),
    decreases after.len(),
{
    if after.len() == 0 {
        assert(before.push(c) + after =~= before.push(c));
        assert(before + after =~= before);
        law_white_space_is_left_out(before, c);
    } else {
        lemma_white_space_dropped(before, c, after.drop_last());
        let x = before.push(c) + after.drop_last();
        let y = before + after.drop_last();
        assert(x.push(after.last()) =~= before.push(c) + after);
        assert(y.push(after.last()) =~= before + after);
        law_white_space_is_left_out(x, after.last());
        law_white_space_is_left_out(y, after.last());
    }
}

/// The text of a signature reads back as its bytes.
pub proof fn law_signature_text_reads_back(s: Signature)
    requires
        s.wf(),
    ensures
        base64_bytes(s.text@) == Some(s.bytes@),
{
    law_base64_reads_back(s.bytes@);
}

} // verus!
