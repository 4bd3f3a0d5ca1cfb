use cod4_patcher::signing::{
    accept_made, accept_supplied, diagnostic_signature, fingerprint, match_key, read_signature,
    sign, verify, SignError,
};
use cod4_patcher::start::signature_file;
use cod4_patcher::config::Config;
use rsa::pkcs1::{EncodeRsaPrivateKey, EncodeRsaPublicKey, LineEnding};
use rsa::traits::{PrivateKeyParts, PublicKeyParts};
use rsa::{BigUint, Pss, RsaPrivateKey, RsaPublicKey};
use tiger::{Digest, Tiger};

/// A public key of 1024 bits whose private half nobody holds.
const KEY_HEX: &str = "30818902818100ba13bed23734d07a775adaaa9836e8a1474e988042fc1675c94278f27f\
d2ddd656bfce9b85b7298083e0cb462f8b628142335711d26277b225af9eadf5cb4c03b7ab41a3272d5fec9946eb3459\
593a41df8f2b8089430b9d7a3ffe0bac2f5429ad4d7b1dd699c40364ed58e36f3b66072019f6caa3550e585c6862924c\
11eb3b0203010001";

fn key_der() -> Vec<u8> {
    (0..KEY_HEX.len() / 2)
        .map(|i| u8::from_str_radix(&KEY_HEX[2 * i..2 * i + 2], 16).unwrap())
        .collect()
}

fn pem_of(key: &RsaPrivateKey) -> String {
    key.to_pkcs1_pem(LineEnding::LF).unwrap().to_string()
}

fn der_of(key: &RsaPublicKey) -> Vec<u8> {
    key.to_pkcs1_der().unwrap().as_bytes().to_vec()
}

fn small_key() -> RsaPrivateKey {
    RsaPrivateKey::new(&mut rsa::rand_core::OsRng, 512).unwrap()
}

#[test]
fn tiger_known_vector() {
    assert_eq!(
        Tiger::digest(b"abc")
            .iter()
            .map(|b| format!("{b:02x}"))
            .collect::<String>(),
        "2aab1484e8c158f2bfb8c5ff41b57a525129131c957b5f93"
    );
    assert_eq!(
        fingerprint(b"abc"),
        "2aab1484e8c158f2bfb8c5ff41b57a525129131c957b5f93"
    );
}

#[test]
fn original_key_rejects_fake_signature() {
    assert!(verify(&key_der(), b"test", &[0; 128]).is_err());
    assert!(matches!(
        verify(&key_der(), b"test", &[0; 128]),
        Err(SignError::Signature(_))
    ));
}

#[test]
fn pss_zero_salt_roundtrip_and_tamper() {
    let private = RsaPrivateKey::new(&mut rsa::rand_core::OsRng, 1024).unwrap();
    let public = RsaPublicKey::from(&private);
    let digest = Tiger::digest(b"fixture");
    let sig = private
        .sign_with_rng(
            &mut rsa::rand_core::OsRng,
            Pss::new_with_salt::<Tiger>(0),
            &digest,
        )
        .unwrap();
    public
        .verify(Pss::new_with_salt::<Tiger>(0), &digest, &sig)
        .unwrap();
    assert!(public
        .verify(
            Pss::new_with_salt::<Tiger>(0),
            &Tiger::digest(b"changed"),
            &sig
        )
        .is_err());
    assert!(verify(&key_der(), b"fixture", &sig).is_err());

    let (made, half) = sign(&pem_of(&private), b"fixture").unwrap();
    assert_eq!(made.bytes, sig);
    let der = der_of(&public);
    assert!(match_key(&der, &half).is_ok());
    assert!(verify(&der, b"fixture", &made.bytes).is_ok());
    assert!(verify(&der, b"changed", &made.bytes).is_err());
    assert!(verify(&key_der(), b"fixture", &made.bytes).is_err());
}

#[test]
fn signing_twice_gives_the_same_signature() {
    let pem = pem_of(&small_key());
    let (a, _) = sign(&pem, b"payload").unwrap();
    let (b, _) = sign(&pem, b"payload").unwrap();
    let (c, _) = sign(&pem, b"payloae").unwrap();
    assert_eq!(a.bytes, b.bytes);
    assert_eq!(a.text, b.text);
    assert_ne!(a.bytes, c.bytes);
    assert_eq!(a.bytes.len(), 64);
    assert_eq!(a.text.len(), 88);
}

#[test]
fn a_private_key_that_is_none_is_reported() {
    assert!(matches!(sign("no key", b"x"), Err(SignError::PrivateKey(_))));
}

#[test]
fn a_public_key_that_is_none_is_reported() {
    assert!(matches!(verify(b"no key", b"x", &[1]), Err(SignError::PublicKey(_))));
    let (_, half) = sign(&pem_of(&small_key()), b"x").unwrap();
    assert!(matches!(match_key(b"no key", &half), Err(SignError::PublicKey(_))));
}

#[test]
fn a_key_too_small_for_the_digest_cannot_sign() {
    let key = RsaPrivateKey::new(&mut rsa::rand_core::OsRng, 160).unwrap();
    assert!(matches!(sign(&pem_of(&key), b"x"), Err(SignError::Signature(_))));
}

#[test]
fn a_key_with_uneven_primes_signs_in_either_order() {
    let base = small_key();
    let long = base.primes()[0].clone();
    let short = BigUint::from(3u8);
    let n = &long * &short;
    let mut made = Vec::new();
    for primes in [vec![short.clone(), long.clone()], vec![long.clone(), short.clone()]] {
        let key =
            RsaPrivateKey::from_components(n.clone(), base.e().clone(), base.d().clone(), primes)
                .unwrap();
        let (s, half) = sign(&pem_of(&key), b"uneven").unwrap();
        let der = der_of(&RsaPublicKey::from(&key));
        assert!(match_key(&der, &half).is_ok());
        assert!(verify(&der, b"uneven", &s.bytes).is_ok());
        made.push(s.bytes);
    }
    assert_eq!(made[0], made[1]);
}

#[test]
fn only_a_signature_of_the_length_of_the_key_is_accepted() {
    let key = small_key();
    let der = der_of(&RsaPublicKey::from(&key));
    let (made, half) = sign(&pem_of(&key), b"length").unwrap();
    assert_eq!(made.bytes.len(), half.modulus.len());
    let mut longer = vec![0];
    longer.extend_from_slice(&made.bytes);
    assert!(matches!(verify(&der, b"length", &longer), Err(SignError::Signature(_))));
    assert!(matches!(verify(&der, b"length", &made.bytes[1..]), Err(SignError::Signature(_))));
    assert!(matches!(verify(&der, b"length", &[]), Err(SignError::Signature(_))));
    assert!(matches!(verify(&der, b"length", &[0; 64]), Err(SignError::Signature(_))));
}

#[test]
fn a_supplied_signature_is_checked_with_the_named_key_or_the_original_one() {
    let key = small_key();
    let der = der_of(&RsaPublicKey::from(&key));
    let (made, _) = sign(&pem_of(&key), b"supplied").unwrap();
    let given = read_signature(&made.text).unwrap();
    assert_eq!(accept_supplied(&given, Some(&der), &key_der(), b"supplied").unwrap(), made.text);
    assert_eq!(accept_supplied(&given, None, &der, b"supplied").unwrap(), made.text);
    assert!(matches!(
        accept_supplied(&given, None, &key_der(), b"supplied"),
        Err(SignError::Signature(_))
    ));
    assert!(matches!(
        accept_supplied(&given, Some(&der), &key_der(), b"other"),
        Err(SignError::Signature(_))
    ));
    assert!(matches!(
        accept_supplied(&given, Some(b"no key"), &der, b"supplied"),
        Err(SignError::PublicKey(_))
    ));
    let zeros = diagnostic_signature();
    assert!(accept_supplied(&zeros, None, &key_der(), b"supplied").is_err());
}

#[test]
fn a_made_signature_is_compared_with_the_named_key() {
    let key = small_key();
    let der = der_of(&RsaPublicKey::from(&key));
    let (made, half) = sign(&pem_of(&key), b"made").unwrap();
    assert_eq!(accept_made(&made, &half, None).unwrap(), made.text);
    assert_eq!(accept_made(&made, &half, Some(&der)).unwrap(), made.text);
    assert!(matches!(
        accept_made(&made, &half, Some(&key_der())),
        Err(SignError::KeyMismatch)
    ));
    assert!(matches!(
        accept_made(&made, &half, Some(b"no key")),
        Err(SignError::PublicKey(_))
    ));
}

#[test]
fn base64_holds_every_character_and_padding() {
    for text in [
        "",
        "AA==",
        "/w==",
        "AAA=",
        "//8=",
        "ABCDEFGHIJKLMNOPQRSTUVWXYZabcdefghijklmnopqrstuvwxyz0123456789+/",
    ] {
        assert_eq!(read_signature(text).unwrap().text, text);
    }
    let all = read_signature("ABCDEFGHIJKLMNOPQRSTUVWXYZabcdefghijklmnopqrstuvwxyz0123456789+/");
    let bytes = all.unwrap().bytes;
    assert_eq!(bytes.len(), 48);
    assert_eq!(bytes[..6], [0x00, 0x10, 0x83, 0x10, 0x51, 0x87]);
    assert_eq!(bytes[45..], [0xf3, 0xdf, 0xbf]);
    assert_eq!(read_signature("//8=").unwrap().bytes, [255, 255]);
}

#[test]
fn another_public_key_does_not_match() {
    let (_, half) = sign(&pem_of(&small_key()), b"x").unwrap();
    assert!(matches!(match_key(&key_der(), &half), Err(SignError::KeyMismatch)));
}

#[test]
fn the_public_half_holds_the_numbers_of_the_key() {
    let key = small_key();
    let (_, half) = sign(&pem_of(&key), b"x").unwrap();
    assert_eq!(half.exponent, [1, 0, 1]);
    assert_eq!(half.modulus.len(), 64);
    assert!(match_key(&der_of(&RsaPublicKey::from(&key)), &half).is_ok());
}

#[test]
fn a_signature_text_may_hold_white_space() {
    let s = read_signature(" Zm9v\r\nYmFy\u{2003}IQ==\n").unwrap();
    assert_eq!(s.bytes, b"foobar!");
    assert_eq!(s.text, "Zm9vYmFyIQ==");
}

#[test]
fn a_signature_text_must_be_canonical_base64() {
    for text in ["Zm9", "Zm9vIQ", "Zm9vIR==", "Zm9v-w==", "=", "Zm9vZ"] {
        assert!(matches!(read_signature(text), Err(SignError::Base64(_))), "{text}");
    }
    assert_eq!(read_signature("").unwrap().bytes.len(), 0);
}

#[test]
fn the_diagnostic_signature_is_zeros() {
    let s = diagnostic_signature();
    assert_eq!(s.bytes, [0u8; 128]);
    assert_eq!(s.text.len(), 172);
    assert_eq!(s.text, "A".repeat(171) + "=");
    assert!(verify(&key_der(), b"anything", &s.bytes).is_err());
}

#[test]
fn a_saved_signature_reads_back() {
    let (made, _) = sign(&pem_of(&small_key()), b"saved").unwrap();
    let mut c = Config::new();
    c.signature_out = Some("out.b64".to_string());
    let file = signature_file(&c, Some(&made.text)).unwrap().unwrap();
    assert_eq!(file.path, "out.b64");
    assert_eq!(file.text, format!("{}\n", made.text));
    let back = read_signature(&file.text).unwrap();
    assert_eq!(back.bytes, made.bytes);
    assert_eq!(back.text, made.text);
}
