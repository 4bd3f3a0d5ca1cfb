use cod4_patcher::config::{Config, Invocation};
use cod4_patcher::connection::{Connection, Progress};
use cod4_patcher::reply::State;
use cod4_patcher::request::find_head_end;
use cod4_patcher::signing::{read_signature, sign, verify};
use cod4_patcher::start::announcement;
use rsa::pkcs1::{EncodeRsaPrivateKey, EncodeRsaPublicKey, LineEnding};
use rsa::{RsaPrivateKey, RsaPublicKey};

/// Sends a request and returns what comes back on the wire.
fn fetch(s: &State, endpoint: &str) -> Vec<u8> {
    let text = format!("GET {endpoint} HTTP/1.1\r\nHost: h\r\n\r\n");
    match Connection::new().receive(text.as_bytes(), s) {
        Progress::Answer(_, _, reply) => {
            let mut out = reply.head_text().into_bytes();
            for block in reply.blocks() {
                out.extend_from_slice(block.bytes);
            }
            out
        }
        other => panic!("{other:?}"),
    }
}

fn body_of(wire: &[u8]) -> &[u8] {
    assert!(wire.starts_with(b"HTTP/1.1 200 OK\r\n"));
    &wire[find_head_end(wire).unwrap()..]
}

#[test]
fn an_announced_update_is_accepted() {
    let key = RsaPrivateKey::new(&mut rsa::rand_core::OsRng, 512).unwrap();
    let pem = key.to_pkcs1_pem(LineEnding::LF).unwrap();
    let der = RsaPublicKey::from(&key).to_pkcs1_der().unwrap();
    let args: Vec<String> = ["--file", "f", "--destination", "d/x.bin", "--title", "NPUB1"]
        .iter()
        .map(|a| a.to_string())
        .collect();
    let config = match Config::parse(&args) {
        Ok(Invocation::Run(c)) => c,
        other => panic!("{other:?}"),
    };
    let payload: Vec<u8> = (0..300000u32).map(|i| (i * i % 253) as u8).collect();
    let (made, _) = sign(&pem, &payload).unwrap();
    assert!(!made.text.contains(|c: char| c.is_whitespace() || c == '\0' || !c.is_ascii()));
    let manifest = announcement(&config, payload.len(), Some(&made.text)).unwrap();
    let base = config.base_url.clone();
    let s = State { config, payload: payload.clone(), manifest };

    let wire = fetch(&s, "/NPUB1/1.3/GAME.VER");
    let text = std::str::from_utf8(body_of(&wire)).unwrap();
    let lines: Vec<&str> = text.split('\n').collect();
    assert_eq!(lines[1], "1.4");
    let parts: Vec<&str> = lines[3].split(' ').collect();
    assert_eq!(parts.len(), 3);
    assert_eq!(parts[1], "d/x.bin");
    let found = fetch(&s, parts[0].strip_prefix(base.as_str()).unwrap());
    assert_eq!(body_of(&found), payload);
    let signature = read_signature(parts[2]).unwrap();
    assert!(verify(der.as_bytes(), body_of(&found), &signature.bytes).is_ok());
    assert!(verify(der.as_bytes(), b"something else", &signature.bytes).is_err());
}
