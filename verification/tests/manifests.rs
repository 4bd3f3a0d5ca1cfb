use cod4_patcher::config::Config;
use cod4_patcher::manifest::{manifest, ManifestError};
use cod4_patcher::start::{
    announcement, check_payload, ends_after_saving, log_file_name, signature_file,
    signature_source, SignatureSource, StartError,
};

#[test]
fn the_manifest_is_written_out() {
    let c = Config::new();
    assert_eq!(
        manifest(&c, 1025, "c2ln").unwrap(),
        b"An update is available. Do you wish to update now?\n1.4\n4100\n\
          http://cod4mw-ps3update.charlieoscardelta.com/payload.bin test.bin c2ln\n\0"
    );
}

#[test]
fn the_space_is_estimated_from_the_size() {
    let c = Config::new();
    for (size, kb) in [(1, "4098"), (1024, "4098"), (1025, "4100"), (0x7fff_ffff, "4198400")] {
        let text = String::from_utf8(manifest(&c, size, "s").unwrap()).unwrap();
        assert_eq!(text.split('\n').nth(2), Some(kb));
    }
}

#[test]
fn the_space_can_be_given() {
    let mut c = Config::new();
    c.required_kb = Some(0x7fff_ffff);
    let text = String::from_utf8(manifest(&c, 1, "s").unwrap()).unwrap();
    assert_eq!(text.split('\n').nth(2), Some("2147483647"));
    c.required_kb = Some(0x8000_0000);
    assert_eq!(manifest(&c, 1, "s"), Err(ManifestError::RequiredKbTooLarge));
    assert_eq!(
        ManifestError::RequiredKbTooLarge.message(),
        "required-kb exceeds the client's signed integer range"
    );
    assert_eq!(announcement(&c, 1, Some("s")), Err(ManifestError::RequiredKbTooLarge));
    assert_eq!(announcement(&c, 1, None), Ok(None));
}

#[test]
fn the_manifest_reads_back() {
    let mut c = Config::new();
    c.message = "Gr\u{fc}\u{df}e".to_string();
    c.destination = "dir/file.bin".to_string();
    let text = String::from_utf8(manifest(&c, 5, "QUJD").unwrap()).unwrap();
    let lines: Vec<&str> = text.split('\n').collect();
    assert_eq!(lines.len(), 5);
    assert_eq!(lines[0], "Gr\u{fc}\u{df}e");
    assert_eq!(lines[1], "1.4");
    assert_eq!(lines[2].parse(), Ok(4098));
    let parts: Vec<&str> = lines[3].split(' ').collect();
    assert_eq!(parts, [format!("{}/payload.bin", c.base_url).as_str(), "dir/file.bin", "QUJD"]);
    assert_eq!(lines[4], "\0");
    assert_eq!(text.matches('\0').count(), 1);
}

#[test]
fn the_announcement_is_the_manifest() {
    let c = Config::new();
    assert_eq!(
        announcement(&c, 9, Some("sig")).unwrap(),
        Some(manifest(&c, 9, "sig").unwrap())
    );
}

#[test]
fn the_payload_has_limits() {
    assert_eq!(check_payload(0), Err(StartError::PayloadSize));
    assert_eq!(check_payload(1), Ok(()));
    assert_eq!(check_payload(0x7fff_ffff), Ok(()));
    assert_eq!(check_payload(0x8000_0000), Err(StartError::PayloadSize));
    assert_eq!(
        StartError::PayloadSize.message(),
        "payload must be nonempty and <=2 GiB-1; PS3 RAM imposes a much lower practical limit"
    );
}

#[test]
fn the_source_of_the_signature_is_chosen() {
    let mut c = Config::new();
    assert!(matches!(signature_source(&c), SignatureSource::Absent));
    c.diagnostic = true;
    assert!(matches!(signature_source(&c), SignatureSource::Diagnostic));
    c.signature = Some("s".to_string());
    assert!(matches!(signature_source(&c), SignatureSource::Supplied("s")));
    c.private_key = Some("p".to_string());
    assert!(matches!(signature_source(&c), SignatureSource::PrivateKey("p")));
}

#[test]
fn only_a_signature_can_be_saved() {
    let mut c = Config::new();
    assert!(signature_file(&c, None).unwrap().is_none());
    assert!(signature_file(&c, Some("s")).unwrap().is_none());
    c.signature_out = Some("o".to_string());
    assert!(matches!(signature_file(&c, None), Err(StartError::NothingToSave)));
    assert_eq!(
        StartError::NothingToSave.message(),
        "signature-out requires signature or private-key"
    );
}

#[test]
fn signing_only_needs_a_file() {
    let mut c = Config::new();
    assert_eq!(ends_after_saving(&c), Ok(false));
    c.sign_only = true;
    assert_eq!(ends_after_saving(&c), Err(StartError::SignOnlyWithoutOutput));
    assert_eq!(
        StartError::SignOnlyWithoutOutput.message(),
        "sign-only requires signature-out"
    );
    c.signature_out = Some("o".to_string());
    assert_eq!(ends_after_saving(&c), Ok(true));
}

#[test]
fn the_log_is_named_after_the_session() {
    assert_eq!(log_file_name(1700000000123, 42), "session-1700000000123-42.jsonl");
    assert_eq!(
        log_file_name(u128::MAX, 0),
        "session-340282366920938463463374607431768211455-0.jsonl"
    );
}
