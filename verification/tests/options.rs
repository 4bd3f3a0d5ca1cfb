use cod4_patcher::config::{usage, Config, ConfigError, Invocation, Setting, HOST};
use cod4_patcher::text::NumberError;

fn args(list: &[&str]) -> Vec<String> {
    list.iter().map(|a| a.to_string()).collect()
}

fn run(list: &[&str]) -> Config {
    match Config::parse(&args(list)) {
        Ok(Invocation::Run(c)) => c,
        other => panic!("{other:?}"),
    }
}

fn fault(list: &[&str]) -> ConfigError {
    match Config::parse(&args(list)) {
        Err(e) => e,
        other => panic!("{other:?}"),
    }
}

fn fault_of(option: &str, value: &str) -> String {
    fault(&["--file", "f", option, value]).message()
}

#[test]
fn defaults_hold_where_nothing_is_said() {
    let c = run(&["--file", "patch.bin"]);
    assert_eq!(c.file, "patch.bin");
    assert_eq!(c.bind, "0.0.0.0:80");
    assert_eq!(c.base_url, format!("http://{HOST}"));
    assert_eq!(c.base_url, "http://cod4mw-ps3update.charlieoscardelta.com");
    assert_eq!(c.title, "BLUS30072");
    assert_eq!(c.current, "1.3");
    assert_eq!(c.version, "1.4");
    assert_eq!(c.destination, "test.bin");
    assert_eq!(c.message, "An update is available. Do you wish to update now?");
    assert!(!c.sign_only && !c.diagnostic && !c.no_update);
    assert!(c.signature.is_none() && c.private_key.is_none() && c.signature_out.is_none());
    assert!(c.public_key.is_none() && c.required_kb.is_none());
}

#[test]
fn every_option_sets_its_value() {
    let c = run(&[
        "--sign-only", "--no-update", "--file", "a", "--private-key", "c",
        "--signature-out", "d", "--public-key", "e", "--bind", "1.2.3.4:5", "--base-url",
        "http://h//", "--title", "T", "--current", "2.0", "--version", "2.1", "--destination",
        "x/y.bin", "--message", "Hi", "--required-kb", "+12",
    ]);
    assert!(c.sign_only && c.no_update && !c.diagnostic);
    assert_eq!(c.file, "a");
    assert_eq!(c.private_key.as_deref(), Some("c"));
    assert_eq!(c.signature_out.as_deref(), Some("d"));
    assert_eq!(c.public_key.as_deref(), Some("e"));
    assert_eq!(c.bind, "1.2.3.4:5");
    assert_eq!(c.base_url, "http://h");
    assert_eq!(c.title, "T");
    assert_eq!(c.current, "2.0");
    assert_eq!(c.version, "2.1");
    assert_eq!(c.destination, "x/y.bin");
    assert_eq!(c.message, "Hi");
    assert_eq!(c.required_kb, Some(12));
    assert_eq!(run(&["--file", "f", "--signature", "s"]).signature.as_deref(), Some("s"));
    assert!(run(&["--file", "f", "--diagnostic-unsigned"]).diagnostic);
}

#[test]
fn the_last_value_wins() {
    let c = run(&["--file", "a", "--title", "X", "--file", "b", "--title", "Y"]);
    assert_eq!(c.file, "b");
    assert_eq!(c.title, "Y");
}

#[test]
fn the_order_of_options_does_not_matter() {
    let a = run(&["--file", "f", "--title", "T", "--bind", "b"]);
    let b = run(&["--bind", "b", "--title", "T", "--file", "f"]);
    assert_eq!(format!("{a:?}"), format!("{b:?}"));
}

#[test]
fn help_wins_over_what_follows() {
    for list in [
        vec!["--help"],
        vec!["-h", "--nonsense"],
        vec!["--no-update", "--title", "bad token", "-h"],
    ] {
        assert!(matches!(Config::parse(&args(&list)), Ok(Invocation::Help)));
    }
    assert_eq!(run(&["--file", "--help"]).file, "--help");
    assert!(matches!(fault(&["--nonsense", "x", "--help"]), ConfigError::UnknownOption(_)));
}

#[test]
fn the_usage_names_every_option() {
    let text = usage();
    for option in [
        "--file", "--signature", "--private-key", "--public-key", "--signature-out", "--sign-only",
        "--diagnostic-unsigned", "--no-update", "--bind", "--base-url", "--title", "--current",
        "--version", "--destination", "--message", "--required-kb",
    ] {
        assert!(text.contains(option), "{option}");
    }
    assert!(text.starts_with("COD4 patcher HTTP server\n\n--file PATH (required)\n"));
    assert!(text.contains(&format!("[http://{HOST}]\n")));
    assert!(text.ends_with("only transport/no-update mode is available."));
}

#[test]
fn options_without_value_or_meaning_are_refused() {
    assert_eq!(fault(&["--file"]).message(), "Missing value for --file");
    assert_eq!(fault(&["--what"]).message(), "Missing value for --what");
    assert_eq!(fault(&["--what", "x"]).message(), "Unknown option: --what");
    assert_eq!(fault(&["x", "y"]).message(), "Unknown option: x");
    assert!(matches!(fault(&["--file"]), ConfigError::MissingValue(_)));
}

#[test]
fn a_file_is_required() {
    assert!(matches!(fault(&[]), ConfigError::FileMissing));
    assert_eq!(fault(&["--file", ""]).message(), "--file is required; use --help");
}

#[test]
fn the_disk_space_is_a_number() {
    assert!(matches!(
        fault(&["--required-kb", ""]),
        ConfigError::RequiredKb(NumberError::Empty)
    ));
    assert_eq!(fault_of("--required-kb", "1k"), "invalid digit found in string");
    assert_eq!(
        fault_of("--required-kb", "18446744073709551616"),
        "number too large to fit in target type"
    );
    assert_eq!(
        run(&["--file", "f", "--required-kb", "18446744073709551615"]).required_kb,
        Some(u64::MAX)
    );
}

#[test]
fn tokens_are_ascii_without_white_space() {
    assert!(matches!(
        fault(&["--file", "f", "--title", ""]),
        ConfigError::InvalidToken(Setting::Title)
    ));
    for (option, name) in [
        ("--title", "title"),
        ("--current", "current"),
        ("--version", "version"),
        ("--destination", "destination"),
        ("--base-url", "base-url"),
    ] {
        for value in ["", "a b", "a\tb", "a\u{c}", "\0", "\u{e9}"] {
            assert_eq!(
                fault_of(option, value),
                format!("Invalid {name}: must be a nonempty ASCII token")
            );
        }
    }
    assert_eq!(run(&["--file", "f", "--destination", "a\u{b}b"]).destination, "a\u{b}b");
}

#[test]
fn title_and_versions_are_path_tokens() {
    for option in ["--title", "--current", "--version"] {
        for value in ["a/b", ".", "..", "a?b", "a\u{b}"] {
            assert_eq!(fault_of(option, value), "Invalid title/version path token");
        }
        assert!(matches!(
            Config::parse(&args(&["--file", "f", option, "a.B_9-..."])),
            Ok(Invocation::Run(_))
        ));
    }
}

#[test]
fn the_destination_is_a_safe_relative_path() {
    let long = "a".repeat(401);
    for value in ["/a", "a\\b", "a//b", "a/", "./a", "a/../b", "..", &long] {
        assert_eq!(
            fault_of("--destination", value),
            "destination must be a safe relative path, <=400 bytes"
        );
    }
    assert_eq!(run(&["--file", "f", "--destination", &long[1..]]).destination.len(), 400);
    assert_eq!(run(&["--file", "f", "--destination", "a/..b/c"]).destination, "a/..b/c");
    assert_eq!(
        fault_of("--destination", "GAME.VER"),
        "GAME.VER is reserved for the client's version marker"
    );
    assert_eq!(run(&["--file", "f", "--destination", "x/GAME.VER"]).destination, "x/GAME.VER");
}

#[test]
fn the_base_url_is_http() {
    let long = format!("http://{}", "a".repeat(794));
    for value in ["https://h", "HTTP://h", "h", "http:///", &long] {
        assert_eq!(fault_of("--base-url", value), "base-url must be http:// and <=800 bytes");
    }
    assert_eq!(run(&["--file", "f", "--base-url", &long[..800]]).base_url.len(), 800);
}

#[test]
fn the_message_is_one_line() {
    let long = "\u{e9}".repeat(251);
    for value in ["a\nb", "a\rb", "a\0b", "[a]", "a\\nb", &long] {
        assert_eq!(
            fault_of("--message", value),
            "message must be one line, <=500 bytes, without [, NUL or escaped newline"
        );
    }
    assert_eq!(run(&["--file", "f", "--message", &long[2..]]).message.len(), 500);
    assert_eq!(run(&["--file", "f", "--message", ""]).message, "");
    assert_eq!(run(&["--file", "f", "--message", "a\\ n]"]).message, "a\\ n]");
}

#[test]
fn sources_of_the_signature_exclude_each_other() {
    for list in [
        ["--file", "f", "--signature", "s", "--diagnostic-unsigned"].as_slice(),
        ["--file", "f", "--signature", "s", "--private-key", "p"].as_slice(),
        ["--file", "f", "--private-key", "p", "--diagnostic-unsigned"].as_slice(),
    ] {
        assert_eq!(
            fault(list).message(),
            "signature, private-key and diagnostic-unsigned are mutually exclusive"
        );
    }
}

#[test]
fn an_update_brings_another_version() {
    assert_eq!(
        fault_of("--version", "1.3"),
        "new version must differ from current"
    );
    assert!(run(&["--file", "f", "--version", "1.3", "--no-update"]).no_update);
}

#[test]
fn the_first_broken_rule_is_reported() {
    assert!(matches!(
        fault(&["--title", "", "--destination", "/", "--message", "["]),
        ConfigError::FileMissing
    ));
    assert!(matches!(
        fault(&["--file", "f", "--title", "a/b", "--base-url", "a b"]),
        ConfigError::InvalidToken(Setting::BaseUrl)
    ));
    assert!(matches!(
        fault(&["--file", "f", "--title", "a/b", "--destination", "/"]),
        ConfigError::InvalidPathToken
    ));
    assert!(matches!(
        fault(&["--file", "f", "--message", "[", "--version", "1.3"]),
        ConfigError::InvalidMessage
    ));
}
