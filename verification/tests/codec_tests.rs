use opener::codec::{decode, encode, DecodeError};
use opener::payload::Payload;
use opener::text::{ct_eq, str_eq, to_hex};

const NONCE: &str = "ABCDEFGHIJKLMNOPQRSTUVWXYZ012345";

fn payload_of(entries: &[(&str, &str)]) -> Payload {
    let mut p = Payload::new();
    for (k, v) in entries {
        p.insert(k.to_string(), v.to_string());
    }
    p
}

#[test]
fn round_trip_simple() {
    let p = payload_of(&[("cmd", "open")]);
    let line = encode("secret123", NONCE, &p);
    assert!(line.ends_with('\n'));
    let back = decode(&line, "secret123", NONCE).expect("round trip");
    assert_eq!(back.get("cmd").map(String::as_str), Some("open"));
    assert_eq!(back.entries.len(), 1);
}

#[test]
fn round_trip_empty_payload() {
    let p = Payload::new();
    let line = encode("k", NONCE, &p);
    let back = decode(&line, "k", NONCE).expect("round trip");
    assert_eq!(back.entries.len(), 0);
}

#[test]
fn round_trip_several_entries_in_order() {
    let p = payload_of(&[("version", "1"), ("api", "opener"), ("extra", "x")]);
    let line = encode("key", NONCE, &p);
    let back = decode(&line, "key", NONCE).expect("round trip");
    assert_eq!(back.entries.len(), 3);
    assert_eq!(back.entries[0].0, "version");
    assert_eq!(back.entries[1].0, "api");
    assert_eq!(back.entries[2].0, "extra");
    assert_eq!(back.get("api").map(String::as_str), Some("opener"));
}

#[test]
fn round_trip_special_characters() {
    let p = payload_of(&[
        ("quote\"backslash\\", "newline\ncarriage\rreturn"),
        ("colon:comma,", "braces{}and[]"),
        ("unicode", "\u{00e9}\u{4e16}\u{754c}"),
    ]);
    let line = encode("key", NONCE, &p);
    let back = decode(&line, "key", NONCE).expect("round trip");
    assert_eq!(
        back.get("quote\"backslash\\").map(String::as_str),
        Some("newline\ncarriage\rreturn")
    );
    assert_eq!(back.get("colon:comma,").map(String::as_str), Some("braces{}and[]"));
    assert_eq!(back.get("unicode").map(String::as_str), Some("\u{00e9}\u{4e16}\u{754c}"));
}

#[test]
fn wrong_key_fails_as_auth_error() {
    let p = payload_of(&[("cmd", "open")]);
    let line = encode("secret123", NONCE, &p);
    assert!(matches!(decode(&line, "secret124", NONCE), Err(DecodeError::AuthError)));
    assert!(matches!(decode(&line, "", NONCE), Err(DecodeError::AuthError)));
}

#[test]
fn wrong_nonce_fails_as_replay_error() {
    let p = payload_of(&[("cmd", "open")]);
    let line = encode("secret123", NONCE, &p);
    let other = "abcdefghijklmnopqrstuvwxyz543210";
    assert!(matches!(decode(&line, "secret123", other), Err(DecodeError::ReplayError)));
}

#[test]
fn scenario_signature_is_deterministic() {
    let p = payload_of(&[("cmd", "open")]);
    let first = encode("secret123", NONCE, &p);
    let second = encode("secret123", NONCE, &payload_of(&[("cmd", "open")]));
    assert_eq!(first, second);
}

#[test]
fn scenario_same_signature_other_nonce_fails() {
    let p = payload_of(&[("cmd", "open")]);
    let line = encode("secret123", NONCE, &p);
    let other = "abcdefghijklmnopqrstuvwxyz543210";
    // Splice a different nonce into the envelope while keeping the
    // signature: the tag no longer matches what it was computed over.
    let tampered = line.replace(NONCE, other);
    assert_ne!(line, tampered);
    assert!(matches!(decode(&tampered, "secret123", other), Err(DecodeError::AuthError)));
}

#[test]
fn tampered_payload_fails_as_auth_error() {
    let p = payload_of(&[("cmd", "open")]);
    let line = encode("secret123", NONCE, &p);
    let tampered = line.replace("open", "oper");
    assert_ne!(line, tampered);
    assert!(matches!(decode(&tampered, "secret123", NONCE), Err(DecodeError::AuthError)));
}

#[test]
fn malformed_lines_fail_as_parse_error() {
    for line in [
        "",
        "\n",
        "not an envelope",
        "{\"nonce\":\"x\"}",
        "{\"nonce\":\"x\",\"payload\":{},\"signature\":\"y\"} trailing",
        "{\"nonce\":\"x\",\"payload\":{\"a\":1},\"signature\":\"y\"}",
        "{\"nonce\":\"x\",\"payload\":{},\"signature\":\"y\"",
        "{\"payload\":{},\"nonce\":\"x\",\"signature\":\"y\"}",
    ] {
        assert!(matches!(decode(line, "k", "x"), Err(DecodeError::ParseError)), "line: {line:?}");
    }
}

#[test]
fn unknown_escape_fails_as_parse_error() {
    let line = "{\"nonce\":\"\\x\",\"payload\":{},\"signature\":\"y\"}";
    assert!(matches!(decode(line, "k", "x"), Err(DecodeError::ParseError)));
}

#[test]
fn duplicate_keys_fail_as_parse_error() {
    let line = "{\"nonce\":\"x\",\"payload\":{\"a\":\"1\",\"a\":\"2\"},\"signature\":\"y\"}";
    assert!(matches!(decode(line, "k", "x"), Err(DecodeError::ParseError)));
}

#[test]
fn decode_accepts_line_without_terminator() {
    let p = payload_of(&[("cmd", "open")]);
    let line = encode("k", NONCE, &p);
    let trimmed = line.trim_end_matches('\n');
    assert!(decode(trimmed, "k", NONCE).is_ok());
    let crlf = format!("{trimmed}\r\n");
    assert!(decode(&crlf, "k", NONCE).is_ok());
}

#[test]
fn hex_encoding_is_lowercase_two_digits_per_byte() {
    assert_eq!(to_hex(&vec![]), "");
    assert_eq!(to_hex(&vec![0x00, 0xff, 0x1a, 0x0b]), "00ff1a0b");
}

#[test]
fn string_comparisons() {
    assert!(str_eq("abc", "abc"));
    assert!(!str_eq("abc", "abd"));
    assert!(!str_eq("abc", "ab"));
    assert!(ct_eq("same text", "same text"));
    assert!(!ct_eq("same text", "same texx"));
    assert!(!ct_eq("short", "longer"));
}

#[test]
fn payload_get_finds_only_present_keys() {
    let p = payload_of(&[("a", "1"), ("b", "2")]);
    assert_eq!(p.get("a").map(String::as_str), Some("1"));
    assert_eq!(p.get("b").map(String::as_str), Some("2"));
    assert!(p.get("c").is_none());
    assert!(p.get("").is_none());
}
