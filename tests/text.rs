use ospine::{escape_nonprintable, hex_preview, to_safe_string, Protocol};

#[test]
fn safe_string_trims_trailing_nuls_only() {
    assert_eq!(to_safe_string(b"abc\0\0"), "abc");
    assert_eq!(to_safe_string(b"a\0b\0"), "a\0b");
    assert_eq!(to_safe_string(b""), "");
}

#[test]
fn safe_string_replaces_invalid_utf8() {
    assert_eq!(to_safe_string(&[0xff, 0x41]), "\u{fffd}A");
    assert_eq!(to_safe_string("h\u{e9}".as_bytes()), "h\u{e9}");
}

#[test]
fn hex_preview_short_and_long() {
    assert_eq!(hex_preview(&[0xab, 0x01]), "hex:ab01");
    assert_eq!(hex_preview(&[]), "hex:");
    let long = vec![0x0fu8; 65];
    let p = hex_preview(&long);
    assert_eq!(p, format!("hex:{}\u{2026}", "0f".repeat(64)));
    let exact = vec![0x10u8; 64];
    assert_eq!(hex_preview(&exact), format!("hex:{}", "10".repeat(64)));
}

#[test]
fn escapes_control_characters() {
    assert_eq!(escape_nonprintable("a\nb\x1b[31m\t\r"), "a\\nb\\x1b[31m\\t\\r");
    assert_eq!(escape_nonprintable("\u{85}\u{7f}\0"), "\\x85\\x7f\\x00");
    assert_eq!(escape_nonprintable("caf\u{e9} \u{2014}"), "caf\u{e9} \u{2014}");
}

#[test]
fn protocol_tags_are_lowercase() {
    assert_eq!(Protocol::Http.as_str(), "http");
    assert_eq!(Protocol::Https.as_str(), "https");
    assert_eq!(Protocol::Ssh.as_str(), "ssh");
    assert_eq!(Protocol::Smtp.as_str(), "smtp");
    assert_eq!(Protocol::Tls.as_str(), "tls");
    assert_eq!(Protocol::Telnet.as_str(), "telnet");
    assert_eq!(Protocol::Dns.as_str(), "dns");
    assert_eq!(Protocol::Mysql.as_str(), "mysql");
    assert_eq!(Protocol::Unknown.as_str(), "unknown");
}

#[test]
fn trim_nuls_only_at_the_end() {
    assert_eq!(ospine::text::trim_nuls("ab\0\0\0"), "ab");
    assert_eq!(ospine::text::trim_nuls("\0a"), "\0a");
    assert_eq!(ospine::text::trim_nuls("\0\0"), "");
}
