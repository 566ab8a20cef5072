use plugin_registry::handshake::{is_space_char, parse_handshake};

#[test]
fn parses_name_and_version() {
    let r = parse_handshake("echo-plugin|1.0.0");
    assert_eq!(r, Some(("echo-plugin".to_string(), "1.0.0".to_string())));
}

#[test]
fn trims_both_parts() {
    let r = parse_handshake("  my_plugin |\t1.0.0\n");
    assert_eq!(r, Some(("my_plugin".to_string(), "1.0.0".to_string())));
}

#[test]
fn trims_unicode_white_space() {
    let r = parse_handshake("\u{3000}name\u{a0}|\u{2003}2.1");
    assert_eq!(r, Some(("name".to_string(), "2.1".to_string())));
}

#[test]
fn version_stops_at_next_bar() {
    let r = parse_handshake("a|b|c");
    assert_eq!(r, Some(("a".to_string(), "b".to_string())));
}

#[test]
fn empty_parts_are_kept_empty() {
    let r = parse_handshake("|");
    assert_eq!(r, Some((String::new(), String::new())));
}

#[test]
fn missing_bar_is_invalid() {
    assert_eq!(parse_handshake("echo-plugin 1.0.0"), None);
    assert_eq!(parse_handshake(""), None);
}

#[test]
fn non_ascii_name() {
    let r = parse_handshake("plügin|ß");
    assert_eq!(r, Some(("plügin".to_string(), "ß".to_string())));
}

#[test]
fn white_space_matches_std() {
    for u in 0u32..0x3100 {
        if let Some(c) = char::from_u32(u) {
            assert_eq!(is_space_char(c), c.is_whitespace(), "code point {:x}", u);
        }
    }
}
