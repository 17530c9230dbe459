use nut::cli::{
    check_verdict, dump_offset, dump_take, dump_text, random_string, sanitize_byte, sanitize_key,
    validate_path, validate_path_with,
};

#[test]
fn validate_path_accepts_existing() {
    assert_eq!(validate_path(".").ok().as_deref(), Some("."));
    assert_eq!(
        validate_path("definitely/not/a/real/path.db").err().as_deref(),
        Some("Path not exists")
    );
}

#[test]
fn validate_path_with_is_exact() {
    assert_eq!(validate_path_with("x.db", true), Ok("x.db".to_string()));
    assert_eq!(validate_path_with("x.db", false), Err("Path not exists".to_string()));
}

#[test]
fn dump_offset_bounds() {
    assert_eq!(dump_offset(2, 4096, 4 * 4096), Ok(2 * 4096));
    assert_eq!(dump_offset(4, 4096, 4 * 4096), Ok(4 * 4096));
    assert_eq!(dump_offset(5, 4096, 4 * 4096), Err("ID out of bounds".to_string()));
    assert_eq!(dump_offset(u64::MAX, 4096, u64::MAX), Err("ID out of bounds".to_string()));
}

#[test]
fn dump_take_caps_by_limit() {
    assert_eq!(dump_take(4096, 0, None), 4096);
    assert_eq!(dump_take(4096, 2, None), 3 * 4096);
    assert_eq!(dump_take(4096, 2, Some(100)), 100);
    assert_eq!(dump_take(4096, 0, Some(100_000)), 4096);
}

#[test]
fn sanitize_printables_and_dots() {
    assert_eq!(sanitize_byte(b'A'), 'A');
    assert_eq!(sanitize_byte(b' '), ' ');
    assert_eq!(sanitize_byte(0x00), '.');
    assert_eq!(sanitize_byte(0x7f), '.');
    assert_eq!(sanitize_byte(0xff), '.');
    let s: String = sanitize_key(b"a\x00b\tc").into_iter().collect();
    assert_eq!(s, "a.b.c");
}

#[test]
fn check_verdict_colors() {
    assert_eq!(check_verdict(0), Ok("\u{1b}[32mEverything ok\u{1b}[0m".to_string()));
    assert_eq!(check_verdict(3), Err("\u{1b}[31mCheck failed\u{1b}[0m".to_string()));
}

#[test]
fn dump_text_matches_hexdump_lines() {
    let bytes = b"12345\0\r\n\t .abcdef";
    let mut expected = String::new();
    for line in hexdump::hexdump_iter(bytes) {
        expected.push_str(&line);
        expected.push('\n');
    }
    expected.push('\n');
    let got = dump_text(bytes);
    assert_eq!(got, expected);
    // the rendering is a real hexdump, not the input handed back
    assert!(got.starts_with('|'));
    assert!(got.contains("31323334"));
    assert!(got.contains("00000010"));
    // one line per started group of sixteen bytes, one summary, one blank
    assert_eq!(got.lines().count(), (bytes.len() + 15) / 16 + 2);
}

#[test]
fn random_string_has_requested_length() {
    let s = random_string(32);
    assert_eq!(s.len(), 32);
    assert!(s.chars().all(|c| c.is_ascii_alphanumeric()));
    assert_eq!(random_string(0).len(), 0);
}
