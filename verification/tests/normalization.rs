//! Line-ending normalization.

use parsing::normalize::{crlf_to_lf, lf_to_crlf, normalize_crlf};

#[test]
fn normalize_mixed_endings() {
    let input = b"a\r\nb\nc";
    assert_eq!(crlf_to_lf(input), b"a\nb\nc".to_vec());
    assert_eq!(normalize_crlf(input), b"a\r\nb\r\nc".to_vec());
}

#[test]
fn lf_expansion() {
    assert_eq!(lf_to_crlf(b"a\nb"), b"a\r\nb".to_vec());
    assert_eq!(lf_to_crlf(b""), Vec::<u8>::new());
}

#[test]
fn normalization_is_idempotent_on_crlf_text() {
    let canonical = b"GET / HTTP/1.1\r\nA: b\r\n\r\n";
    assert_eq!(normalize_crlf(canonical), canonical.to_vec());
    let twice = normalize_crlf(&normalize_crlf(b"a\nb\r\nc"));
    assert_eq!(twice, normalize_crlf(b"a\nb\r\nc"));
}

#[test]
fn stray_carriage_returns_are_rewritten() {
    // A bare carriage return is not a CRLF pair: the first pass keeps it,
    // the second leaves it untouched.
    assert_eq!(normalize_crlf(b"a\rb"), b"a\rb".to_vec());
    assert_eq!(normalize_crlf(b"a\r\rb"), b"a\r\rb".to_vec());
    assert_eq!(normalize_crlf(b"a\r\r\nb"), b"a\r\r\nb".to_vec());
}
