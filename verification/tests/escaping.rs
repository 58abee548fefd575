use zoog::error::EscapeDecodeError;
use zoog::escaping::{escape_str, unescape_str};

fn is_safe(value: &[u8]) -> bool {
    !value.iter().any(|b| *b == 0 || *b == b'\n' || *b == b'\r')
}

#[test]
fn escape_non_special() {
    let original = b"The quick brown fox jumps over the lazy dog".to_vec();
    assert!(is_safe(&original));

    let escaped = escape_str(&original);
    assert!(is_safe(&escaped));
    assert_eq!(original, escaped);

    let unescaped = unescape_str(&escaped).expect("Unable to unescape string");
    assert_eq!(original, unescaped);
}

#[test]
fn escape_special() {
    let original = vec![0u8, b'\n', b'\r', b'\\'];
    assert!(!is_safe(&original));

    let escaped = escape_str(&original);
    assert!(is_safe(&escaped));
    assert_eq!(escaped, b"\\0\\n\\r\\\\".to_vec());

    let unescaped = unescape_str(&escaped).expect("Unable to reverse escaping");
    assert_eq!(original, unescaped);
}

#[test]
fn escaping_special_by_char() {
    for c in [0u8, b'\n', b'\r', b'\\'] {
        let original = vec![c];

        let escaped = escape_str(&original);
        assert_eq!(escaped.len(), 2);
        assert!(is_safe(&escaped));

        let unescaped = unescape_str(&escaped).expect("Unable to reverse escaping");
        assert_eq!(original, unescaped);
    }
}

#[test]
fn unescape_trailing_backslash() {
    assert_eq!(
        unescape_str(&b"foo\\".to_vec()),
        Err(EscapeDecodeError::TrailingBackslash)
    );
}

#[test]
fn unescape_invalid_escape() {
    assert_eq!(
        unescape_str(&b"foo\\q".to_vec()),
        Err(EscapeDecodeError::InvalidEscape(b'q'))
    );
}

#[test]
fn unescape_plain_is_identity() {
    let input = b"no escapes here".to_vec();
    assert_eq!(unescape_str(&input), Ok(input.clone()));
}

#[test]
fn escape_of_unescaped_minimal_form() {
    let escaped = b"line1\\nline2".to_vec();
    let unescaped = unescape_str(&escaped).expect("well-formed escaped string");
    assert_eq!(unescaped, b"line1\nline2".to_vec());
    assert_eq!(escape_str(&unescaped), escaped);
}
