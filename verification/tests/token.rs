use token_scanner::token::{byte_is_space, skip_spaces, word_end};

#[test]
fn whitespace_is_the_five_ascii_bytes() {
    for b in 0u8..=255 {
        assert_eq!(byte_is_space(b), b.is_ascii_whitespace());
    }
    assert!(byte_is_space(b' '));
    assert!(byte_is_space(b'\t'));
    assert!(byte_is_space(b'\n'));
    assert!(byte_is_space(0x0c));
    assert!(byte_is_space(b'\r'));
    assert!(!byte_is_space(0x0b));
    assert!(!byte_is_space(0xa0));
}

#[test]
fn skip_spaces_stops_at_the_first_other_byte() {
    let bytes = b"  \t\nab  c";
    assert_eq!(skip_spaces(bytes, 0), 4);
    assert_eq!(skip_spaces(bytes, 2), 4);
    assert_eq!(skip_spaces(bytes, 4), 4);
    assert_eq!(skip_spaces(bytes, 6), 8);
}

#[test]
fn skip_spaces_runs_to_the_end_of_trailing_whitespace() {
    let bytes = b"ab \r\n";
    assert_eq!(skip_spaces(bytes, 2), 5);
    assert_eq!(skip_spaces(bytes, 5), 5);
    assert_eq!(skip_spaces(b"", 0), 0);
}

#[test]
fn word_end_stops_at_the_first_whitespace_or_the_end() {
    let bytes = b"ab  cde";
    assert_eq!(word_end(bytes, 0), 2);
    assert_eq!(word_end(bytes, 1), 2);
    assert_eq!(word_end(bytes, 2), 2);
    assert_eq!(word_end(bytes, 4), 7);
    assert_eq!(word_end(bytes, 7), 7);
    assert_eq!(word_end(b"", 0), 0);
}
