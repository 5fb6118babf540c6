use std::io::BufRead;

use token_scanner::convert::FromToken;
use token_scanner::scanner::{ScanError, Scanner};

/// Reads the next value the way a program would: whenever the scanner asks
/// for a line, one is read from the source up to and including the next
/// line feed.
fn read<T: FromToken, R: BufRead>(scanner: &mut Scanner<R>) -> Result<T, ScanError> {
    loop {
        match scanner.next::<T>() {
            Err(ScanError::NeedLine) => {
                let mut line = scanner.take_buffer();
                scanner.reader_mut().read_until(b'\n', &mut line).unwrap();
                scanner.refill(line);
            }
            other => return other,
        }
    }
}

fn over(input: &'static str) -> Scanner<&'static [u8]> {
    Scanner::new(input.as_bytes())
}

#[test]
fn new_scanner_has_no_token_and_asks_for_a_line() {
    let mut scanner = Scanner::new(());
    assert_eq!(scanner.next::<u32>(), Err(ScanError::NeedLine));
    assert_eq!(scanner.next::<String>(), Err(ScanError::NeedLine));
}

#[test]
fn new_scanner_does_not_touch_the_source() {
    let mut scanner = over("1 2\n");
    assert_eq!(scanner.next::<u32>(), Err(ScanError::NeedLine));
    assert_eq!(*scanner.reader_mut(), b"1 2\n");
}

#[test]
fn unsigned_then_signed() {
    let mut scanner = over("7 -3\n");
    assert_eq!(read::<usize, _>(&mut scanner), Ok(7));
    assert_eq!(read::<i32, _>(&mut scanner), Ok(-3));
}

#[test]
fn two_fields_and_nothing_more_requested() {
    let mut scanner = over("3 4\n");
    assert_eq!(read::<usize, _>(&mut scanner), Ok(3));
    assert_eq!(read::<i32, _>(&mut scanner), Ok(4));
}

#[test]
fn number_then_word_between_runs_of_spaces() {
    let mut scanner = over("  10   abc  \n");
    assert_eq!(read::<usize, _>(&mut scanner), Ok(10));
    assert_eq!(read::<String, _>(&mut scanner), Ok(String::from("abc")));
}

#[test]
fn word_requested_as_integer_is_a_parse_error() {
    let mut scanner = over("x\n");
    assert_eq!(read::<i32, _>(&mut scanner), Err(ScanError::Parse));
}

#[test]
fn tokens_on_two_lines_stay_two_tokens() {
    let mut scanner = over("12\n34");
    assert_eq!(read::<String, _>(&mut scanner), Ok(String::from("12")));
    assert_eq!(read::<String, _>(&mut scanner), Ok(String::from("34")));
    assert_eq!(read::<String, _>(&mut scanner), Err(ScanError::EndOfInput));
}

#[test]
fn shorter_line_after_longer_line_shows_nothing_of_the_old_one() {
    let mut scanner = over("12345\n67\n");
    assert_eq!(read::<u64, _>(&mut scanner), Ok(12345));
    assert_eq!(read::<u64, _>(&mut scanner), Ok(67));
    assert_eq!(read::<u64, _>(&mut scanner), Err(ScanError::EndOfInput));
}

#[test]
fn refill_replaces_the_line_whatever_was_left_of_it() {
    let mut scanner = Scanner::new(());
    scanner.refill(b"12345 999".to_vec());
    assert_eq!(scanner.next::<u64>(), Ok(12345));
    scanner.refill(b"67".to_vec());
    assert_eq!(scanner.next::<u64>(), Ok(67));
    assert_eq!(scanner.next::<u64>(), Err(ScanError::NeedLine));
}

#[test]
fn mixed_whitespace_yields_the_words_in_order() {
    let mut scanner = over(" \t alpha\tbeta \r\n\n\x0c gamma\n\n   \ndelta");
    let mut words: Vec<String> = Vec::new();
    loop {
        match read::<String, _>(&mut scanner) {
            Ok(word) => words.push(word),
            Err(e) => {
                assert_eq!(e, ScanError::EndOfInput);
                break;
            }
        }
    }
    assert_eq!(words, vec!["alpha", "beta", "gamma", "delta"]);
}

#[test]
fn tokens_of_one_line_come_out_as_raw_bytes() {
    let mut scanner = Scanner::new(());
    scanner.refill(b"\t a\xffb  c ".to_vec());
    assert_eq!(scanner.next::<Vec<u8>>(), Ok(b"a\xffb".to_vec()));
    assert_eq!(scanner.next::<Vec<u8>>(), Ok(b"c".to_vec()));
    assert_eq!(scanner.next::<Vec<u8>>(), Err(ScanError::NeedLine));
}

#[test]
fn vertical_tab_is_part_of_a_token() {
    let mut scanner = Scanner::new(());
    scanner.refill(b"a\x0bb c".to_vec());
    assert_eq!(scanner.next::<Vec<u8>>(), Ok(b"a\x0bb".to_vec()));
    assert_eq!(scanner.next::<Vec<u8>>(), Ok(b"c".to_vec()));
}

#[test]
fn empty_input_is_end_of_input() {
    let mut scanner = over("");
    assert_eq!(read::<u8, _>(&mut scanner), Err(ScanError::EndOfInput));
    assert_eq!(scanner.next::<u8>(), Err(ScanError::EndOfInput));
}

#[test]
fn blank_lines_only_is_end_of_input() {
    let mut scanner = over("\n  \n\t\n");
    assert_eq!(read::<String, _>(&mut scanner), Err(ScanError::EndOfInput));
}

#[test]
fn empty_refill_marks_the_end_and_a_later_line_lifts_it() {
    let mut scanner = Scanner::new(());
    scanner.refill(Vec::new());
    assert_eq!(scanner.next::<i8>(), Err(ScanError::EndOfInput));
    scanner.refill(b"5".to_vec());
    assert_eq!(scanner.next::<i8>(), Ok(5));
    assert_eq!(scanner.next::<i8>(), Err(ScanError::NeedLine));
}

#[test]
fn failed_parse_still_takes_the_token() {
    let mut scanner = Scanner::new(());
    scanner.refill(b"x 5".to_vec());
    assert_eq!(scanner.next::<i32>(), Err(ScanError::Parse));
    assert_eq!(scanner.next::<i32>(), Ok(5));
}

#[test]
fn take_buffer_hands_out_an_empty_buffer_and_drops_the_line() {
    let mut scanner = Scanner::new(());
    scanner.refill(b"1 2 3".to_vec());
    assert_eq!(scanner.next::<u8>(), Ok(1));
    let buffer = scanner.take_buffer();
    assert!(buffer.is_empty());
    assert_eq!(scanner.next::<u8>(), Err(ScanError::NeedLine));
}

#[test]
fn take_buffer_keeps_the_end_mark() {
    let mut scanner = Scanner::new(());
    scanner.refill(Vec::new());
    let buffer = scanner.take_buffer();
    assert!(buffer.is_empty());
    assert_eq!(scanner.next::<u8>(), Err(ScanError::EndOfInput));
}

#[test]
fn text_token_with_multibyte_characters() {
    let mut scanner = over("h\u{e9}llo \u{1f600}\n");
    assert_eq!(read::<String, _>(&mut scanner), Ok(String::from("h\u{e9}llo")));
    assert_eq!(read::<String, _>(&mut scanner), Ok(String::from("\u{1f600}")));
}

#[test]
fn ill_formed_text_token_is_a_parse_error() {
    let mut scanner = Scanner::new(());
    scanner.refill(b"ok \xc3\x28 \xed\xa0\x80 \xc0\x80 \xf4\x90\x80\x80 \xe2\x82 fine".to_vec());
    assert_eq!(scanner.next::<String>(), Ok(String::from("ok")));
    assert_eq!(scanner.next::<String>(), Err(ScanError::Parse));
    assert_eq!(scanner.next::<String>(), Err(ScanError::Parse));
    assert_eq!(scanner.next::<String>(), Err(ScanError::Parse));
    assert_eq!(scanner.next::<String>(), Err(ScanError::Parse));
    assert_eq!(scanner.next::<String>(), Err(ScanError::Parse));
    assert_eq!(scanner.next::<String>(), Ok(String::from("fine")));
}
