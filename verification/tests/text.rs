use memcache::text::{
    find_byte, parse_decimal, read_line, read_text, split_word, starts_with, write_decimal,
};
use memcache::{MemcacheError, ServerError, TransportError};

#[test]
fn decimal_digits_of_numbers() {
    for (n, digits) in [
        (0u64, "0"),
        (7, "7"),
        (10, "10"),
        (12345, "12345"),
        (4294967295, "4294967295"),
        (u64::MAX, "18446744073709551615"),
    ] {
        let mut out = b"x".to_vec();
        write_decimal(&mut out, n);
        assert_eq!(out, format!("x{}", digits).into_bytes());
        assert_eq!(parse_decimal(digits.as_bytes()), Some(n));
    }
}

#[test]
fn decimal_parsing_refuses_what_is_not_a_number() {
    assert_eq!(parse_decimal(b""), None);
    assert_eq!(parse_decimal(b"-1"), None);
    assert_eq!(parse_decimal(b"+1"), None);
    assert_eq!(parse_decimal(b"12a"), None);
    assert_eq!(parse_decimal(b"a12"), None);
    assert_eq!(parse_decimal(b" 12"), None);
    assert_eq!(parse_decimal(b"1 2"), None);
    assert_eq!(parse_decimal(b"007"), Some(7));
}

#[test]
fn decimal_parsing_refuses_overflow() {
    assert_eq!(parse_decimal(b"18446744073709551615"), Some(u64::MAX));
    assert_eq!(parse_decimal(b"18446744073709551616"), None);
    assert_eq!(parse_decimal(b"99999999999999999999"), None);
    assert_eq!(parse_decimal(b"184467440737095516150"), None);
    assert_eq!(parse_decimal(b"00018446744073709551615"), Some(u64::MAX));
}

#[test]
fn find_byte_gives_the_first_place() {
    assert_eq!(find_byte(b"", b'a'), None);
    assert_eq!(find_byte(b"banana", b'a'), Some(1));
    assert_eq!(find_byte(b"banana", b'b'), Some(0));
    assert_eq!(find_byte(b"banana", b'x'), None);
}

#[test]
fn starts_with_compares_the_front() {
    assert!(starts_with(b"VERSION 1.6", b"VERSION "));
    assert!(starts_with(b"abc", b""));
    assert!(starts_with(b"abc", b"abc"));
    assert!(!starts_with(b"ab", b"abc"));
    assert!(!starts_with(b"xbc", b"abc"));
}

#[test]
fn read_line_cuts_at_the_first_line_end() {
    let (line, used) = read_line(b"STORED\r\nEND\r\n").unwrap();
    assert_eq!(line, b"STORED");
    assert_eq!(used, 8);
    let (line, used) = read_line(b"\r\n").unwrap();
    assert_eq!(line, b"");
    assert_eq!(used, 2);
    // a carriage return inside a line belongs to the line
    let (line, used) = read_line(b"a\rb\r\n").unwrap();
    assert_eq!(line, b"a\rb");
    assert_eq!(used, 5);
}

#[test]
fn read_line_without_line_feed_is_an_early_end() {
    let eof = Some(MemcacheError::IOError(TransportError::UnexpectedEof));
    assert_eq!(read_line(b"").err(), eof);
    assert_eq!(read_line(b"STORED").err(), eof);
    assert_eq!(read_line(b"STORED\r").err(), eof);
}

#[test]
fn read_line_refuses_a_bare_line_feed() {
    let bad = Some(MemcacheError::ServerError(ServerError::BadResponse));
    assert_eq!(read_line(b"\n").err(), bad);
    assert_eq!(read_line(b"STORED\n").err(), bad);
}

#[test]
fn split_word_parts_at_the_first_space() {
    assert_eq!(split_word(b"STAT pid 1"), (&b"STAT"[..], Some(&b"pid 1"[..])));
    assert_eq!(split_word(b"END"), (&b"END"[..], None));
    assert_eq!(split_word(b""), (&b""[..], None));
    assert_eq!(split_word(b"a "), (&b"a"[..], Some(&b""[..])));
    assert_eq!(split_word(b" a"), (&b""[..], Some(&b"a"[..])));
    assert_eq!(split_word(b"a  b"), (&b"a"[..], Some(&b" b"[..])));
}

#[test]
fn read_text_takes_valid_utf8_only() {
    assert_eq!(read_text(b"plain".to_vec()), Some(String::from("plain")));
    assert_eq!(read_text(Vec::new()), Some(String::new()));
    assert_eq!(
        read_text("d\u{e9}j\u{e0} \u{4e2d}\u{6587} \u{1f600}".as_bytes().to_vec()),
        Some(String::from("d\u{e9}j\u{e0} \u{4e2d}\u{6587} \u{1f600}"))
    );
    assert_eq!(read_text(vec![0xff]), None);
    assert_eq!(read_text(vec![0xc3]), None);
    assert_eq!(read_text(vec![0xed, 0xa0, 0x80]), None);
    assert_eq!(read_text(vec![0xc0, 0x80]), None);
}
