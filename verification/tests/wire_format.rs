use ucp::numeral::{padded_digits, parse_unsigned_bytes, push_digits};
use ucp::rcp::{format_copy_header, is_space_byte, parse_copy_header, raw_read_line, split_words,
    HeaderError};

#[test]
fn octal_mode_is_padded_to_four_digits() {
    assert_eq!(padded_digits(0o644, 8, 4), b"0644".to_vec());
    assert_eq!(padded_digits(0o7, 8, 4), b"0007".to_vec());
    assert_eq!(padded_digits(0o100644, 8, 4), b"100644".to_vec());
    assert_eq!(padded_digits(0, 8, 4), b"0000".to_vec());
}

#[test]
fn decimal_digits_of_numbers() {
    let mut v = Vec::new();
    push_digits(&mut v, 0, 10);
    assert_eq!(v, b"0".to_vec());
    let mut w = b"x".to_vec();
    push_digits(&mut w, 18446744073709551615, 10);
    assert_eq!(w, b"x18446744073709551615".to_vec());
}

#[test]
fn numbers_are_read_as_from_str_radix_reads_them() {
    assert_eq!(parse_unsigned_bytes(b"644", 8, u32::MAX as u64), Some(0o644));
    assert_eq!(parse_unsigned_bytes(b"+17", 10, u64::MAX), Some(17));
    assert_eq!(parse_unsigned_bytes(b"007", 10, u64::MAX), Some(7));
    assert_eq!(parse_unsigned_bytes(b"+", 10, u64::MAX), None);
    assert_eq!(parse_unsigned_bytes(b"", 10, u64::MAX), None);
    assert_eq!(parse_unsigned_bytes(b"-1", 10, u64::MAX), None);
    assert_eq!(parse_unsigned_bytes(b"8", 8, u64::MAX), None);
    assert_eq!(parse_unsigned_bytes(b"4294967295", 10, u32::MAX as u64), Some(4294967295));
    assert_eq!(parse_unsigned_bytes(b"4294967296", 10, u32::MAX as u64), None);
    assert_eq!(parse_unsigned_bytes(b"18446744073709551615", 10, u64::MAX), Some(u64::MAX));
    assert_eq!(parse_unsigned_bytes(b"18446744073709551616", 10, u64::MAX), None);
    for text in ["0", "12", "+5", "99999999999", "0x1", " 1", "1 "] {
        let ours = parse_unsigned_bytes(text.as_bytes(), 10, u64::MAX);
        let std = u64::from_str_radix(text, 10).ok();
        assert_eq!(ours, std, "{}", text);
    }
}

#[test]
fn header_line_is_formatted_like_scp() {
    let line = format_copy_header(0o644, 1234, b"notes.txt");
    assert_eq!(line, b"C0644 1234 notes.txt\n".to_vec());
    let line = format_copy_header(0o100755, 0, b"run");
    assert_eq!(line, b"C100755 0 run\n".to_vec());
}

#[test]
fn header_line_is_read_back() {
    let h = parse_copy_header(b"0644 1234 notes.txt").unwrap();
    assert_eq!(h.mode, 0o644);
    assert_eq!(h.length, 1234);
    assert_eq!(h.name, b"notes.txt".to_vec());
    let h = parse_copy_header(b"  100755\t0  run\r").unwrap();
    assert_eq!(h.mode, 0o100755);
    assert_eq!(h.length, 0);
    assert_eq!(h.name, b"run".to_vec());
}

#[test]
fn formatted_header_round_trips() {
    for (mode, len, name) in [(0o644u32, 5usize, &b"a"[..]), (0o4755, 123456789, b"some-file.bin"), (u32::MAX, usize::MAX, b"x")] {
        let line = format_copy_header(mode, len, name);
        let h = parse_copy_header(&line[1..line.len() - 1]).unwrap();
        assert_eq!((h.mode, h.length, h.name), (mode, len, name.to_vec()));
    }
}

#[test]
fn header_errors() {
    assert_eq!(parse_copy_header(b"0644 12").unwrap_err(), HeaderError::FieldCount(2));
    assert_eq!(parse_copy_header(b"0644 12 a b").unwrap_err(), HeaderError::FieldCount(4));
    assert_eq!(parse_copy_header(b"").unwrap_err(), HeaderError::FieldCount(0));
    assert_eq!(parse_copy_header(b"0648 12 a").unwrap_err(), HeaderError::BadMode);
    assert_eq!(parse_copy_header(b"77777777777 12 a").unwrap_err(), HeaderError::BadMode);
    assert_eq!(parse_copy_header(b"0644 -3 a").unwrap_err(), HeaderError::BadLength);
}

#[test]
fn white_space_is_that_of_latin1_characters() {
    for b in 0u8..=255 {
        assert_eq!(is_space_byte(b), (b as char).is_whitespace(), "{}", b);
    }
    let w = split_words(b"a\xa0b\x85c  d");
    assert_eq!(w, vec![b"a".to_vec(), b"b".to_vec(), b"c".to_vec(), b"d".to_vec()]);
    let w = split_words(b"   ");
    assert!(w.is_empty());
}

#[test]
fn a_line_is_read_up_to_its_terminator() {
    assert_eq!(raw_read_line(b"abc\ndef"), Some(("abc".to_string(), 4)));
    assert_eq!(raw_read_line(b"\n"), Some((String::new(), 1)));
    assert_eq!(raw_read_line(b"abc"), None);
    assert_eq!(raw_read_line(b""), None);
    assert_eq!(raw_read_line(b"caf\xe9\n"), Some(("caf\u{e9}".to_string(), 5)));
}
