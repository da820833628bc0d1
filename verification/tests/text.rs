use exprlang::text::classes::{digit_value, is_blank, is_digit, is_letter};
use exprlang::text::decimal::{format_integer, format_unsigned};
use exprlang::text::encoding::{byte_length, char_width};
use exprlang::text::{char_index, SourceText};

#[test]
fn a_character_is_as_wide_as_its_encoding() {
    for c in ['\0', 'a', '\u{7f}', '\u{80}', '\u{e9}', '\u{7ff}', '\u{800}', '\u{4eac}', '\u{ffff}', '\u{10000}', '\u{1f49d}', '\u{10ffff}'] {
        assert_eq!(char_width(c), c.len_utf8());
    }
}

#[test]
fn a_text_is_as_long_as_its_bytes() {
    assert_eq!(byte_length(""), 0);
    assert_eq!(byte_length("abc"), 3);
    assert_eq!(byte_length("\u{e9}t\u{e9}"), 5);
    assert_eq!(byte_length("\u{4eac}\u{1f49d}"), 7);
}

#[test]
fn digits_are_the_ten_decimal_digits() {
    for (value, c) in "0123456789".chars().enumerate() {
        assert!(is_digit(c));
        assert_eq!(digit_value(c), value as i64);
    }
    for c in ['/', ':', 'a', ' ', '\u{0663}', '\u{ff11}'] {
        assert!(!is_digit(c));
    }
}

#[test]
fn classes_are_those_of_the_standard_library() {
    for code in 0u32..0x3100 {
        if let Some(c) = char::from_u32(code) {
            assert_eq!(is_blank(c), c.is_whitespace());
            assert_eq!(is_letter(c), c.is_alphabetic());
        }
    }
    assert!(is_blank(' '));
    assert!(is_blank('\u{a0}'));
    assert!(is_blank('\u{3000}'));
    assert!(!is_blank('+'));
    assert!(is_letter('z'));
    assert!(is_letter('\u{4eac}'));
    assert!(!is_letter('\u{1f49d}'));
    assert!(!is_letter('1'));
}

#[test]
fn integers_are_written_in_decimal() {
    assert_eq!(format_unsigned(0), "0");
    assert_eq!(format_unsigned(7), "7");
    assert_eq!(format_unsigned(10), "10");
    assert_eq!(format_unsigned(1234567890), "1234567890");
    assert_eq!(format_unsigned(u64::MAX), "18446744073709551615");
    assert_eq!(format_integer(0), "0");
    assert_eq!(format_integer(42), "42");
    assert_eq!(format_integer(-1), "-1");
    assert_eq!(format_integer(-907), "-907");
    assert_eq!(format_integer(i64::MAX), "9223372036854775807");
    assert_eq!(format_integer(i64::MIN), "-9223372036854775808");
    for number in [-100i64, -11, -10, -9, 9, 99, 100, 101, 1 << 40] {
        assert_eq!(format_integer(number), number.to_string());
    }
}

#[test]
fn a_byte_offset_lies_in_the_line_that_holds_it() {
    let text = SourceText::new("ab\ncd\n\nefg".to_string());
    assert_eq!(text.line_index(0), 0);
    assert_eq!(text.line_index(1), 0);
    assert_eq!(text.line_index(2), 0);
    assert_eq!(text.line_index(3), 1);
    assert_eq!(text.line_index(5), 1);
    assert_eq!(text.line_index(6), 2);
    assert_eq!(text.line_index(7), 3);
    assert_eq!(text.line_index(9), 3);
    assert_eq!(text.line_index(10), 3);
    assert_eq!(text.line_index(1000), 3);
}

#[test]
fn a_line_is_its_text_without_what_ends_it() {
    let text = SourceText::new("ab\ncd\r\n\nefg".to_string());
    assert_eq!(text.get_line(0), "ab");
    assert_eq!(text.get_line(1), "cd");
    assert_eq!(text.get_line(2), "");
    assert_eq!(text.get_line(3), "efg");
    assert_eq!(text.get_line(4), "");
    assert_eq!(text.get_line(100), "");
    assert_eq!(SourceText::new("a\r".to_string()).get_line(0), "a\r");
    assert_eq!(SourceText::new("\r\nb".to_string()).get_line(0), "");
    assert_eq!(SourceText::new(String::new()).get_line(0), "");
}

#[test]
fn a_line_starts_after_the_line_feed_before_it() {
    let text = SourceText::new("ab\ncd\r\n\nefg".to_string());
    assert_eq!(text.line_start(0), 0);
    assert_eq!(text.line_start(1), 3);
    assert_eq!(text.line_start(2), 7);
    assert_eq!(text.line_start(3), 8);
    assert_eq!(text.line_start(4), 11);
    assert_eq!(text.line_start(100), 11);
}

#[test]
fn lines_are_found_by_bytes_in_text_beyond_ascii() {
    let source = "\u{e9}\u{e9}\n\u{4eac}x\ny";
    let text = SourceText::new(source.to_string());
    assert_eq!(text.line_index(4), 0);
    assert_eq!(text.line_index(5), 1);
    assert_eq!(text.line_index(8), 1);
    assert_eq!(text.line_index(10), 2);
    assert_eq!(text.line_start(1), 5);
    assert_eq!(text.line_start(2), 10);
    assert_eq!(text.get_line(1), "\u{4eac}x");
    assert_eq!(char_index(source, 0), 0);
    assert_eq!(char_index(source, 2), 1);
    assert_eq!(char_index(source, 3), 2);
    assert_eq!(char_index(source, 5), 3);
    assert_eq!(char_index(source, 6), 4);
    assert_eq!(char_index(source, 8), 4);
    assert_eq!(char_index(source, 100), 7);
}
