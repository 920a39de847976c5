//! Little-endian numbers, and text as characters.

use cuprate_core::bytes::{le_u64, u64_le_bytes};
use cuprate_core::text::{
    chars_of, contains, ends_with, find, is_at, is_space, is_text_less, same_text, trim,
};

#[test]
fn numbers_are_little_endian() {
    assert_eq!(u64_le_bytes(0x0102), vec![2, 1, 0, 0, 0, 0, 0, 0]);
    assert_eq!(le_u64(&[2, 1]), 0x0102);
    assert_eq!(le_u64(&[]), 0);
    assert_eq!(le_u64(&[255; 8]), u64::MAX);
    for value in [0, 1, 255, 256, 1 << 40, u64::MAX] {
        assert_eq!(u64_le_bytes(value), value.to_le_bytes());
        assert_eq!(le_u64(&u64_le_bytes(value)), value);
    }
}

#[test]
fn search_finds_what_is_there() {
    for text in ["", "a", "aab", "abcab", "h\u{e9}llo"] {
        for part in ["", "a", "ab", "cab", "\u{e9}l", "abcabc"] {
            assert_eq!(contains(text, part), text.contains(part), "{text} {part}");
            assert_eq!(ends_with(text, part), text.ends_with(part), "{text} {part}");
            assert_eq!(same_text(text, part), text == part, "{text} {part}");
            assert_eq!(is_text_less(text, part), text < part, "{text} {part}");
        }
    }
}

#[test]
fn white_space_is_that_of_unicode() {
    for code in 0..0x11_0000 {
        if let Some(c) = char::from_u32(code) {
            assert_eq!(is_space(c), c.is_whitespace(), "{code:x}");
        }
    }
}

#[test]
fn parts_of_text_are_trimmed_and_found() {
    let chars = chars_of("x \ta b\u{a0}\ny");
    assert_eq!(chars.len(), 9);
    assert_eq!(trim(&chars, 1, 8), (3, 6));
    assert!(is_at(&chars, 3, 6, "a b"));
    assert!(!is_at(&chars, 3, 6, "a c"));
    assert!(!is_at(&chars, 3, 5, "a b"));
    assert_eq!(trim(&chars, 1, 3), (3, 3));
    assert_eq!(find(&chars, 'b', 0, 9), 5);
    assert_eq!(find(&chars, 'b', 6, 8), 8);
}
