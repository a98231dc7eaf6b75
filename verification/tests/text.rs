use bear_anki_sync::chars::{
    contains, decimal, is_whitespace, join, lines, same_text, text_less, to_ascii_lowercase, trim,
    zero_padded,
};
use bear_anki_sync::digest::short_hash;
use bear_anki_sync::text_map::TextMap;

#[test]
fn white_space_is_that_of_unicode() {
    for code in 0..=0x10FFFFu32 {
        if let Some(c) = char::from_u32(code) {
            assert_eq!(is_whitespace(c), c.is_whitespace(), "U+{code:04X}");
        }
    }
}

#[test]
fn texts_are_trimmed_and_lowered() {
    assert_eq!(trim("\u{a0} a b \n"), "a b");
    assert_eq!(trim("  "), "");
    assert_eq!(to_ascii_lowercase("ÀBC-Z"), "Àbc-z");
}

#[test]
fn lines_are_those_of_the_standard_library() {
    for sample in ["", "a", "a\n", "a\nb", "a\r\nb\r\n", "\n\n", "a\rb\n\r\n", "a\r"] {
        let expected: Vec<String> = sample.lines().map(|l| l.to_owned()).collect();
        assert_eq!(lines(sample), expected, "{sample:?}");
    }
}

#[test]
fn numbers_are_written_in_decimal() {
    assert_eq!(decimal(0), "0");
    assert_eq!(decimal(u64::MAX), u64::MAX.to_string());
    assert_eq!(zero_padded(7, 2), "07");
    assert_eq!(zero_padded(100, 2), "100");
}

#[test]
fn texts_are_compared_by_their_characters() {
    assert!(same_text("é", "é"));
    assert!(!same_text("e", "é"));
    for a in ["", "a", "ab", "b", "é", "\u{ffff}", "\u{10000}"] {
        for b in ["", "a", "ab", "b", "é", "\u{ffff}", "\u{10000}"] {
            assert_eq!(text_less(a, b), a < b, "{a:?} {b:?}");
        }
    }
    assert!(contains("abc", ""));
    assert!(contains("aab", "ab"));
    assert!(!contains("ab", "abc"));
}

#[test]
fn parts_are_joined() {
    assert_eq!(join(&["a".to_owned(), "b".to_owned()], " / "), "a / b");
    assert_eq!(join(&[], ", "), "");
}

#[test]
fn digests_are_sixteen_hexadecimal_digits() {
    assert_eq!(short_hash(b""), "e3b0c44298fc1c14");
    assert_eq!(short_hash(b"abc"), "ba7816bf8f01cfea");
}

#[test]
fn maps_keep_the_order_of_their_keys() {
    let mut map: TextMap<u64> = TextMap::new();
    map.insert("b".to_owned(), 1);
    map.insert("a".to_owned(), 2);
    map.insert("b".to_owned(), 3);
    assert_eq!(map.len(), 2);
    assert_eq!(map.entry(0), ("b", &3));
    assert_eq!(map.entry(1), ("a", &2));
    assert_eq!(map.remove("b"), Some(3));
    assert_eq!(map.remove("b"), None);
    assert_eq!(map.get("a"), Some(&2));
    assert!(!map.contains_key("b"));
}
