use doke::base_parser::Position;
use doke::numbers::{int_chars, parse_decimal, parse_int, IntError};
use doke::text::{chars_of, contains_text, ends_with, is_whitespace, string_of, trim_chars};
use doke::utility::{camel_to_const_case, hash_value, u64_to_base32};

#[test]
fn base32_digits() {
    assert_eq!(u64_to_base32(0), "A");
    assert_eq!(u64_to_base32(1), "B");
    assert_eq!(u64_to_base32(25), "Z");
    assert_eq!(u64_to_base32(26), "2");
    assert_eq!(u64_to_base32(31), "7");
    assert_eq!(u64_to_base32(32), "BA");
    assert_eq!(u64_to_base32(1023), "77");
    assert_eq!(u64_to_base32(u64::MAX), "P777777777777");
}

#[test]
fn constant_case() {
    assert_eq!(camel_to_const_case("DamageEffect"), "DAMAGE_EFFECT");
    assert_eq!(camel_to_const_case("damageEffect"), "DAMAGE_EFFECT");
    assert_eq!(camel_to_const_case("HTTPServer"), "HTTPSERVER");
    assert_eq!(camel_to_const_case("aBc"), "A_BC");
    assert_eq!(camel_to_const_case("ABcD"), "AB_C_D");
    assert_eq!(camel_to_const_case("AbC"), "A_B_C");
    assert_eq!(camel_to_const_case("already_snake"), "ALREADY_SNAKE");
    assert_eq!(camel_to_const_case("élanVital"), "éLAN_VITAL");
    assert_eq!(camel_to_const_case(""), "");
}

#[test]
fn hash_is_the_same_in_every_run() {
    assert_eq!(hash_value("Deals {damage: int}"), hash_value("Deals {damage: int}"));
    assert_ne!(hash_value("a"), hash_value("b"));
    assert_ne!(hash_value(""), 0);
    // the hash of the standard library's default hasher for this text
    let mut hasher = std::collections::hash_map::DefaultHasher::new();
    std::hash::Hash::hash("abc", &mut hasher);
    assert_eq!(hash_value("abc"), std::hash::Hasher::finish(&hasher));
}

#[test]
fn positions_merge() {
    let a = Position { start: 3, end: 7 };
    let b = Position { start: 5, end: 12 };
    assert_eq!(a.merge(&b), Position { start: 3, end: 12 });
    assert_eq!(b.merge(&a), Position { start: 3, end: 12 });
    assert_eq!(a.merge(&a), a);
    assert_eq!(a.merge(&Position { start: 0, end: 1 }), Position { start: 0, end: 7 });
}

#[test]
fn strings_and_characters_convert() {
    let v = chars_of("héllo ✅");
    assert_eq!(v, vec!['h', 'é', 'l', 'l', 'o', ' ', '✅']);
    assert_eq!(string_of(&v), "héllo ✅");
    assert_eq!(string_of(&Vec::new()), "");
}

#[test]
fn white_space_is_trimmed() {
    assert_eq!(string_of(&trim_chars(&chars_of(" \t a b \u{a0}\n"))), "a b");
    assert_eq!(string_of(&trim_chars(&chars_of("\u{3000}"))), "");
    assert_eq!(string_of(&trim_chars(&chars_of("x"))), "x");
    for c in ['\t', '\n', '\u{b}', '\u{c}', '\r', ' ', '\u{85}', '\u{a0}', '\u{1680}', '\u{2000}', '\u{200a}', '\u{2028}', '\u{2029}', '\u{202f}', '\u{205f}', '\u{3000}'] {
        assert!(is_whitespace(c) && c.is_whitespace());
    }
    for c in ['a', '\u{0}', '\u{8}', '\u{e}', '\u{200b}', '\u{feff}', '_'] {
        assert!(!is_whitespace(c) && !c.is_whitespace());
    }
    // the two agree on every character
    let mut n = 0u32;
    while n <= 0x10FFFF {
        if let Some(c) = char::from_u32(n) {
            assert_eq!(is_whitespace(c), c.is_whitespace());
        }
        n += 1;
    }
}

#[test]
fn texts_are_searched() {
    let hay = chars_of("my.dokedef");
    assert!(contains_text(&hay, "doke"));
    assert!(contains_text(&hay, "my.dokedef"));
    assert!(contains_text(&hay, ""));
    assert!(!contains_text(&hay, "Doke"));
    assert!(!contains_text(&hay, "my.dokedefs"));
    assert!(ends_with(&hay, "def"));
    assert!(ends_with(&hay, ""));
    assert!(!ends_with(&hay, "doke"));
    assert!(!ends_with(&chars_of("ef"), "def"));
}

#[test]
fn integers_are_read_and_written() {
    let read = |s: &str| parse_int(&chars_of(s));
    assert_eq!(read("0"), Ok(0));
    assert_eq!(read("-0"), Ok(0));
    assert_eq!(read("007"), Ok(7));
    assert_eq!(read("0B11"), Ok(3));
    assert_eq!(read("+0o777"), Ok(511));
    assert_eq!(read("0x7fffffffffffffff"), Ok(i64::MAX));
    assert_eq!(read("-0x8000000000000000"), Ok(i64::MIN));
    assert_eq!(read("0x8000000000000000"), Err(IntError::OutOfRange));
    assert_eq!(read("0xg"), Err(IntError::Invalid));
    assert_eq!(read("0b"), Err(IntError::Invalid));
    assert_eq!(read("1_000"), Err(IntError::Invalid));
    assert_eq!(read("٣"), Err(IntError::Invalid));
    assert_eq!(parse_decimal(&chars_of("0x10")), Err(IntError::Invalid));
    assert_eq!(parse_decimal(&chars_of("-12")), Ok(-12));
    for i in [0, 7, -7, 10, 1234567890, i64::MAX, i64::MIN, -1] {
        assert_eq!(string_of(&int_chars(i)), i.to_string());
        assert_eq!(read(&i.to_string()), Ok(i));
    }
}
