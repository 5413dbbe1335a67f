use itzon::letters::control;
use itzon::letters::to_decimal;
use itzon::letters::to_hex16;
use itzon::letters::to_lowercase;
use itzon::letters::to_uppercase;
use itzon::text::split;
use itzon::text::split_once;
use itzon::text::split_whitespace;
use itzon::text::trim;
use itzon::text::CharClass;
use itzon::text_map::before;
use itzon::text_map::TextMap;

#[test]
fn classes_of_characters_are_those_of_the_standard_library() {
    for code in 0..=0x10ffffu32 {
        if let Some(c) = char::from_u32(code) {
            assert_eq!(CharClass::WhiteSpace.holds(c), c.is_whitespace());
            assert_eq!(control(c), c.is_control());
        }
    }
}

#[test]
fn case_is_changed_beyond_ascii() {
    assert_eq!(to_lowercase("\u{c0}B\u{3a3}"), "\u{e0}b\u{3c2}");
    assert_eq!(to_lowercase("ABC_1"), "abc_1");
    assert_eq!(to_uppercase("stra\u{df}e"), "STRASSE");
    assert_eq!(to_uppercase("privmsg"), "PRIVMSG");
}

#[test]
fn numbers_are_written() {
    assert_eq!(to_decimal(0), "0");
    assert_eq!(to_decimal(1090), "1090");
    assert_eq!(to_decimal(u64::MAX), "18446744073709551615");
    assert_eq!(to_hex16(0), "0000000000000000");
    assert_eq!(to_hex16(0x0123_4567_89ab_cdef), "0123456789abcdef");
}

#[test]
fn text_is_taken_apart_as_by_the_standard_library() {
    for text in ["", " ", "a", " a b ", "a;b;;c", ";", "\u{3000}x\ty\r\n", "a=b=c"] {
        assert_eq!(trim(text), text.trim());
        assert_eq!(
            split(text, &CharClass::Only(';')),
            text.split(';').collect::<Vec<_>>()
        );
        assert_eq!(
            split(text, &CharClass::LineBreak),
            text.split(['\r', '\n']).collect::<Vec<_>>()
        );
        assert_eq!(
            split_whitespace(text),
            text.split_whitespace().collect::<Vec<_>>()
        );
        assert_eq!(split_once(text, &CharClass::Only('=')), text.split_once('='));
    }
}

#[test]
fn text_is_ordered_as_by_the_standard_library() {
    let texts = ["", "a", "ab", "b", "B", "\u{fc}", "\u{ffff}", "\u{10000}"];
    for a in texts {
        for b in texts {
            assert_eq!(before(a, b), a < b);
        }
    }
}

#[test]
fn maps_keep_one_value_for_each_name() {
    let mut map = TextMap::new();
    map.insert("b".to_string(), "1".to_string());
    map.insert("a".to_string(), "2".to_string());
    map.insert("b".to_string(), "3".to_string());
    assert_eq!(map.len(), 2);
    assert_eq!(map.key_at(0), "a");
    assert_eq!(map.value_at(1), "3");
    assert_eq!(map.get("b").map(String::as_str), Some("3"));
    assert_eq!(map.remove("b").as_deref(), Some("3"));
    assert!(!map.contains_key("b"));
    assert_eq!(map.remove("b"), None);
    assert_eq!(map.copy().len(), 1);
}
