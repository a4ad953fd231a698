use garbage_bot::order::{comes_before, insert_in_order, join};
use garbage_bot::tables::{TextMap, TextSet};
use garbage_bot::text::{
    after_prefix, chars_of, ends_in, has_char, has_part, same_text, split_once, text_between, trim, white,
};

#[test]
fn texts_are_taken_apart() {
    let chars = chars_of("grüße");
    assert_eq!(chars, vec!['g', 'r', 'ü', 'ß', 'e']);
    assert_eq!(text_between(&chars, 1, 4), "rüß");
    assert_eq!(text_between(&chars, 2, 2), "");
}

#[test]
fn texts_are_searched() {
    assert!(same_text("ü", "ü"));
    assert!(!same_text("ü", "u"));
    assert!(has_part("10115 Berlin", "10115"));
    assert!(has_part("10115 Berlin", ""));
    assert!(has_part("aaab", "aab"));
    assert!(!has_part("1011", "10115"));
    assert!(ends_in("a.toml", ".toml"));
    assert!(!ends_in("toml", ".toml"));
    assert!(has_char("5.01", '.'));
    assert!(!has_char("501", '.'));
    assert_eq!(after_prefix("!reset-trust @a:b", "!reset-trust ").as_deref(), Some("@a:b"));
    assert_eq!(after_prefix("!reset", "!reset-trust "), None);
}

#[test]
fn texts_split_at_the_first_separator() {
    assert_eq!(split_once("a:b:c", ':'), Some(("a".to_string(), "b:c".to_string())));
    assert_eq!(split_once(":", ':'), Some((String::new(), String::new())));
    assert_eq!(split_once("abc", ':'), None);
}

#[test]
fn white_space_is_what_std_calls_so() {
    for code in 0..0x11_0000u32 {
        if let Some(c) = char::from_u32(code) {
            assert_eq!(white(c), c.is_whitespace(), "{code:x}");
        }
    }
    for text in ["", "  ", " a b ", "\t\u{3000}x\n", "\u{200b}x\u{200b}"] {
        assert_eq!(trim(text), text.trim());
    }
}

#[test]
fn texts_are_ordered_as_std_orders_them() {
    let texts = ["", "a", "A", "ab", "b", "ä", "🗑", "z", "\u{ffff}"];
    for a in texts {
        for b in texts {
            assert_eq!(comes_before(a, b), a < b, "{a} {b}");
        }
    }
}

#[test]
fn texts_are_inserted_once() {
    let mut texts: Vec<String> = Vec::new();
    assert!(insert_in_order(&mut texts, "b".to_string()));
    assert!(insert_in_order(&mut texts, "a".to_string()));
    assert!(insert_in_order(&mut texts, "c".to_string()));
    assert!(!insert_in_order(&mut texts, "b".to_string()));
    assert_eq!(join(&texts, ", "), "a, b, c");
    assert_eq!(join(&Vec::new(), ", "), "");
}

#[test]
fn tables_hold_the_latest_value() {
    let mut map = TextMap::new();
    assert_eq!(map.get("BI"), None);
    map.insert("BI".to_string(), "Bio".to_string());
    map.insert("BI".to_string(), "Biogut".to_string());
    assert_eq!(map.get("BI").as_deref(), Some("Biogut"));
}

#[test]
fn sets_forget_what_is_removed() {
    let mut set = TextSet::new();
    assert!(set.is_empty());
    set.insert("@a:b".to_string());
    assert!(!set.is_empty());
    assert!(set.contains("@a:b"));
    assert!(set.remove("@a:b"));
    assert!(!set.remove("@a:b"));
    assert!(set.is_empty());
}
