use codex_plus_core::number::{decimal_chars, parse_digits, signed_decimal_chars};
use codex_plus_core::table::Table;
use codex_plus_core::text::{control, lower_char, split_words, trim, whitespace};

fn all_chars() -> impl Iterator<Item = char> {
    (0..=0x10ffffu32).filter_map(char::from_u32)
}

#[test]
fn character_classes_are_those_of_the_standard_library() {
    for c in all_chars() {
        assert_eq!(whitespace(c), c.is_whitespace(), "{c:?}");
        assert_eq!(control(c), c.is_control(), "{c:?}");
        assert_eq!(lower_char(c), c.to_ascii_lowercase(), "{c:?}");
    }
}

#[test]
fn words_and_trimming_are_those_of_the_standard_library() {
    for text in ["", " ", "a", " a\u{a0}b\t\nc ", "\u{3000}x y\u{2029}", "a\u{200b}b"] {
        let chars = text.chars().collect::<Vec<_>>();
        let words = split_words(&chars)
            .into_iter()
            .map(|word| word.into_iter().collect::<String>())
            .collect::<Vec<_>>();
        assert_eq!(words, text.split_whitespace().collect::<Vec<_>>());
        assert_eq!(trim(&chars).into_iter().collect::<String>(), text.trim());
    }
}

#[test]
fn numerals_are_written_and_read() {
    let write = |n: u128| decimal_chars(n).into_iter().collect::<String>();
    for n in [0, 7, 10, 909, u64::MAX as u128, u128::MAX] {
        assert_eq!(write(n), n.to_string());
    }
    for n in [0, -1, i64::MIN, i64::MAX] {
        assert_eq!(signed_decimal_chars(n).into_iter().collect::<String>(), n.to_string());
    }
    let read = |s: &str| parse_digits(&s.chars().collect::<Vec<_>>());
    assert_eq!(read("18446744073709551615"), Some(u64::MAX));
    assert_eq!(read("18446744073709551616"), None);
    assert_eq!(read("000123"), Some(123));
}

#[test]
fn tables_keep_one_value_for_each_key() {
    let mut table = Table::new();
    let key = |s: &str| s.to_string();
    table.insert(key("a"), 1);
    table.insert(key("b"), 2);
    table.insert(key("a"), 3);
    assert_eq!(table.entries().len(), 2);
    assert_eq!(table.get(&key("a")), Some(&3));
    assert!(table.contains(&key("b")) && !table.contains(&key("c")));
    table.retain(&vec![key("b"), key("c")]);
    assert_eq!(table.get(&key("a")), None);
    assert_eq!(table.remove(&key("b")), Some(2));
    assert_eq!(table.remove(&key("b")), None);
}
