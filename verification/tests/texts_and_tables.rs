use lux_lib::table::Table;
use lux_lib::text::{
    chars_of, contains, decimal_text, first_word, has_char, has_text, is_whitespace, join,
    remove_char, replace_char, split_on, split_once, starts_with, trim_end_matches,
    trim_start_matches,
};

const TEXTS: &[&str] = &[
    "", " ", "a", "aa", "aaa", "ab", "ba", "abab", "a b", "  a  b ", "Lua 5.1", "LuaJIT 2.1", ";;x;;",
    "x;y;;z", "a=b=c", "=", "ä ö\u{a0}ü", "\u{2003}x", "1.2.3", "\n\tq\r",
];

#[test]
fn texts_are_handled_like_in_the_standard_library() {
    for s in TEXTS {
        assert_eq!(chars_of(s), s.chars().collect::<Vec<_>>());
        assert_eq!(first_word(s), s.split_whitespace().next().map(|w| w.to_string()), "{s:?}");
        for pat in ["a", "aa", "ab", ";", "Lua", " "] {
            assert_eq!(starts_with(s, pat), s.starts_with(pat), "{s:?} {pat:?}");
            assert_eq!(contains(s, pat), s.contains(pat), "{s:?} {pat:?}");
            assert_eq!(trim_start_matches(s, pat), s.trim_start_matches(pat), "{s:?} {pat:?}");
            assert_eq!(trim_end_matches(s, pat), s.trim_end_matches(pat), "{s:?} {pat:?}");
        }
        assert!(contains(s, ""));
        assert!(starts_with(s, ""));
        for c in ['a', ';', '=', '.', 'ö'] {
            assert_eq!(has_char(s, c), s.contains(c));
            assert_eq!(replace_char(s, c, '/'), s.replace(c, "/"));
            assert_eq!(remove_char(s, c), s.replace(c, ""));
            assert_eq!(split_on(s, c), s.split(c).collect::<Vec<_>>());
            assert_eq!(
                split_once(s, c),
                s.split_once(c).map(|(a, b)| (a.to_string(), b.to_string()))
            );
        }
        let all: Vec<String> = s.split(';').map(|p| p.to_string()).collect();
        assert_eq!(join(&all, ";"), *s);
        assert_eq!(join(&all, ", "), all.join(", "));
        assert_eq!(has_text(&all, "x"), all.iter().any(|p| p == "x"));
    }
}

#[test]
fn white_space_is_that_of_the_standard_library() {
    for n in 0..=0x10ffffu32 {
        if let Some(c) = char::from_u32(n) {
            assert_eq!(is_whitespace(c), c.is_whitespace(), "{n:x}");
        }
    }
}

#[test]
fn numbers_are_written_in_digits() {
    for n in [0, 1, 9, 10, 99, 100, 12345, u32::MAX] {
        assert_eq!(decimal_text(n), n.to_string());
    }
}

#[test]
fn tables_have_one_value_per_key() {
    let mut table: Table<String, i32> = Table::new();
    table.insert("a".into(), 1);
    table.insert("b".into(), 2);
    table.insert("a".into(), 3);
    assert_eq!(table.len(), 2);
    assert_eq!(table.get(&"a".to_string()), Some(&3));
    assert!(table.contains_key(&"b".to_string()));
    assert_eq!(table.entry(0), &("a".to_string(), 3));
    assert_eq!(table.remove(&"a".to_string()), Some(3));
    assert_eq!(table.remove(&"a".to_string()), None);
    let over = Table::from_entries(vec![("b".to_string(), 5), ("c".to_string(), 6)]);
    let merged = table.merge(over);
    assert_eq!(merged.get(&"b".to_string()), Some(&5));
    assert_eq!(merged.get(&"c".to_string()), Some(&6));
    assert_eq!(merged.into_entries().len(), 2);
}
