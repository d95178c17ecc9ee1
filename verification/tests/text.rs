use chime::names::NameMap;
use chime::text::{blank, char_is_space, from_chars, join, same, to_chars, to_lower, trim};

#[test]
fn white_space_is_that_of_unicode() {
    for c in ('\0'..=char::MAX).filter(|c| *c < '\u{ffff}') {
        assert_eq!(char_is_space(c), c.is_whitespace(), "{c:?}");
    }
}

#[test]
fn trimming_takes_both_ends() {
    for s in ["", " ", "a", " a b\t", "\u{3000}é\u{a0}", "\n\n"] {
        assert_eq!(trim(s), s.trim());
        assert_eq!(trim(&trim(s)), s.trim());
        assert_eq!(blank(s), s.trim().is_empty());
    }
}

#[test]
fn only_ascii_letters_are_lowered() {
    assert_eq!(to_lower("MoN-Ä9"), "mon-Ä9");
}

#[test]
fn texts_are_taken_apart_and_joined() {
    let chars = to_chars("a:é");
    assert_eq!(chars, vec!['a', ':', 'é']);
    assert_eq!(from_chars(&chars, 1, 3), ":é");
    assert!(same("ab", "ab"));
    assert!(!same("ab", "abc"));
    assert!(!same("ab", "aB"));
    let parts = vec!["x".to_string(), "".to_string(), "z".to_string()];
    assert_eq!(join(&parts, ", "), "x, , z");
    assert_eq!(join(&vec![], ", "), "");
}

#[test]
fn names_map_to_one_value_each() {
    let mut map: NameMap<String> = NameMap::new();
    assert_eq!(map.len(), 0);
    map.insert("a".to_string(), "1".to_string());
    map.insert("b".to_string(), "2".to_string());
    map.insert("a".to_string(), "3".to_string());
    assert_eq!(map.len(), 2);
    assert_eq!(map.get("a").map(|v| v.as_str()), Some("3"));
    assert_eq!(map.get("c"), None);
    assert_eq!(map.remove("a"), Some("3".to_string()));
    assert_eq!(map.remove("a"), None);
    assert_eq!(map.get("b").map(|v| v.as_str()), Some("2"));
    assert_eq!(map.len(), 1);
}
