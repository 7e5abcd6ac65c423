//! Text helpers and the registry.

use lan_chat::registry::Registry;
use lan_chat::text::{decimal, joined, same_text, split_last_dot, strip_prefix, trim, white_space};

#[test]
fn trimming_removes_white_space_at_both_ends() {
    assert_eq!(trim("  alpha-cafe-7 \t\r\n"), "alpha-cafe-7");
    assert_eq!(trim("a b"), "a b");
    assert_eq!(trim(" \u{a0}\u{2003}\u{3000}"), "");
    assert_eq!(trim(""), "");
    assert_eq!(trim("\u{85}é\u{2028}"), "é");
}

#[test]
fn white_space_is_that_of_the_standard_library() {
    for v in 0..0x11_0000u32 {
        if let Some(c) = char::from_u32(v) {
            assert_eq!(white_space(c), c.is_whitespace(), "{:x}", v);
        }
    }
}

#[test]
fn decimals_have_no_leading_zeros() {
    for n in [0u64, 7, 10, 19, 100, 9999, 524288000, u64::MAX] {
        assert_eq!(decimal(n), n.to_string());
    }
}

#[test]
fn names_are_split_at_the_last_dot() {
    assert_eq!(split_last_dot("foo.pdf"), Some(("foo", "pdf")));
    assert_eq!(split_last_dot("a.tar.gz"), Some(("a.tar", "gz")));
    assert_eq!(split_last_dot(".profile"), Some(("", "profile")));
    assert_eq!(split_last_dot("end."), Some(("end", "")));
    assert_eq!(split_last_dot("plain"), None);
    assert_eq!(split_last_dot(""), None);
}

#[test]
fn prefixes_are_stripped_where_they_stand() {
    assert_eq!(strip_prefix("lan-chat-v1-ab", "lan-chat-v1-"), Some("ab"));
    assert_eq!(strip_prefix("lan-chat", "lan-chat-v1-"), None);
    assert_eq!(strip_prefix("abc", "abd"), None);
    assert_eq!(strip_prefix("été", "é"), Some("té"));
    assert_eq!(strip_prefix("x", ""), Some("x"));
}

#[test]
fn texts_are_compared_and_joined() {
    assert!(same_text("été", "été"));
    assert!(!same_text("été", "ete"));
    assert!(!same_text("a", "ab"));
    assert_eq!(joined("open: ", "gone"), "open: gone");
}

#[test]
fn a_registry_maps_texts_to_values() {
    let mut r: Registry<u32> = Registry::new();
    assert_eq!(r.len(), 0);
    r.insert("a".to_string(), 1);
    r.insert("b".to_string(), 2);
    r.insert("a".to_string(), 3);
    assert_eq!(r.len(), 2);
    assert_eq!(r.get("a"), Some(&3));
    assert_eq!(r.get("b"), Some(&2));
    assert_eq!(r.get("c"), None);
    let mut values = vec![*r.value_at(0), *r.value_at(1)];
    values.sort();
    assert_eq!(values, [2, 3]);
    r.remove("c");
    assert_eq!(r.len(), 2);
    r.remove("a");
    assert!(!r.contains_key("a"));
    assert!(r.contains_key("b"));
    assert_eq!(r.len(), 1);
    r.clear();
    assert_eq!(r.len(), 0);
    assert!(!r.contains_key("b"));
}
