use classicube_pet_plugin::command::stripped_names_match;
use classicube_pet_plugin::text::{
    chars_of, join_from, str_contains, str_eq, str_starts_with, trim,
};

#[test]
fn chars_of_lists_characters() {
    assert_eq!(chars_of("héllo"), vec!['h', 'é', 'l', 'l', 'o']);
    assert!(chars_of("").is_empty());
}

#[test]
fn str_eq_compares_text() {
    assert!(str_eq("abc", "abc"));
    assert!(!str_eq("abc", "abd"));
    assert!(!str_eq("abc", "ab"));
    assert!(str_eq("", ""));
}

#[test]
fn str_contains_finds_substrings() {
    assert!(str_contains("botalice", "alice"));
    assert!(str_contains("anything", ""));
    assert!(!str_contains("bob", "alice"));
    assert!(!str_contains("ab", "abc"));
}

#[test]
fn str_starts_with_checks_prefix() {
    assert!(str_starts_with("pet_foo", "pet_"));
    assert!(!str_starts_with("mypet_foo", "pet_"));
    assert!(str_starts_with("x", ""));
    assert!(!str_starts_with("pe", "pet_"));
}

#[test]
fn name_matching_folds_case_beyond_ascii() {
    assert!(stripped_names_match("ÄBC", "äb"));
    assert!(stripped_names_match("äbc", "ÄB"));
    assert!(!stripped_names_match("ABC", "äb"));
}

#[test]
fn trim_strips_white_space() {
    assert_eq!(trim("  hi there \t\n"), "hi there");
    assert_eq!(trim("   "), "");
    assert_eq!(trim("x"), "x");
}

#[test]
fn join_from_joins_tail() {
    let args: Vec<String> = vec!["copy".to_string(), "Some".to_string(), "Body".to_string()];
    assert_eq!(join_from(&args, 1, " "), "Some Body");
    assert_eq!(join_from(&args, 3, " "), "");
    assert_eq!(join_from(&args, 0, ","), "copy,Some,Body");
}

#[test]
fn trim_agrees_with_std_on_every_character() {
    for c in (0u32..=0x10FFFF).filter_map(char::from_u32) {
        let s = format!("{c}x{c}");
        assert_eq!(trim(&s), s.trim(), "character U+{:04X}", c as u32);
    }
}
