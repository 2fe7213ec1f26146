use rmap::text::{capitalize, str_contains, without_punct, ModChar};
use rmap::util::parse_usize;

#[test]
fn capitalize_upper_cases_the_first_letter() {
    assert_eq!(capitalize("octocat".to_string()), "Octocat");
}

#[test]
fn capitalize_keeps_the_empty_string() {
    assert_eq!(capitalize(String::new()), "");
}

#[test]
fn capitalize_maps_sharp_s_to_two_letters() {
    assert_eq!(capitalize("ßa".to_string()), "SSa");
}

#[test]
fn capitalize_leaves_non_letters() {
    assert_eq!(capitalize("1abc".to_string()), "1abc");
}

#[test]
fn contains_finds_substrings() {
    assert!(str_contains("owner/repo", "r/r"));
    assert!(str_contains("owner/repo", ""));
    assert!(!str_contains("owner/repo", "repos"));
    assert!(!str_contains("", "a"));
}

#[test]
fn punctuation_is_ascii_only() {
    assert!(<char as ModChar>::is_punct('/'));
    assert!(<char as ModChar>::is_punct('~'));
    assert!(<char as ModChar>::is_punct('@'));
    assert!(!<char as ModChar>::is_punct('a'));
    assert!(!<char as ModChar>::is_punct(' '));
    assert!(!<char as ModChar>::is_punct('«'));
}

#[test]
fn class_name_drops_punctuation() {
    assert_eq!(without_punct("rust-lang/rust.vim"), "rustlangrustvim");
    assert_eq!(without_punct("plain"), "plain");
}

#[test]
fn parse_usize_follows_std() {
    for s in ["0", "42", "+7", "", "+", "-1", "4a", " 5", "18446744073709551615", "18446744073709551616", "007"] {
        assert_eq!(parse_usize(s), s.parse::<usize>().ok(), "input {:?}", s);
    }
}

#[test]
fn capitalizing_twice_changes_nothing_more() {
    for s in ["hello world", "Hello", "1abc", "", "z"] {
        let once = capitalize(s.to_string());
        assert_eq!(once.len(), s.len());
        assert_eq!(capitalize(once.clone()), once);
    }
    assert_eq!(capitalize("hello world".to_string()), "Hello world");
}
