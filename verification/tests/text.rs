use ygrep_core::text::{
    contains_text, equal_but_for_ascii_case, join_range, lines_of, long_search_terms_of, search_terms_of,
    white_space_words,
};

fn strings(list: &[&str]) -> Vec<String> {
    list.iter().map(|s| s.to_string()).collect()
}

#[test]
fn lines_are_those_of_std() {
    for text in [
        "", "\n", "a", "a\n", "a\nb", "a\r\nb\r\n", "a\rb", "a\r", "\r\n", "\n\n", "a\n\nb\n", "x\r\r\ny", "é\nß\n",
    ] {
        let expected: Vec<String> = text.lines().map(|l| l.to_string()).collect();
        assert_eq!(lines_of(text), expected, "{:?}", text);
    }
}

#[test]
fn white_space_words_are_those_of_std() {
    for text in ["", "  ", "a b", " a\tb\nc ", "a\u{3000}b\u{85}c\u{a0}d", "x\u{200b}y", "\u{2029}q\u{205f}"] {
        let expected: Vec<String> = text.split_whitespace().map(|l| l.to_string()).collect();
        assert_eq!(white_space_words(text), expected, "{:?}", text);
    }
}

#[test]
fn white_space_is_that_of_std() {
    for code in 0..0x11_0000u32 {
        if let Some(c) = char::from_u32(code) {
            let mut text = String::from("x");
            text.push(c);
            assert_eq!(white_space_words(&text)[0] == "x", c.is_whitespace(), "{:x}", code);
        }
    }
}

#[test]
fn search_terms_are_runs_of_word_characters() {
    assert_eq!(search_terms_of("$variable"), strings(&["variable"]));
    assert_eq!(search_terms_of("->get("), strings(&["get"]));
    assert_eq!(search_terms_of("{% block"), strings(&["block"]));
    assert_eq!(search_terms_of("fn hello_world()"), strings(&["fn", "hello_world"]));
    assert_eq!(search_terms_of("größe x"), strings(&["größe", "x"]));
    assert_eq!(search_terms_of("->"), strings(&[]));
    assert_eq!(search_terms_of(""), strings(&[]));
}

#[test]
fn single_bytes_are_no_terms_of_a_pattern() {
    assert_eq!(long_search_terms_of("fn\\s+main"), strings(&["fn", "main"]));
    assert_eq!(long_search_terms_of("^#"), strings(&[]));
    assert_eq!(long_search_terms_of("a.é"), strings(&["é"]));
}

#[test]
fn text_in_text() {
    assert!(contains_text("hello world", "lo w"));
    assert!(contains_text("hello", ""));
    assert!(contains_text("", ""));
    assert!(!contains_text("", "a"));
    assert!(contains_text("aab", "ab"));
    assert!(!contains_text("abc", "abcd"));
}

#[test]
fn case_of_ascii_letters_only() {
    assert!(equal_but_for_ascii_case("RS", "rs"));
    assert!(equal_but_for_ascii_case("c++", "C++"));
    assert!(!equal_but_for_ascii_case("É", "é"));
    assert!(!equal_but_for_ascii_case("rs", "rst"));
    assert!(!equal_but_for_ascii_case("[", "{"));
}

#[test]
fn joined_parts() {
    let parts = strings(&["a", "", "b"]);
    assert_eq!(join_range(&parts, 0, 3, "/"), "a//b");
    assert_eq!(join_range(&parts, 1, 2, "/"), "");
    assert_eq!(join_range(&parts, 3, 3, "/"), "");
}
