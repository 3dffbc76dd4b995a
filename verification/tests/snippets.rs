use regex::RegexBuilder;
use ygrep_core::search::snippet::{create_regex_snippet, create_relevant_snippet, first_mention, snippet_of};

fn numbered(count: usize) -> Vec<String> {
    (0..count).map(|i| format!("line {}", i)).collect()
}

#[test]
fn snippet_around_a_match() {
    let content = numbered(30).join("\n");
    let (text, start, count) = create_relevant_snippet(&content, "LINE 15", 10);
    // every line holds the word "line", so the first line is the first match
    assert_eq!((start, count), (0, 8));
    assert_eq!(text, numbered(8).join("\n"));

    let (text, start, count) = create_relevant_snippet(&content, "15", 10);
    assert_eq!((start, count), (13, 10));
    assert_eq!(text, numbered(30)[13..23].join("\n"));
}

#[test]
fn snippet_near_the_ends() {
    let content = numbered(30).join("\n");
    let (text, start, count) = create_relevant_snippet(&content, "29", 10);
    assert_eq!((start, count), (27, 3));
    assert_eq!(text, "line 27\nline 28\nline 29");
    let (_, start, count) = create_relevant_snippet("HELLO\nworld", "hello", 10);
    assert_eq!((start, count), (0, 2));
}

#[test]
fn snippet_from_the_top_where_nothing_matches() {
    let content = numbered(30).join("\n");
    let (text, start, count) = create_relevant_snippet(&content, "absent", 10);
    assert_eq!((start, count), (0, 10));
    assert_eq!(text, numbered(10).join("\n"));
    // a trailing empty line is not counted
    let (text, start, count) = create_relevant_snippet("a\n\nb", "absent", 2);
    assert_eq!((text.as_str(), start, count), ("a\n", 0, 1));
    assert_eq!(create_relevant_snippet("", "x", 10), (String::new(), 0, 0));
}

#[test]
fn small_limits_still_show_the_context_before() {
    let content = numbered(30).join("\n");
    let (text, start, count) = create_relevant_snippet(&content, "15", 0);
    assert_eq!((start, count), (13, 3));
    assert_eq!(text, "line 13\nline 14\nline 15");
}

#[test]
fn any_word_of_the_query_is_relevant() {
    let (_, start, _) = create_relevant_snippet("a\nb\nc\nd\nbeta\nalpha", "alpha beta", 10);
    assert_eq!(start, 2);
}

#[test]
fn snippet_around_a_match_of_an_expression() {
    let content = numbered(30).join("\r\n");
    let re = RegexBuilder::new("E 2[5-9]$").case_insensitive(true).build().unwrap();
    let (text, start, count) = create_regex_snippet(&content, &re, 10);
    assert_eq!((start, count), (23, 7));
    assert_eq!(text, numbered(30)[23..30].join("\n"));
    let re = RegexBuilder::new("absent").build().unwrap();
    let (_, start, count) = create_regex_snippet(&content, &re, 10);
    assert_eq!((start, count), (0, 10));
}

#[test]
fn snippet_around_a_given_line() {
    let list = numbered(5);
    assert_eq!(snippet_of(&list, Some(4), 10), ("line 2\nline 3\nline 4".to_string(), 2, 3));
    assert_eq!(snippet_of(&list, Some(1), usize::MAX), (list.join("\n"), 0, 5));
    assert_eq!(snippet_of(&list, None, 2), ("line 0\nline 1".to_string(), 0, 2));
}

#[test]
fn first_mention_of_a_term() {
    let list: Vec<String> = ["one", "two", "three"].iter().map(|s| s.to_string()).collect();
    assert_eq!(first_mention(&list, &vec!["wo".to_string(), "thr".to_string()]), Some(1));
    assert_eq!(first_mention(&list, &vec!["four".to_string()]), None);
    assert_eq!(first_mention(&list, &vec![]), None);
}

#[test]
fn snippets_of_both_searches_agree() {
    let content = "one\ntwo\nthree NEEDLE\nfour\nneedle five\nsix\nseven";
    for (word, max) in [("needle", 10), ("needle", 3), ("two", 4), ("absent", 3)] {
        let regex = RegexBuilder::new(word).case_insensitive(true).build().unwrap();
        assert_eq!(
            create_relevant_snippet(content, word, max),
            create_regex_snippet(content, &regex, max),
            "{}",
            word
        );
    }
}

#[test]
fn snippet_of_ascii_text_shows_the_query() {
    let content = "fn a() {}\r\nfn b() {}\nfn c() {}\nfn d() {}\r\nlet Value = 1;\nfn e() {}\n";
    let (text, start, count) = create_relevant_snippet(content, "VALUE =", 4);
    assert_eq!((start, count), (2, 4));
    assert_eq!(text, "fn c() {}\nfn d() {}\nlet Value = 1;\nfn e() {}");
}
