use kora::text::{fuzzy_match, highlight};

#[test]
fn empty_query_matches_everything() {
    assert!(fuzzy_match("", ""));
    assert!(fuzzy_match("", "anything"));
}

#[test]
fn query_is_a_subsequence_up_to_ascii_case() {
    assert!(fuzzy_match("abc", "aXbYc"));
    assert!(fuzzy_match("ABC", "abc"));
    assert!(fuzzy_match("prd", "Production"));
    assert!(fuzzy_match("abc", "abc"));
}

#[test]
fn order_and_count_matter() {
    assert!(!fuzzy_match("acb", "abc"));
    assert!(!fuzzy_match("aa", "a"));
    assert!(!fuzzy_match("a", ""));
    assert!(!fuzzy_match("abcd", "abc"));
}

#[test]
fn non_ascii_case_is_not_folded() {
    assert!(!fuzzy_match("É", "é"));
    assert!(fuzzy_match("é", "café"));
}

#[test]
fn highlight_count_equals_query_length_when_matching() {
    let marks = highlight("bd", "abcd");
    assert_eq!(marks.iter().filter(|m| m.1).count(), 2);
    assert!(fuzzy_match("bd", "abcd"));
    let marks = highlight("bz", "abcd");
    assert_eq!(marks.iter().filter(|m| m.1).count(), 1);
    assert!(!fuzzy_match("bz", "abcd"));
}

#[test]
fn every_text_matches_itself() {
    for t in ["", "Web-01", "dépôt", "a b c"] {
        assert!(fuzzy_match(t, t));
    }
}

#[test]
fn a_match_survives_a_longer_text() {
    assert!(fuzzy_match("bd", "abcd"));
    assert!(fuzzy_match("bd", "xxabcdyy"));
    assert!(fuzzy_match("BD", "zzAbCdzz"));
}

#[test]
fn highlight_marks_the_next_query_character_each_time() {
    let query: Vec<char> = "sRv".chars().map(|c| c.to_ascii_lowercase()).collect();
    let text = "xs-rsRVv";
    let marks = highlight("sRv", text);
    let mut seen = 0;
    for (i, (c, on)) in marks.iter().enumerate() {
        assert_eq!(*c, text.chars().nth(i).unwrap());
        let expected = seen < query.len() && c.to_ascii_lowercase() == query[seen];
        assert_eq!(*on, expected);
        if *on {
            seen += 1;
        }
    }
    let on: Vec<usize> = marks.iter().enumerate().filter(|m| (m.1).1).map(|m| m.0).collect();
    assert_eq!(on, vec![1, 3, 6]);
}
