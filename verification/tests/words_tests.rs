use rust_practice::group::{validate_alternating_group, GroupError};
use rust_practice::substitution::{replace_multiple, WordMap};
use rust_practice::words::{parse_alternating_group_string, split_marked_words};

fn strings(ws: &[&str]) -> Vec<String> {
    ws.iter().map(|w| w.to_string()).collect()
}

#[test]
fn parses_parenthesised_group() {
    assert_eq!(parse_alternating_group_string("(dog cat rabbit)"), strings(&["dog", "cat", "rabbit"]));
}

#[test]
fn parses_with_nested_parentheses_and_tabs() {
    assert_eq!(parse_alternating_group_string("((  a\tb \n c ))"), strings(&["a", "b", "c"]));
}

#[test]
fn inner_parentheses_stay_in_words() {
    assert_eq!(parse_alternating_group_string("(a (b) c)"), strings(&["a", "(b)", "c"]));
}

#[test]
fn empty_groups_have_no_words() {
    assert!(parse_alternating_group_string("").is_empty());
    assert!(parse_alternating_group_string("()").is_empty());
    assert!(parse_alternating_group_string("(   )").is_empty());
}

#[test]
fn parses_non_ascii_words() {
    assert_eq!(parse_alternating_group_string("(犬 猫\u{3000}兎)"), strings(&["犬", "猫", "兎"]));
}

#[test]
fn validate_accepts_permutation() {
    let s = strings(&["dog", "cat", "rabbit"]);
    let t = strings(&["rabbit", "dog", "cat"]);
    assert!(validate_alternating_group(&s, &t).is_ok());
}

#[test]
fn validate_rejects_length_mismatch() {
    let s = strings(&["dog", "cat"]);
    let t = strings(&["dog"]);
    assert!(matches!(validate_alternating_group(&s, &t), Err(GroupError::LengthMismatch)));
}

#[test]
fn validate_rejects_other_words() {
    let s = strings(&["dog", "cat"]);
    let t = strings(&["dog", "cow"]);
    assert!(matches!(validate_alternating_group(&s, &t), Err(GroupError::WordSetMismatch)));
    let s2 = strings(&["dog", "dog", "cat"]);
    let t2 = strings(&["dog", "cat", "cat"]);
    assert!(matches!(validate_alternating_group(&s2, &t2), Err(GroupError::WordSetMismatch)));
}

#[test]
fn validate_reports_least_duplicate() {
    let s = strings(&["pig", "cat", "pig", "cat", "ant"]);
    let t = strings(&["cat", "pig", "ant", "pig", "cat"]);
    match validate_alternating_group(&s, &t) {
        Err(GroupError::DuplicateWord(w)) => assert_eq!(w, "cat"),
        other => panic!("unexpected {:?}", other),
    }
}

#[test]
fn group_error_messages() {
    assert_eq!(GroupError::LengthMismatch.message(), "エラー: 要素数が一致しません。");
    assert_eq!(GroupError::WordSetMismatch.message(), "エラー: 置換元と置換先の単語セットが一致しません。");
    assert_eq!(
        GroupError::DuplicateWord("cat".to_string()).message(),
        "エラー: 置換元に重複する単語 'cat' があります。"
    );
}

#[test]
fn word_map_insert_and_get() {
    let mut m = WordMap::new();
    m.insert("dog".to_string(), "cat".to_string());
    m.insert("cat".to_string(), "dog".to_string());
    m.insert("dog".to_string(), "rabbit".to_string());
    assert_eq!(m.get(&"dog".to_string()).map(|s| s.as_str()), Some("rabbit"));
    assert_eq!(m.get(&"cat".to_string()).map(|s| s.as_str()), Some("dog"));
    assert_eq!(m.get(&"cow".to_string()), None);
}

#[test]
fn word_map_from_pairs_stops_at_shorter() {
    let m = WordMap::from_pairs(&strings(&["a", "b", "c"]), &strings(&["x", "y"]));
    assert_eq!(m.get(&"a".to_string()).map(|s| s.as_str()), Some("x"));
    assert_eq!(m.get(&"b".to_string()).map(|s| s.as_str()), Some("y"));
    assert_eq!(m.get(&"c".to_string()), None);
}

#[test]
fn replaces_simultaneously() {
    let s = strings(&["dog", "cat", "rabbit"]);
    let t = strings(&["rabbit", "dog", "cat"]);
    let m = WordMap::from_pairs(&s, &t);
    let out = replace_multiple("The dog chased the cat; the rabbit watched.", &m, &s);
    assert_eq!(out, "The rabbit chased the dog; the cat watched.");
}

#[test]
fn swaps_without_replacing_twice() {
    let s = strings(&["a", "b"]);
    let t = strings(&["b", "a"]);
    let m = WordMap::from_pairs(&s, &t);
    assert_eq!(replace_multiple("abba", &m, &s), "baab");
}

#[test]
fn longest_key_wins() {
    let s = strings(&["a", "ab"]);
    let t = strings(&["ab", "a"]);
    let m = WordMap::from_pairs(&s, &t);
    assert_eq!(replace_multiple("abc a", &m, &s), "ac ab");
}

#[test]
fn replaces_non_ascii_text() {
    let s = strings(&["犬", "猫"]);
    let t = strings(&["猫", "犬"]);
    let m = WordMap::from_pairs(&s, &t);
    assert_eq!(replace_multiple("犬と猫と鳥", &m, &s), "猫と犬と鳥");
}

#[test]
fn identity_substitution_keeps_text() {
    let s = strings(&["dog", "cat"]);
    let m = WordMap::from_pairs(&s, &s);
    let text = "dog and cat and dogcat";
    assert_eq!(replace_multiple(text, &m, &s), text);
}

#[test]
fn text_without_keys_is_kept() {
    let s = strings(&["dog", "cat"]);
    let t = strings(&["cat", "dog"]);
    let m = WordMap::from_pairs(&s, &t);
    assert_eq!(replace_multiple("a bird", &m, &s), "a bird");
    assert_eq!(replace_multiple("", &m, &s), "");
}

#[test]
fn splits_at_marked_characters() {
    let cs: Vec<char> = "ab,c,,d".chars().collect();
    let marks: Vec<bool> = cs.iter().map(|c| *c == ',').collect();
    assert_eq!(split_marked_words(&cs, &marks), strings(&["ab", "c", "d"]));
    let all: Vec<bool> = cs.iter().map(|_| true).collect();
    assert!(split_marked_words(&cs, &all).is_empty());
    let none: Vec<bool> = cs.iter().map(|_| false).collect();
    assert_eq!(split_marked_words(&cs, &none), strings(&["ab,c,,d"]));
}

#[test]
fn valid_group_maps_words_onto_words() {
    let s = parse_alternating_group_string("(dog cat rabbit)");
    let t = parse_alternating_group_string("(rabbit dog cat)");
    assert!(validate_alternating_group(&s, &t).is_ok());
    let m = WordMap::from_pairs(&s, &t);
    let mut images: Vec<String> = s.iter().map(|w| m.get(w).unwrap().clone()).collect();
    images.sort();
    let mut words = s.clone();
    words.sort();
    assert_eq!(images, words);
}

#[test]
fn key_order_does_not_matter() {
    let s = strings(&["dog", "cat", "rabbit"]);
    let t = strings(&["rabbit", "dog", "cat"]);
    let m = WordMap::from_pairs(&s, &t);
    let reordered = strings(&["rabbit", "cat", "dog", "cat"]);
    let text = "dog cat rabbit catdog";
    assert_eq!(replace_multiple(text, &m, &s), replace_multiple(text, &m, &reordered));
    assert_eq!(replace_multiple(text, &m, &reordered), "rabbit dog cat dograbbit");
}

#[test]
fn inverse_substitution_restores_text() {
    let s = strings(&["a", "b", "c"]);
    let t = strings(&["b", "c", "a"]);
    let forward = WordMap::from_pairs(&s, &t);
    let backward = WordMap::from_pairs(&t, &s);
    let text = "abcabc, cab!";
    let there = replace_multiple(text, &forward, &s);
    assert_eq!(there, "bcabca, abc!");
    assert_eq!(replace_multiple(&there, &backward, &s), text);
}

#[test]
fn parsing_joined_words_gives_them_back() {
    let w = strings(&["dog", "cat", "rabbit"]);
    let text = format!("({})", w.join(" "));
    assert_eq!(parse_alternating_group_string(&text), w);
    assert_eq!(parse_alternating_group_string("()"), Vec::<String>::new());
}

#[test]
fn splits_at_unicode_whitespace() {
    assert_eq!(
        parse_alternating_group_string("(dog\u{3000}cat\u{00A0}rabbit\u{2028}fox\u{0085}owl)"),
        strings(&["dog", "cat", "rabbit", "fox", "owl"])
    );
    assert_eq!(parse_alternating_group_string("(a\u{200B}b)"), strings(&["a\u{200B}b"]));
}

#[test]
fn whitespace_agrees_with_std() {
    for n in 0u32..0x3100 {
        if let Some(c) = char::from_u32(n) {
            if c == '(' || c == ')' {
                continue;
            }
            let words = parse_alternating_group_string(&format!("(a{}b)", c));
            assert_eq!(words.len() == 2, c.is_whitespace(), "U+{:04X}", n);
        }
    }
}
