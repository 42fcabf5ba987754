use viewkit::text::{
    chars_eq, chars_of, find_chars, is_whitespace, range_eq, replace_all, replace_first_of, split_words, str_eq,
    string_from_chars, string_from_range, trim_bounds,
};

fn cs(s: &str) -> Vec<char> {
    s.chars().collect()
}

#[test]
fn chars_round_trip() {
    let v = chars_of("héllo");
    assert_eq!(v, vec!['h', 'é', 'l', 'l', 'o']);
    assert_eq!(string_from_chars(&v), "héllo");
    assert_eq!(string_from_range(&v, 1, 3), "él");
}

#[test]
fn equality_helpers() {
    assert!(str_eq("abc", "abc"));
    assert!(!str_eq("abc", "abd"));
    assert!(chars_eq(&cs("xy"), &cs("xy")));
    assert!(range_eq(&cs("hello"), 1, 3, &cs("el")));
    assert!(!range_eq(&cs("hello"), 1, 4, &cs("el")));
}

#[test]
fn whitespace_matches_std() {
    for c in [' ', '\t', '\n', '\u{a0}', '\u{3000}', 'a', '0', '\u{200b}'] {
        assert_eq!(is_whitespace(c), c.is_whitespace());
    }
}

#[test]
fn trim_bounds_like_str_trim() {
    let v = cs("  ab c \n");
    let (a, b) = trim_bounds(&v, 0, v.len());
    assert_eq!(string_from_range(&v, a, b), "ab c");
    let w = cs("   ");
    let (a, b) = trim_bounds(&w, 0, w.len());
    assert_eq!(a, b);
}

#[test]
fn find_first_occurrence() {
    let s = cs("abcabc");
    assert_eq!(find_chars(&s, &cs("bc"), 0), Some(1));
    assert_eq!(find_chars(&s, &cs("bc"), 2), Some(4));
    assert_eq!(find_chars(&s, &cs("x"), 0), None);
    assert_eq!(find_chars(&s, &cs(""), 3), Some(3));
}

#[test]
fn replace_all_like_str_replace() {
    let out = replace_all(&cs("a-b-c"), &cs("-"), &cs("--"));
    assert_eq!(out.iter().collect::<String>(), "a--b--c");
    let out = replace_all(&cs("aaa"), &cs("aa"), &cs("b"));
    assert_eq!(out.iter().collect::<String>(), "aaa".replace("aa", "b"));
}

#[test]
fn replace_first_of_tries_patterns_in_order() {
    let pats = vec![cs("<x/>"), cs("<y/>")];
    let out = replace_first_of(&cs("1<y/>2<x/>3<x/>"), &pats, &cs("!"));
    assert_eq!(out.iter().collect::<String>(), "1<y/>2!3<x/>");
    let out = replace_first_of(&cs("none"), &pats, &cs("!"));
    assert_eq!(out.iter().collect::<String>(), "none");
}

#[test]
fn split_words_like_split_whitespace() {
    let v = cs("  one two\tthree  ");
    let words = split_words(&v, 0, v.len());
    assert_eq!(words, vec!["one".to_string(), "two".to_string(), "three".to_string()]);
    let empty = split_words(&v, 0, 2);
    assert!(empty.is_empty());
}
