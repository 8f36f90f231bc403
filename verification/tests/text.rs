use bifrost::text::{
    chars_to_string, find_chars, matches_at, same_chars, slice, split_chars, to_chars,
};

fn chars(text: &str) -> Vec<char> {
    text.chars().collect()
}

fn pieces(text: &str, pat: &str) -> Vec<String> {
    split_chars(&chars(text), &chars(pat)).into_iter().map(|p| p.into_iter().collect()).collect()
}

#[test]
fn split_like_std() {
    for text in ["", "a", "a b", " a", "a ", "a  b", "  ", "GET / HTTP/1.1", "a b c d"] {
        let expected: Vec<String> = text.split(' ').map(|p| p.to_string()).collect();
        assert_eq!(pieces(text, " "), expected, "{:?}", text);
    }
    let cases = [("a: b: c", ": "), ("aaa", "aa"), ("aaaa", "aa"), ("abcabc", "bc"), ("x", "xyz")];
    for (text, pat) in cases {
        let expected: Vec<String> = text.split(pat).map(|p| p.to_string()).collect();
        assert_eq!(pieces(text, pat), expected, "{:?} {:?}", text, pat);
    }
}

#[test]
fn find_first_occurrence() {
    assert_eq!(find_chars(&chars("a: b: c"), &chars(": "), 0), Some(1));
    assert_eq!(find_chars(&chars("a: b: c"), &chars(": "), 2), Some(4));
    assert_eq!(find_chars(&chars("a: b: c"), &chars(": "), 5), None);
    assert_eq!(find_chars(&chars("abc"), &chars("abcd"), 0), None);
    assert_eq!(find_chars(&chars("abc"), &chars(""), 0), Some(0));
    assert_eq!(find_chars(&chars("abc"), &chars(""), 3), Some(3));
    assert_eq!(find_chars(&chars("abc"), &chars(""), 4), None);
    assert_eq!(find_chars(&chars("abc"), &chars("c"), 7), None);
}

#[test]
fn occurrence_at_an_index() {
    assert!(matches_at(&chars("hello"), &chars("ell"), 1));
    assert!(!matches_at(&chars("hello"), &chars("ell"), 0));
    assert!(!matches_at(&chars("hello"), &chars("lo!"), 3));
    assert!(matches_at(&chars("hello"), &chars(""), 5));
    assert!(!matches_at(&chars("hello"), &chars(""), 6));
}

#[test]
fn strings_and_characters() {
    assert_eq!(to_chars("h\u{e9}llo"), vec!['h', '\u{e9}', 'l', 'l', 'o']);
    assert_eq!(to_chars(""), Vec::<char>::new());
    assert_eq!(chars_to_string(&chars("h\u{e9}llo"), 1, 3), "\u{e9}l");
    assert_eq!(chars_to_string(&chars("hello"), 2, 2), "");
    assert_eq!(slice(&chars("hello"), 1, 4), vec!['e', 'l', 'l']);
    assert!(same_chars(&chars("abc"), &chars("abc")));
    assert!(!same_chars(&chars("abc"), &chars("abd")));
    assert!(!same_chars(&chars("abc"), &chars("ab")));
}
