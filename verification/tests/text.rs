use shellm::text::{
    chars_of, contains_chars, decimal_chars, less_chars, split_chars, strip_all_chars, to_string,
    trim_chars,
};

fn v(s: &str) -> Vec<char> {
    s.chars().collect()
}

fn s(v: &[char]) -> String {
    v.iter().collect()
}

#[test]
fn trims_unicode_whitespace() {
    assert_eq!(s(&trim_chars(&v("\u{3000} \t x y \n\u{a0}"))), "x y");
    assert_eq!(s(&trim_chars(&v("   "))), "");
    assert_eq!(s(&trim_chars(&v("x"))), "x");
}

#[test]
fn splits_like_str_split() {
    let pieces: Vec<String> = split_chars(&v("a&&b&&&&c"), &v("&&")).iter().map(|p| s(p)).collect();
    let expected: Vec<String> = "a&&b&&&&c".split("&&").map(|p| p.to_string()).collect();
    assert_eq!(pieces, expected);
    let pieces: Vec<String> = split_chars(&v("|||"), &v("||")).iter().map(|p| s(p)).collect();
    assert_eq!(pieces, vec!["", "|"]);
    assert_eq!(split_chars(&v(""), &v(";")).len(), 1);
}

#[test]
fn searches_and_strips() {
    assert!(contains_chars(&v("git push -f"), &v("-f")));
    assert!(!contains_chars(&v("git"), &v("gitx")));
    assert!(contains_chars(&v("x"), &v("")));
    assert_eq!(s(&strip_all_chars(&v("$ $ $x"), &v("$ "))), "$x");
}

#[test]
fn decimal_text() {
    assert_eq!(s(&decimal_chars(0)), "0");
    assert_eq!(s(&decimal_chars(7)), "7");
    assert_eq!(s(&decimal_chars(10)), "10");
    assert_eq!(s(&decimal_chars(12345)), "12345");
}

#[test]
fn orders_like_str() {
    for (a, b) in [("clear", "help"), ("help", "history"), ("a", "ab"), ("", "a"), ("b", "a"), ("x", "x"), ("é", "z")] {
        assert_eq!(less_chars(&v(a), &v(b)), a < b, "{} {}", a, b);
    }
}

#[test]
fn converts_text() {
    assert_eq!(chars_of("héllo"), v("héllo"));
    assert_eq!(to_string(&v("héllo")), "héllo");
}
