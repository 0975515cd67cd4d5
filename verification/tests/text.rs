use lucide_svg_rs::text::{
    bytes_equal, chars_contain, chars_end_with, chars_equal, chars_lowered, chars_occur_at,
    chars_precede, lower_char, to_chars,
};

fn precedes(a: &str, b: &str) -> bool {
    chars_precede(&to_chars(a), &to_chars(b))
}

fn contains(s: &str, pattern: &str) -> bool {
    chars_contain(&to_chars(s), &to_chars(pattern))
}

#[test]
fn to_chars_gives_the_characters() {
    assert_eq!(to_chars("a\u{e9}z"), vec!['a', '\u{e9}', 'z']);
    assert_eq!(to_chars(""), Vec::<char>::new());
}

#[test]
fn order_is_lexicographic() {
    assert!(precedes("a", "b"));
    assert!(precedes("", "a"));
    assert!(precedes("a", "aa"));
    assert!(precedes("activity", "book-heart"));
    assert!(precedes("Z", "a"));
    assert!(precedes("a-b", "ab"));
    assert!(!precedes("b", "a"));
    assert!(!precedes("a", "a"));
    assert!(!precedes("aa", "a"));
    assert!(!precedes("", ""));
}

#[test]
fn order_agrees_with_the_order_of_strings() {
    let samples = [
        "", "a", "A", "ab", "a-b", "z", "\u{e9}", "e\u{301}", "\u{1f600}", "\u{ffff}", "zz", "0",
        "activity", "activity-square", "air-vent",
    ];
    for a in samples {
        for b in samples {
            assert_eq!(precedes(a, b), a < b, "{:?} and {:?}", a, b);
        }
    }
}

#[test]
fn contains_finds_contiguous_parts() {
    assert!(contains("activity", "tiv"));
    assert!(contains("activity", "activity"));
    assert!(contains("activity", ""));
    assert!(contains("", ""));
    assert!(contains("activity", "ty"));
    assert!(contains("activity", "a"));
    assert!(!contains("activity", "tvi"));
    assert!(!contains("activity", "activityy"));
    assert!(!contains("", "a"));
    assert!(!contains("activity", "A"));
    assert!(contains("aab", "ab"));
}

#[test]
fn occurs_at_and_ends_with() {
    let s = to_chars("book-heart");
    assert!(chars_occur_at(&s, &to_chars("book"), 0));
    assert!(chars_occur_at(&s, &to_chars("heart"), 5));
    assert!(!chars_occur_at(&s, &to_chars("heart"), 6));
    assert!(!chars_occur_at(&s, &to_chars("heart"), 100));
    assert!(chars_occur_at(&s, &to_chars(""), 10));
    assert!(!chars_occur_at(&s, &to_chars(""), 11));
    assert!(chars_end_with(&s, &to_chars("heart")));
    assert!(chars_end_with(&s, &to_chars("")));
    assert!(!chars_end_with(&s, &to_chars("book")));
    assert!(!chars_end_with(&to_chars("t"), &to_chars("heart")));
}

#[test]
fn equality_of_characters_and_bytes() {
    assert!(chars_equal(&to_chars("abc"), &to_chars("abc")));
    assert!(!chars_equal(&to_chars("abc"), &to_chars("abd")));
    assert!(!chars_equal(&to_chars("abc"), &to_chars("ab")));
    assert!(chars_equal(&to_chars(""), &to_chars("")));
    assert!(bytes_equal(b"abc", b"abc"));
    assert!(!bytes_equal(b"abc", b"abC"));
    assert!(!bytes_equal(b"abc", b"abcd"));
    assert!(bytes_equal(b"", b""));
}

#[test]
fn lowering_touches_ascii_capitals_only() {
    assert_eq!(lower_char('A'), 'a');
    assert_eq!(lower_char('Z'), 'z');
    assert_eq!(lower_char('a'), 'a');
    assert_eq!(lower_char('@'), '@');
    assert_eq!(lower_char('['), '[');
    assert_eq!(lower_char('\u{c9}'), '\u{c9}');
    assert_eq!(chars_lowered(&to_chars("Book-HEART 9\u{c9}")), to_chars("book-heart 9\u{c9}"));
}
