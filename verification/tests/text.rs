use swift_precompiled::text::{decimal, find, matches_at, replace_all, replace_first, to_chars};

fn chars(s: &str) -> Vec<char> {
    s.chars().collect()
}

#[test]
fn to_chars_gives_every_character_in_order() {
    assert_eq!(to_chars(""), Vec::<char>::new());
    assert_eq!(to_chars("a/b"), vec!['a', '/', 'b']);
    assert_eq!(to_chars("né→x"), vec!['n', 'é', '→', 'x']);
}

#[test]
fn matches_at_tests_one_position() {
    let text = chars("abcabc");
    assert!(matches_at(&text, &chars("abc"), 0));
    assert!(matches_at(&text, &chars("abc"), 3));
    assert!(!matches_at(&text, &chars("abc"), 1));
    assert!(!matches_at(&text, &chars("abc"), 4));
    assert!(!matches_at(&text, &chars("abc"), 100));
    assert!(matches_at(&text, &chars(""), 6));
    assert!(!matches_at(&text, &chars(""), 7));
}

#[test]
fn find_gives_the_leftmost_occurrence_from_a_start() {
    let text = chars("xx--xx--xx");
    assert_eq!(find(&text, &chars("--"), 0), Some(2));
    assert_eq!(find(&text, &chars("--"), 2), Some(2));
    assert_eq!(find(&text, &chars("--"), 3), Some(6));
    assert_eq!(find(&text, &chars("--"), 7), None);
    assert_eq!(find(&text, &chars("y"), 0), None);
    assert_eq!(find(&text, &chars("xx--xx--xx!"), 0), None);
    assert_eq!(find(&text, &chars(""), 0), Some(0));
    assert_eq!(find(&text, &chars(""), 10), Some(10));
    assert_eq!(find(&text, &chars(""), 11), None);
}

#[test]
fn replace_first_touches_only_the_leftmost_occurrence() {
    assert_eq!(replace_first("a-b-c", "-", "+"), "a+b-c");
    assert_eq!(replace_first("a-b-c", "?", "+"), "a-b-c");
    assert_eq!(replace_first("aaa", "aa", "b"), "ba");
    assert_eq!(replace_first("abc", "", "^"), "^abc");
    assert_eq!(replace_first("", "", "^"), "^");
    assert_eq!(replace_first("", "a", "^"), "");
    assert_eq!(replace_first("é→é", "→", "--"), "é--é");
    assert_eq!(replace_first("tail", "il", ""), "ta");
}

#[test]
fn replace_first_agrees_with_std() {
    let cases = [
        ("a-b-c", "-", "+"),
        ("aaaa", "aa", "b"),
        ("abc", "abc", ""),
        ("abc", "", "^"),
        ("", "", "^"),
        ("$A/$A", "$A", "/x"),
        ("no match", "zz", "y"),
    ];
    for (text, pattern, replacement) in cases {
        assert_eq!(replace_first(text, pattern, replacement), text.replacen(pattern, replacement, 1));
    }
}

#[test]
fn replace_all_replaces_every_occurrence() {
    assert_eq!(replace_all("a-b-c", "-", "+"), "a+b+c");
    assert_eq!(replace_all("a-b-c", "?", "+"), "a-b-c");
    assert_eq!(replace_all("$A/$A", "$A", "/x"), "/x//x");
    assert_eq!(replace_all("abc", "abc", ""), "");
    assert_eq!(replace_all("", "abc", "x"), "");
    assert_eq!(replace_all("ab", "abc", "x"), "ab");
}

#[test]
fn replace_all_finds_occurrences_left_to_right_without_overlap() {
    assert_eq!(replace_all("aaa", "aa", "b"), "ba");
    assert_eq!(replace_all("aaaa", "aa", "b"), "bb");
    assert_eq!(replace_all("ababa", "aba", "x"), "xba");
}

#[test]
fn replace_all_does_not_search_what_it_wrote() {
    assert_eq!(replace_all("a", "a", "aa"), "aa");
    assert_eq!(replace_all("xay", "a", "<a>"), "x<a>y");
}

#[test]
fn replace_all_finds_an_empty_pattern_at_every_boundary() {
    assert_eq!(replace_all("abc", "", "-"), "-a-b-c-");
    assert_eq!(replace_all("", "", "-"), "-");
    assert_eq!(replace_all("é", "", "."), ".é.");
}

#[test]
fn replace_all_agrees_with_std() {
    let cases = [
        ("a-b-c", "-", "+"),
        ("aaaa", "aa", "b"),
        ("aaaaa", "aa", "b"),
        ("abc", "abc", ""),
        ("abc", "", "^"),
        ("", "", "^"),
        ("", "a", "^"),
        ("$Assets/logo.png", "$Assets", "/root/assets"),
        ("no match", "zz", "y"),
        ("é→é→", "→", "é"),
        ("end.", ".", ".."),
    ];
    for (text, pattern, replacement) in cases {
        assert_eq!(replace_all(text, pattern, replacement), text.replace(pattern, replacement));
    }
}

#[test]
fn decimal_writes_numbers_without_leading_zeros() {
    assert_eq!(decimal(0), "0");
    assert_eq!(decimal(7), "7");
    assert_eq!(decimal(10), "10");
    assert_eq!(decimal(999), "999");
    assert_eq!(decimal(1000), "1000");
    assert_eq!(decimal(1234567890), "1234567890");
    assert_eq!(decimal(u128::MAX), "340282366920938463463374607431768211455");
}

#[test]
fn decimal_agrees_with_std() {
    let mut n: u128 = 1;
    for _ in 0..38 {
        assert_eq!(decimal(n), n.to_string());
        assert_eq!(decimal(n - 1), (n - 1).to_string());
        n *= 10;
    }
}
