use lf_blog::order::{chars_le, sort_ranked, str_le};
use lf_blog::markdown::LinkPair;
use lf_blog::text::{
    chars_of, contains_chars, copy_bytes, copy_list, copy_opt, copy_str, find_from, first_line_of,
    fold_one, folded_chars, is_space_char, join2, join3, matches_at, push_decimal, replace_chars,
    skip_spaces, stand_apart, str_contains, str_ends_with, str_eq, str_replace, str_starts_with,
    string_of, string_of_range,
};
use lf_blog::config::{verify_admin_password, Config};

fn v(s: &str) -> Vec<char> {
    s.chars().collect()
}

fn decimal(n: usize) -> String {
    let mut out = Vec::new();
    push_decimal(&mut out, n);
    out.into_iter().collect()
}

#[test]
fn strings_and_characters_convert_both_ways() {
    assert_eq!(chars_of("héllo"), vec!['h', 'é', 'l', 'l', 'o']);
    assert_eq!(string_of(&v("héllo")), "héllo");
    assert_eq!(string_of_range(&v("héllo"), 1, 3), "él");
    assert_eq!(string_of_range(&v("héllo"), 2, 2), "");
    assert_eq!(copy_str("x"), "x");
    assert_eq!(copy_opt(&Some("a".to_string())), Some("a".to_string()));
    assert_eq!(copy_opt(&None), None);
    assert_eq!(copy_list(&vec!["a".to_string(), "b".to_string()]), vec!["a".to_string(), "b".to_string()]);
    assert_eq!(copy_bytes(&vec![1, 2]), vec![1, 2]);
    assert_eq!(join2("ab", "cd"), "abcd");
    assert_eq!(join3("a", "-", "b"), "a-b");
}

#[test]
fn patterns_are_found_where_they_stand() {
    assert!(matches_at(&v("hello"), &v("ell"), 1));
    assert!(!matches_at(&v("hello"), &v("ell"), 0));
    assert!(!matches_at(&v("hello"), &v("lo"), 4));
    assert!(matches_at(&v("hello"), &v(""), 5));
    assert!(!matches_at(&v("hello"), &v(""), 6));
    assert_eq!(find_from(&v("abcabc"), &v("bc"), 0), Some(1));
    assert_eq!(find_from(&v("abcabc"), &v("bc"), 2), Some(4));
    assert_eq!(find_from(&v("abcabc"), &v("bc"), 5), None);
    assert_eq!(find_from(&v("abc"), &v(""), 3), Some(3));
    assert_eq!(find_from(&v("abc"), &v("abcd"), 0), None);
    assert!(contains_chars(&v("abc"), &v("")));
    assert!(str_contains("abc", "bc"));
    assert!(!str_contains("abc", "cb"));
    assert!(str_starts_with("abc", "ab"));
    assert!(!str_starts_with("abc", "bc"));
    assert!(str_ends_with("abc", "bc"));
    assert!(str_ends_with("abc", ""));
    assert!(!str_ends_with("bc", "abc"));
    assert!(str_eq("abc", "abc"));
    assert!(!str_eq("abc", "abd"));
    assert!(!str_eq("abc", "ab"));
}

#[test]
fn replacing_goes_from_left_to_right_without_overlap() {
    assert_eq!(str_replace("aaa", "aa", "b"), "ba");
    assert_eq!(str_replace("abcabc", "bc", "X"), "aXaX");
    assert_eq!(str_replace("abc", "abcd", "X"), "abc");
    assert_eq!(str_replace("abc", "", "X"), "abc");
    assert_eq!(str_replace("", "a", "X"), "");
    assert_eq!(str_replace("aab", "ab", "b"), "ab");
    assert_eq!(str_replace("één", "é", "e"), "een");
    assert_eq!(replace_chars(&v("xyx"), &v("x"), &v("xx")), v("xxyxx"));
}

#[test]
fn white_space_is_trimmed_at_the_start() {
    assert_eq!(skip_spaces(&v("  \t\n a b "), 0), 5);
    assert_eq!(skip_spaces(&v("ab"), 0), 0);
    assert_eq!(skip_spaces(&v("a  b"), 1), 3);
    assert_eq!(skip_spaces(&v("   "), 0), 3);
    for c in ['\t', '\n', '\u{b}', '\u{c}', '\r', ' ', '\u{85}', '\u{a0}', '\u{1680}', '\u{2000}', '\u{200a}', '\u{2028}', '\u{2029}', '\u{202f}', '\u{205f}', '\u{3000}'] {
        assert!(is_space_char(c));
        assert!(c.is_whitespace());
    }
    for c in ['a', '\u{200b}', '\u{feff}', '\u{1c}', '\u{0}'] {
        assert_eq!(is_space_char(c), c.is_whitespace());
    }
}

#[test]
fn first_lines_end_at_the_line_feed() {
    assert_eq!(first_line_of("one\ntwo"), Some("one".to_string()));
    assert_eq!(first_line_of("one\r\ntwo"), Some("one".to_string()));
    assert_eq!(first_line_of("one\r"), Some("one\r".to_string()));
    assert_eq!(first_line_of("\n"), Some(String::new()));
    assert_eq!(first_line_of("\r\n"), Some(String::new()));
    assert_eq!(first_line_of(""), None);
    for s in ["a\nb", "a\r\nb", "a\r", "\n", "", "x", "\r\n", "\r"] {
        assert_eq!(first_line_of(s), s.lines().next().map(|l| l.to_string()));
    }
}

#[test]
fn numbers_are_written_in_decimal() {
    assert_eq!(decimal(0), "0");
    assert_eq!(decimal(7), "7");
    assert_eq!(decimal(10), "10");
    assert_eq!(decimal(1234567890), "1234567890");
    assert_eq!(decimal(usize::MAX), usize::MAX.to_string());
}

#[test]
fn folding_makes_capital_ascii_letters_small() {
    assert_eq!(fold_one('A'), 'a');
    assert_eq!(fold_one('Z'), 'z');
    assert_eq!(fold_one('a'), 'a');
    assert_eq!(fold_one('É'), 'É');
    assert_eq!(fold_one('@'), '@');
    assert_eq!(fold_one('['), '[');
    assert_eq!(folded_chars("Hello WÖRLD 1"), v("hello wÖrld 1"));
}

#[test]
fn texts_are_ordered_by_their_characters() {
    assert!(str_le("", ""));
    assert!(str_le("", "a"));
    assert!(!str_le("a", ""));
    assert!(str_le("a", "a"));
    assert!(str_le("a", "ab"));
    assert!(!str_le("ab", "a"));
    assert!(str_le("Z", "a"));
    assert!(str_le("a", "é"));
    assert!(!str_le("b", "a"));
    assert!(chars_le(&v("2020-01-01"), &v("2020-01-02")));
    for (a, b) in [("apple", "apple-pie"), ("é", "z"), ("a", "B"), ("", "x"), ("same", "same")] {
        assert_eq!(str_le(a, b), a <= b);
        assert_eq!(str_le(b, a), b <= a);
    }
}

#[test]
fn sorting_is_stable() {
    let pair = |a: &str, b: &str| LinkPair { original: a.to_string(), replacement: b.to_string() };
    let sorted = sort_ranked(vec![pair("bb", "1"), pair("a", "2"), pair("cc", "3"), pair("dddd", "4"), pair("e", "5")]);
    let got: Vec<&str> = sorted.iter().map(|p| p.replacement.as_str()).collect();
    assert_eq!(got, vec!["4", "1", "3", "2", "5"]);
    assert!(sort_ranked(Vec::<LinkPair>::new()).is_empty());
}

#[test]
fn the_default_settings() {
    let c = Config::default();
    assert_eq!(c.server.host, "127.0.0.1");
    assert_eq!(c.server.port, 8080);
    assert_eq!(c.paths.content_dir, "content");
    assert_eq!(c.paths.storage_database_path, "storage.db");
    assert_eq!(c.site.title, "My Collections");
    assert_eq!(c.site.url, "http://localhost:8080");
    assert!(verify_admin_password(&c, "admin"));
    assert!(!verify_admin_password(&c, "Admin"));
    assert!(!verify_admin_password(&c, ""));
    let d = c.clone();
    assert_eq!(d.site.author, "xiaolinfeng");
}

#[test]
fn a_replaced_pattern_is_gone_where_it_stands_apart_from_its_replacement() {
    assert!(stand_apart("attachment/pic.jpg", "attachment/apple_1.jpg"));
    assert!(stand_apart("attachment/photo.png", "attachment/item_1.png"));
    assert!(stand_apart("b", "a"));
    assert!(!stand_apart("a", "attachment/a"));
    assert!(!stand_apart("attachment/a", "a"));
    assert!(!stand_apart("ab", "b"));
    assert!(!stand_apart("ab", "ca"));
    assert!(!stand_apart("ab", "bc"));
    assert!(!stand_apart("", "a"));
    assert!(!stand_apart("a", ""));
    assert!(!stand_apart("x", "x"));
    let mut state: u64 = 9;
    let mut next = |n: usize| -> usize {
        state = state.wrapping_mul(6364136223846793005).wrapping_add(1442695040888963407);
        ((state >> 33) % (n as u64)) as usize
    };
    let alphabet = ['a', 'b', 'c'];
    for _ in 0..4000 {
        let mut text = |longest: usize| -> String {
            let len = 1 + next(longest);
            (0..len).map(|_| alphabet[next(3)]).collect()
        };
        let pat = text(3);
        let to = text(3);
        let s = text(10);
        if stand_apart(&pat, &to) {
            assert!(!str_replace(&s, &pat, &to).contains(pat.as_str()), "{:?} {:?} {:?}", s, pat, to);
        }
    }
    assert_eq!(str_replace("aab", "ab", "b"), "ab");
}
