use detrack_proxy::text::{
    chars_of, decimal_digits, followed_by, has_substring, has_suffix,
    join, lex_lt, list_contains, list_remove, matches_at, same_chars, split, trim,
};

fn text(chars: Vec<char>) -> String {
    chars.into_iter().collect()
}

#[test]
fn chars_of_keeps_every_character_in_order() {
    assert_eq!(chars_of("aé漢🚫"), vec!['a', 'é', '漢', '🚫']);
    assert_eq!(chars_of(""), Vec::<char>::new());
}

#[test]
fn decimal_digits_of_a_port() {
    assert_eq!(text(decimal_digits(8100)), "8100");
    assert_eq!(text(decimal_digits(0)), "0");
    assert_eq!(text(decimal_digits(10)), "10");
    assert_eq!(text(decimal_digits(u64::MAX)), "18446744073709551615");
}

#[test]
fn trim_removes_outer_white_space_only() {
    assert_eq!(text(trim(&chars_of("  a b\t\r\n"))), "a b");
    assert_eq!(text(trim(&chars_of("\u{a0}x\u{3000}"))), "x");
    assert_eq!(text(trim(&chars_of(" \t "))), "");
    assert_eq!(text(trim(&chars_of(""))), "");
    assert_eq!(text(trim(&chars_of("abc"))), "abc");
}

#[test]
fn trim_agrees_with_the_standard_library() {
    for s in ["", " ", "a", " a", "a ", "  ads.example.com \r", "\n#c\n", "a  b"] {
        assert_eq!(text(trim(&chars_of(s))), s.trim());
    }
}

#[test]
fn split_keeps_empty_pieces() {
    let pieces = split(&chars_of("/a//b/"), '/');
    let texts: Vec<String> = pieces.into_iter().map(text).collect();
    assert_eq!(texts, vec!["", "a", "", "b", ""]);
}

#[test]
fn split_of_a_text_without_separator_is_the_text() {
    let pieces = split(&chars_of("abc"), '\n');
    assert_eq!(pieces, vec![chars_of("abc")]);
    let pieces = split(&chars_of(""), '\n');
    assert_eq!(pieces, vec![Vec::<char>::new()]);
}

#[test]
fn join_puts_the_separator_between_neighbours() {
    let parts = vec![chars_of("a=1"), chars_of("b=2"), chars_of("c=3")];
    assert_eq!(text(join(&parts, &chars_of("&"))), "a=1&b=2&c=3");
    assert_eq!(text(join(&vec![chars_of("x")], &chars_of("&"))), "x");
    assert_eq!(text(join(&Vec::new(), &chars_of("&"))), "");
}

#[test]
fn join_undoes_split() {
    let s = chars_of("one\ntwo\n\nthree");
    assert_eq!(join(&split(&s, '\n'), &chars_of("\n")), s);
}

#[test]
fn suffix_and_substring() {
    let host = chars_of("cdn.example.com");
    assert!(has_suffix(&host, &chars_of(".example.com")));
    assert!(has_suffix(&host, &chars_of("")));
    assert!(has_suffix(&host, &host));
    assert!(!has_suffix(&host, &chars_of("xcdn.example.com")));
    assert!(!has_suffix(&host, &chars_of("example.org")));
    assert!(has_substring(&host, &chars_of("example")));
    assert!(has_substring(&host, &chars_of("")));
    assert!(has_substring(&host, &chars_of("com")));
    assert!(!has_substring(&host, &chars_of("exampel")));
    assert!(!has_substring(&chars_of("ab"), &chars_of("abc")));
}

#[test]
fn matches_at_checks_the_position() {
    let s = chars_of("abcabc");
    assert!(matches_at(&s, &chars_of("abc"), 0));
    assert!(matches_at(&s, &chars_of("abc"), 3));
    assert!(!matches_at(&s, &chars_of("abc"), 1));
    assert!(!matches_at(&s, &chars_of("abc"), 4));
    assert!(!matches_at(&s, &chars_of("abc"), usize::MAX));
    assert!(matches_at(&s, &chars_of(""), 6));
    assert!(!matches_at(&s, &chars_of(""), 7));
}

#[test]
fn same_chars_is_equality() {
    assert!(same_chars(&chars_of("abc"), &chars_of("abc")));
    assert!(!same_chars(&chars_of("abc"), &chars_of("abd")));
    assert!(!same_chars(&chars_of("abc"), &chars_of("ab")));
}

#[test]
fn lex_lt_orders_as_strings_do() {
    let words = ["", "a", "ab", "b", "B", "ads.example.com", "example.com", "é", "z", "漢"];
    for a in words {
        for b in words {
            assert_eq!(lex_lt(&chars_of(a), &chars_of(b)), a < b, "{a:?} < {b:?}");
        }
    }
}

#[test]
fn list_contains_and_list_remove() {
    let mut list = vec!["a.com".to_string(), "b.com".to_string(), "a.com".to_string()];
    assert!(list_contains(&list, "b.com"));
    assert!(!list_contains(&list, "c.com"));
    list_remove(&mut list, "a.com");
    assert_eq!(list, vec!["b.com".to_string()]);
    list_remove(&mut list, "zzz");
    assert_eq!(list, vec!["b.com".to_string()]);
}

#[test]
fn concat_appends() {
    assert_eq!(followed_by("➕ Added tracker: ", "x.com"), "➕ Added tracker: x.com");
}
