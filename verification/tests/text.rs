use org_render::text::{
    chars_of, eq_ignore_ascii_case, find, join, matches_at, split_whitespace, str_eq, string_of,
    to_ascii_lower, trim,
};

fn chars(s: &str) -> Vec<char> {
    s.chars().collect()
}

#[test]
fn lower_case_of_ascii_letters_only() {
    assert_eq!(to_ascii_lower('A'), 'a');
    assert_eq!(to_ascii_lower('Z'), 'z');
    assert_eq!(to_ascii_lower('m'), 'm');
    assert_eq!(to_ascii_lower('@'), '@');
    assert_eq!(to_ascii_lower('['), '[');
    assert_eq!(to_ascii_lower('\u{c9}'), '\u{c9}');
}

#[test]
fn case_insensitive_equality() {
    assert!(eq_ignore_ascii_case("Attr_HTML", "attr_html"));
    assert!(!eq_ignore_ascii_case("attr_html", "attr_htm"));
    assert!(!eq_ignore_ascii_case("\u{c9}", "\u{e9}"));
    assert!(str_eq("abc", "abc"));
    assert!(!str_eq("abc", "abC"));
}

#[test]
fn strings_and_characters_convert_both_ways() {
    assert_eq!(chars_of("h\u{e9}llo"), chars("h\u{e9}llo"));
    assert_eq!(string_of(&chars("h\u{e9}llo")), "h\u{e9}llo");
}

#[test]
fn find_gives_the_first_occurrence() {
    let hay = chars("abcabc");
    assert_eq!(find(&hay, &chars("bc"), 0), Some(1));
    assert_eq!(find(&hay, &chars("bc"), 2), Some(4));
    assert_eq!(find(&hay, &chars("bc"), 5), None);
    assert_eq!(find(&hay, &chars(""), 6), Some(6));
    assert_eq!(find(&hay, &chars("x"), 0), None);
    assert!(matches_at(&hay, &chars("cab"), 2));
    assert!(!matches_at(&hay, &chars("cab"), 5));
}

#[test]
fn trim_takes_whitespace_from_both_ends() {
    assert_eq!(trim("  a b \n"), "a b");
    assert_eq!(trim("\u{a0}\u{3000}x\u{2003}"), "x");
    assert_eq!(trim(" \t "), "");
    assert_eq!(trim(""), "");
    assert_eq!(trim("\u{200b}x"), "\u{200b}x");
}

#[test]
fn words_and_joining() {
    assert_eq!(split_whitespace("  a  bc\td "), vec!["a".to_string(), "bc".to_string(), "d".to_string()]);
    assert_eq!(split_whitespace("   "), Vec::<String>::new());
    assert_eq!(join(&vec!["a".to_string(), "bc".to_string()], " "), "a bc");
    assert_eq!(join(&vec![], " "), "");
    assert_eq!(join(&vec!["only".to_string()], ", "), "only");
}
