use org_render::attrs::{tokenize, Attributes};
use org_render::html::HtmlExportWithUrls;

fn pairs(attrs: &Attributes) -> Vec<(String, String)> {
    let mut out = Vec::new();
    for i in 0..attrs.len() {
        out.push((attrs.key(i).clone(), attrs.value(i).clone()));
    }
    out
}

fn pair(k: &str, v: &str) -> (String, String) {
    (k.to_string(), v.to_string())
}

#[test]
fn quoted_value_and_bare_value() {
    let attrs = HtmlExportWithUrls::parse_attr_html(":alt \"a cat\" :width 300");
    assert_eq!(pairs(&attrs), vec![pair("alt", "a cat"), pair("width", "300")]);
    assert_eq!(attrs.get("alt"), Some(&"a cat".to_string()));
    assert_eq!(attrs.get("width"), Some(&"300".to_string()));
    assert_eq!(attrs.get("height"), None);
}

#[test]
fn key_followed_by_key_has_empty_value() {
    let attrs = HtmlExportWithUrls::parse_attr_html(":novalue :width 300");
    assert_eq!(pairs(&attrs), vec![pair("novalue", ""), pair("width", "300")]);
    let last = HtmlExportWithUrls::parse_attr_html(":novalue");
    assert_eq!(pairs(&last), vec![pair("novalue", "")]);
}

#[test]
fn later_key_overwrites_earlier() {
    let attrs = HtmlExportWithUrls::parse_attr_html(":a 1 :b 2 :a 3");
    assert_eq!(pairs(&attrs), vec![pair("a", "3"), pair("b", "2")]);
}

#[test]
fn fullwidth_colon_names_a_key() {
    let attrs = HtmlExportWithUrls::parse_attr_html("\u{FF1A}alt cat");
    assert_eq!(pairs(&attrs), vec![pair("alt", "cat")]);
}

#[test]
fn empty_key_and_stray_tokens_are_passed_over() {
    let attrs = HtmlExportWithUrls::parse_attr_html("stray : :k v more");
    assert_eq!(pairs(&attrs), vec![pair("k", "v")]);
    assert_eq!(HtmlExportWithUrls::parse_attr_html("").len(), 0);
    assert_eq!(HtmlExportWithUrls::parse_attr_html("no keys here").len(), 0);
}

#[test]
fn doubled_quote_is_a_literal_quote() {
    assert_eq!(tokenize(":t \"say \"\"hi\"\" now\""), vec![":t".to_string(), "say \"hi\" now".to_string()]);
}

#[test]
fn tokens_are_cut_at_whitespace_outside_quotes() {
    assert_eq!(
        tokenize("  a\tb\u{3000}c \"d e\"f  "),
        vec!["a".to_string(), "b".to_string(), "c".to_string(), "d ef".to_string()]
    );
    assert_eq!(tokenize("\"\""), Vec::<String>::new());
    assert_eq!(tokenize("\"open to the end"), vec!["open to the end".to_string()]);
}

#[test]
fn insert_replaces_in_place_and_extend_merges() {
    let mut a = Attributes::new();
    a.insert("x".to_string(), "1".to_string());
    a.insert("y".to_string(), "2".to_string());
    a.insert("x".to_string(), "3".to_string());
    assert_eq!(pairs(&a), vec![pair("x", "3"), pair("y", "2")]);
    let mut b = Attributes::new();
    b.insert("y".to_string(), "9".to_string());
    b.insert("z".to_string(), "8".to_string());
    a.extend(&b);
    assert_eq!(pairs(&a), vec![pair("x", "3"), pair("y", "9"), pair("z", "8")]);
}

#[test]
fn attributes_are_written_with_escaped_values() {
    let mut a = Attributes::new();
    a.insert("title".to_string(), "a \"b\" <c>".to_string());
    a.insert("ALT".to_string(), String::new());
    assert_eq!(
        HtmlExportWithUrls::attrs_string(&a, false),
        " title=\"a &quot;b&quot; &lt;c&gt;\" ALT=\"\""
    );
    assert_eq!(HtmlExportWithUrls::attrs_string(&a, true), " title=\"a &quot;b&quot; &lt;c&gt;\"");
}
