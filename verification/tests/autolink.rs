use org_render::html::HtmlExportWithUrls;
use org_render::attrs::Attributes;

fn autolink(text: &str) -> String {
    let mut exporter = HtmlExportWithUrls::new();
    exporter.process_text_with_urls(text);
    exporter.finish()
}

fn chars(text: &str) -> Vec<char> {
    text.chars().collect()
}

#[test]
fn url_ends_before_unmatched_parenthesis_and_period() {
    assert_eq!(
        autolink("See https://example.com/path)."),
        "See <a href=\"https://example.com/path\">https://example.com/path</a>)."
    );
}

#[test]
fn url_keeps_balanced_parentheses() {
    assert_eq!(
        autolink("https://example.com/a(b)c"),
        "<a href=\"https://example.com/a(b)c\">https://example.com/a(b)c</a>"
    );
}

#[test]
fn short_url_is_not_linked() {
    assert_eq!(autolink("http://a"), "http://a");
}

#[test]
fn url_of_eleven_characters_is_linked() {
    assert_eq!(autolink("http://abcd"), "<a href=\"http://abcd\">http://abcd</a>");
    assert_eq!(autolink("http://abc"), "http://abc");
}

#[test]
fn rejected_url_resumes_one_character_later() {
    assert_eq!(
        autolink("http://<https://example.com/x>"),
        "http://&lt;<a href=\"https://example.com/x\">https://example.com/x</a>&gt;"
    );
}

#[test]
fn plain_text_is_escaped_character_by_character() {
    assert_eq!(autolink("a < b & \"c\" 'd' > e"), "a &lt; b &amp; &quot;c&quot; &apos;d&apos; &gt; e");
}

#[test]
fn trailing_punctuation_is_trimmed_from_url() {
    assert_eq!(
        autolink("Go to https://example.com/page?!, now"),
        "Go to <a href=\"https://example.com/page\">https://example.com/page</a>?!, now"
    );
}

#[test]
fn url_stops_at_cjk_punctuation() {
    assert_eq!(
        autolink("https://example.com/x\u{3002}y"),
        "<a href=\"https://example.com/x\">https://example.com/x</a>\u{3002}y"
    );
}

#[test]
fn fullwidth_parentheses_are_balanced_on_their_own() {
    assert_eq!(
        autolink("https://example.com/a\u{FF08}b\u{FF09}c"),
        "<a href=\"https://example.com/a\u{FF08}b\u{FF09}c\">https://example.com/a\u{FF08}b\u{FF09}c</a>"
    );
    assert_eq!(
        autolink("https://example.com/a(b\u{FF09}c"),
        "<a href=\"https://example.com/a(b\">https://example.com/a(b</a>\u{FF09}c"
    );
}

#[test]
fn url_query_is_escaped_in_href_and_text() {
    assert_eq!(
        autolink("https://example.com/?a=1&b=2"),
        "<a href=\"https://example.com/?a=1&amp;b=2\">https://example.com/?a=1&amp;b=2</a>"
    );
}

#[test]
fn extract_url_gives_url_and_end() {
    let text = chars("https://example.com/path).");
    let found = HtmlExportWithUrls::extract_url(&text, 8, "https://");
    assert_eq!(found, Some(("https://example.com/path".to_string(), 24)));
}

#[test]
fn extract_url_rejects_short_candidate() {
    let text = chars("http://a");
    assert_eq!(HtmlExportWithUrls::extract_url(&text, 7, "http://"), None);
    let empty = chars("http://");
    assert_eq!(HtmlExportWithUrls::extract_url(&empty, 7, "http://"), None);
}

#[test]
fn image_url_is_told_by_its_path() {
    assert!(HtmlExportWithUrls::is_image_url("https://example.com/cat.png"));
    assert!(HtmlExportWithUrls::is_image_url("https://example.com/CAT.JPG?size=2"));
    assert!(HtmlExportWithUrls::is_image_url("https://example.com/a.jpeg#top"));
    assert!(HtmlExportWithUrls::is_image_url("https://example.com/a.gif"));
    assert!(HtmlExportWithUrls::is_image_url("https://example.com/a.webp"));
    assert!(HtmlExportWithUrls::is_image_url("https://example.com/a.svg"));
    assert!(HtmlExportWithUrls::is_image_url("https://example.com/a.bmp"));
    assert!(HtmlExportWithUrls::is_image_url("https://example.com/a.avif"));
    assert!(!HtmlExportWithUrls::is_image_url("https://example.com/a.html"));
    assert!(!HtmlExportWithUrls::is_image_url("https://example.com/a?x=.png"));
    assert!(!HtmlExportWithUrls::is_image_url("png"));
}

#[test]
fn image_url_with_pending_attributes_becomes_image() {
    let mut exporter = HtmlExportWithUrls::new();
    let mut attrs = Attributes::new();
    attrs.insert("alt".to_string(), String::new());
    attrs.insert("width".to_string(), "300".to_string());
    exporter.merge_pending_attributes(attrs);
    exporter.process_text_with_urls("https://example.com/cat.png and https://example.com/dog.png");
    assert_eq!(
        exporter.finish(),
        "<img src=\"https://example.com/cat.png\" width=\"300\"> and \
         <a href=\"https://example.com/dog.png\">https://example.com/dog.png</a>"
    );
}

#[test]
fn plain_url_with_pending_attributes_becomes_anchor_with_them() {
    let mut exporter = HtmlExportWithUrls::new();
    let mut attrs = Attributes::new();
    attrs.insert("class".to_string(), "ext".to_string());
    exporter.merge_pending_attributes(attrs);
    exporter.process_text_with_urls("https://example.com/page");
    assert_eq!(
        exporter.finish(),
        "<a href=\"https://example.com/page\" class=\"ext\">https://example.com/page</a>"
    );
}

#[test]
fn multibyte_text_is_kept_whole() {
    assert_eq!(autolink("caf\u{e9} \u{4f60}\u{597d} <"), "caf\u{e9} \u{4f60}\u{597d} &lt;");
}
