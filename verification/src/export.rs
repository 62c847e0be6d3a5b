//! The three artifacts of a document, each made by a fresh visitor in one
//! traversal.

use vstd::prelude::*;
use crate::html::HtmlExportWithUrls;
use crate::render::html_of;
use crate::metadata::{keywords_of, metadata_of, Metadata, MetadataCollector};
use crate::text::{
    chars_of, find, first_occurrence, push_str, string_of, trim_range, trimmed,
};
use crate::toc::{items_of, toc_of, TocBuilder};
use crate::tree::Node;

verus! {

/// The length of the tag that opens a body.
pub const BODY_OPEN_LEN: usize = 6;

/// The index after the first `<body>`: that is where the body's content
/// begins.
pub open spec fn body_start(html: Seq<char>) -> Option<int> {
    match first_occurrence(html, "<body>"@, 0) {
        Some(pos) => Some(pos + BODY_OPEN_LEN),
        None => None,
    }
}

/// The index of the first `</body>` that follows the first `<body>`: that
/// is where the body's content ends.
pub open spec fn body_end(html: Seq<char>) -> Option<int> {
    match body_start(html) {
        Some(start) => first_occurrence(html, "</body>"@, start),
        None => None,
    }
}

/// What stands between the delimiters of the body, without the whitespace
/// around it; the whole text where the delimiters are not both there, in
/// this order.
pub open spec fn body_content(html: Seq<char>) -> Seq<char> {
    match (body_start(html), body_end(html)) {
        (Some(start), Some(end)) => trimmed(html.subrange(start, end)),
        _ => html,
    }
}

/// A text that lacks one of the two delimiters of a body is its own body
/// content.
pub proof fn lemma_body_content_without_delimiters(html: Seq<char>)
    requires
        body_start(html) is None || body_end(html) is None,
    ensures
        body_content(html) == html,
{
}

/// The interior of a rendered page.
pub fn extract_body_content(html: &str) -> (content: String)
    ensures
        content@ == body_content(html@),
{
    let chars = chars_of(html);
    let text = chars.as_slice();
    let open = chars_of("<body>");
    let close = chars_of("</body>");
    proof {
        reveal_strlit("<body>");
    }
    let len = text.len();
    let body_start = match find(text, open.as_slice(), 0) {
        Some(pos) => Some(pos + BODY_OPEN_LEN),
        None => None,
    };
    let body_end = match body_start {
        Some(start) => find(text, close.as_slice(), start),
        None => None,
    };
    match (body_start, body_end) {
        (Some(start), Some(end)) => trim_range(text, start, end),
        _ => string_of(text),
    }
}

/// Renders a document as an HTML fragment.
pub fn render_html(doc: &Node) -> (html: String)
    ensures
        html@ == body_content(html_of(*doc)),
{
    let mut exporter = HtmlExportWithUrls::new();
    exporter.element(doc);
    let html = exporter.finish();
    extract_body_content(html.as_str())
}

/// Renders the table of contents of a document.
pub fn render_toc(doc: &Node) -> (toc: String)
    ensures
        toc@ == toc_of(*doc),
{
    let mut toc_builder = TocBuilder::new();
    toc_builder.element(doc);
    let items = toc_builder.finish();
    let mut out = chars_of("<nav class=\"toc\"><ul>");
    push_str(&mut out, items.as_str());
    push_str(&mut out, "</ul></nav>");
    assert(items@ =~= items_of(*doc));
    string_of(out.as_slice())
}

/// Collects the metadata of a document.
pub fn extract_metadata(doc: &Node) -> (metadata: MetadataCollector)
    ensures
        metadata@ == metadata_of(*doc),
{
    let mut collector = MetadataCollector::new();
    collector.collect(doc);
    proof {
        Metadata::empty().lemma_with_node(*doc);
        Metadata::lemma_first_wins(keywords_of(*doc));
    }
    collector
}

} // verus!
