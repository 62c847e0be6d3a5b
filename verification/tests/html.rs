use org_render::export::{extract_body_content, render_html};
use org_render::html::HtmlExportWithUrls;
use org_render::tree::{
    Container, Event, Headline, Keyword, Kind, Link, List, ListItem, Node, OrgTableRow, Snippet,
    SourceBlock, Timestamp, TimestampToken,
};

fn branch(kind: Kind, children: Vec<Node>) -> Node {
    Node::Container(Container { kind, children })
}

fn text(s: &str) -> Node {
    Node::Text(s.to_string())
}

fn keyword(key: &str, value: &str) -> Node {
    branch(
        Kind::Keyword(Keyword { key: key.to_string(), value: value.to_string() }),
        vec![text("never shown")],
    )
}

fn link(path: &str, image: bool, children: Vec<Node>) -> Node {
    let description = !children.is_empty();
    branch(Kind::Link(Link { path: path.to_string(), image, description }), children)
}

fn headline(level: usize, title: &str, children: Vec<Node>) -> Node {
    branch(
        Kind::Headline(Headline {
            level,
            raw_title: title.to_string(),
            title: vec![text(title)],
        }),
        children,
    )
}

fn render(node: Node) -> String {
    render_html(&node)
}

#[test]
fn document_is_wrapped_in_one_root() {
    assert_eq!(render(branch(Kind::Document, vec![])), "<main></main>");
}

#[test]
fn paragraph_with_text() {
    let doc = branch(Kind::Document, vec![branch(Kind::Paragraph, vec![text("Hello <world>")])]);
    assert_eq!(render(doc), "<main><p>Hello &lt;world&gt;</p></main>");
}

#[test]
fn paragraph_with_only_attr_html_keyword_leaves_no_trace() {
    let doc = branch(
        Kind::Document,
        vec![
            branch(Kind::Paragraph, vec![keyword("ATTR_HTML", " :width 300")]),
            branch(Kind::Paragraph, vec![text("after")]),
        ],
    );
    assert_eq!(render(doc), "<main><p>after</p></main>");
}

#[test]
fn empty_paragraph_leaves_no_trace() {
    let doc = branch(Kind::Document, vec![branch(Kind::Paragraph, vec![]), text("x")]);
    assert_eq!(render(doc), "<main>x</main>");
}

#[test]
fn pending_attributes_are_cleared_when_a_paragraph_closes() {
    let doc = branch(
        Kind::Document,
        vec![
            keyword("attr_html", ":class wide"),
            branch(Kind::Paragraph, vec![text("no link here")]),
            branch(Kind::Paragraph, vec![link("https://example.com", false, vec![])]),
        ],
    );
    assert_eq!(
        render(doc),
        "<main><p>no link here</p><p><a href=\"https://example.com\">https://example.com</a></p></main>"
    );
}

#[test]
fn attributes_go_to_the_next_link_and_merge() {
    let doc = branch(
        Kind::Document,
        vec![
            keyword("ATTR_HTML", ":class a :id one"),
            keyword("attr_html", ":class b"),
            branch(
                Kind::Paragraph,
                vec![link("x.html", false, vec![text("X")]), link("y.html", false, vec![text("Y")])],
            ),
        ],
    );
    assert_eq!(
        render(doc),
        "<main><p><a href=\"x.html\" class=\"b\" id=\"one\">X</a><a href=\"y.html\">Y</a></p></main>"
    );
}

#[test]
fn other_keywords_are_dropped() {
    let doc = branch(Kind::Document, vec![keyword("TITLE", "T"), text("x")]);
    assert_eq!(render(doc), "<main>x</main>");
}

#[test]
fn heading_levels_are_clamped_and_anchored() {
    let doc = branch(
        Kind::Document,
        vec![headline(1, "Hello World", vec![]), headline(5, "Deep", vec![]), headline(9, "Deeper", vec![])],
    );
    assert_eq!(
        render(doc),
        "<main><h2 id=\"hello-world\">Hello World</h2><h6 id=\"deep\">Deep</h6><h6 id=\"deeper\">Deeper</h6></main>"
    );
}

#[test]
fn heading_title_is_rendered_from_its_nodes() {
    let h = Headline {
        level: 2,
        raw_title: "A *b* & c".to_string(),
        title: vec![text("A "), branch(Kind::Bold, vec![text("b")]), text(" & c")],
    };
    let doc = branch(Kind::Headline(h), vec![branch(Kind::Section, vec![text("body")])]);
    assert_eq!(render(doc), "<h3 id=\"a-b-c\">A <b>b</b> &amp; c</h3><section>body</section>");
}

#[test]
fn inline_markup() {
    let doc = branch(
        Kind::Paragraph,
        vec![
            branch(Kind::Italic, vec![text("i")]),
            branch(Kind::Bold, vec![text("b")]),
            branch(Kind::Strike, vec![text("s")]),
            branch(Kind::Underline, vec![text("u")]),
            branch(Kind::Subscript, vec![text("1")]),
            branch(Kind::Superscript, vec![text("2")]),
        ],
    );
    assert_eq!(render(doc), "<p><i>i</i><b>b</b><s>s</s><u>u</u><sub>1</sub><sup>2</sup></p>");
}

#[test]
fn urls_in_code_and_verbatim_are_not_linked() {
    let doc = branch(
        Kind::Paragraph,
        vec![
            branch(Kind::Code, vec![text("https://example.com/a")]),
            branch(Kind::Verbatim, vec![text("<https://example.com/b>")]),
            text("https://example.com/c"),
        ],
    );
    assert_eq!(
        render(doc),
        "<p><code>https://example.com/a</code><code>&lt;https://example.com/b&gt;</code>\
         <a href=\"https://example.com/c\">https://example.com/c</a></p>"
    );
}

#[test]
fn blocks() {
    let doc = branch(
        Kind::Document,
        vec![
            branch(Kind::SourceBlock(SourceBlock { language: Some("c<>".to_string()) }), vec![text("x")]),
            branch(Kind::SourceBlock(SourceBlock { language: None }), vec![text("y")]),
            branch(Kind::QuoteBlock, vec![text("q")]),
            branch(Kind::VerseBlock, vec![text("v")]),
            branch(Kind::ExampleBlock, vec![text("e")]),
            branch(Kind::CenterBlock, vec![text("c")]),
            branch(Kind::CommentBlock, vec![text("k")]),
            branch(Kind::Comment, vec![text("m")]),
        ],
    );
    assert_eq!(
        render(doc),
        "<main><div class=\"org-src-container\"><pre class=\"src src-c&lt;&gt;\">x</pre></div>\
         <div class=\"org-src-container\"><pre class=\"src\">y</pre></div>\
         <blockquote>q</blockquote><p class=\"verse\">v</p><pre class=\"example\">e</pre>\
         <div class=\"center\">c</div><!--k--><!--m--></main>"
    );
}

#[test]
fn lists_choose_their_items_by_kind() {
    let item = |s: &str| branch(Kind::ListItem(ListItem { tag: vec![] }), vec![text(s)]);
    let term = |t: &str, s: &str| branch(Kind::ListItem(ListItem { tag: vec![text(t)] }), vec![text(s)]);
    let doc = branch(
        Kind::Document,
        vec![
            branch(Kind::List(List { ordered: true, descriptive: false }), vec![item("one")]),
            branch(Kind::List(List { ordered: false, descriptive: false }), vec![item("two")]),
            branch(
                Kind::List(List { ordered: false, descriptive: true }),
                vec![
                    term("T", "three"),
                    branch(
                        Kind::ListItem(ListItem { tag: vec![text("U")] }),
                        vec![branch(Kind::List(List { ordered: false, descriptive: false }), vec![item("in")])],
                    ),
                ],
            ),
        ],
    );
    assert_eq!(
        render(doc),
        "<main><ol><li>one</li></ol><ul><li>two</li></ul><dl><dt>T</dt><dd>three</dd>\
         <dt>U</dt><dd><ul><li>in</li></ul></dd></dl></main>"
    );
}

#[test]
fn table_with_a_rule_row_has_one_row() {
    let cell = |s: &str| branch(Kind::OrgTableCell, vec![text(s)]);
    let doc = branch(
        Kind::OrgTable,
        vec![
            branch(Kind::OrgTableRow(OrgTableRow { rule: false }), vec![cell("a"), cell("b")]),
            branch(Kind::OrgTableRow(OrgTableRow { rule: true }), vec![cell("-")]),
        ],
    );
    let html = render(doc);
    assert_eq!(html, "<table><tr><td>a</td><td>b</td></tr></table>");
    assert_eq!(html.matches("<tr>").count(), 1);
}

#[test]
fn links_are_closed_exactly_once() {
    let doc = branch(
        Kind::Paragraph,
        vec![
            link("file:notes.org", false, vec![]),
            link("file:file:a&b.org", false, vec![text("A"), branch(Kind::Bold, vec![text("B")])]),
        ],
    );
    assert_eq!(
        render(doc),
        "<p><a href=\"notes.org\">notes.org</a><a href=\"a&amp;b.org\">A<b>B</b></a></p>"
    );
}

#[test]
fn image_link_carries_pending_attributes_without_empty_alt() {
    let doc = branch(
        Kind::Document,
        vec![
            keyword("attr_html", ":alt :width 300"),
            branch(Kind::Paragraph, vec![link("file:cat.png", true, vec![text("skipped")])]),
        ],
    );
    assert_eq!(render(doc), "<main><p><img src=\"cat.png\" width=\"300\"></p></main>");
}

#[test]
fn anchor_link_keeps_an_empty_alt() {
    let doc = branch(
        Kind::Document,
        vec![keyword("attr_html", ":alt"), link("page.html", false, vec![text("P")])],
    );
    assert_eq!(render(doc), "<main><a href=\"page.html\" alt=\"\">P</a></main>");
}

#[test]
fn leaves() {
    let doc = branch(
        Kind::Paragraph,
        vec![
            Node::LineBreak,
            Node::Rule,
            Node::Snippet(Snippet { backend: "HTML".to_string(), value: "<em>raw</em>".to_string() }),
            Node::Snippet(Snippet { backend: "latex".to_string(), value: "\\dropped".to_string() }),
            Node::LatexFragment("$x<y$".to_string()),
            Node::LatexEnvironment("\\begin{a}\\end{a}".to_string()),
            Node::Entity("&alpha;".to_string()),
            Node::Other,
        ],
    );
    assert_eq!(render(doc), "<p><br/><hr/><em>raw</em>$x<y$\\begin{a}\\end{a}&alpha;</p>");
}

#[test]
fn timestamp_range_gets_an_en_dash() {
    let ts = Timestamp {
        tokens: vec![
            TimestampToken::Text("<2024-01-01>".to_string()),
            TimestampToken::Minus2,
            TimestampToken::Text("<2024-01-02>".to_string()),
        ],
    };
    assert_eq!(
        render(Node::Timestamp(ts)),
        "<span class=\"timestamp-wrapper\"><span class=\"timestamp\"><2024-01-01>&#x2013;<2024-01-02></span></span>"
    );
}

#[test]
fn other_containers_show_only_what_they_hold() {
    let doc = branch(Kind::Other, vec![text("x"), branch(Kind::Other, vec![text("y")])]);
    assert_eq!(render(doc), "xy");
}

#[test]
fn event_says_when_to_skip() {
    let rule = Container { kind: Kind::OrgTableRow(OrgTableRow { rule: true }), children: vec![] };
    let row = Container { kind: Kind::OrgTableRow(OrgTableRow { rule: false }), children: vec![] };
    let kw = Container {
        kind: Kind::Keyword(Keyword { key: "x".to_string(), value: String::new() }),
        children: vec![],
    };
    let mut exporter = HtmlExportWithUrls::new();
    assert!(exporter.event(Event::Enter(&rule)));
    assert!(!exporter.event(Event::Enter(&row)));
    assert!(exporter.event(Event::Enter(&kw)));
    assert!(!exporter.event(Event::Leave(&row)));
    assert!(!exporter.event(Event::Rule));
    assert_eq!(exporter.finish(), "<tr></tr><hr/>");
}

#[test]
fn handlers_write_their_tags() {
    let mut exporter = HtmlExportWithUrls::new();
    exporter.handle_document_enter();
    exporter.open_tag("section");
    exporter.enter_inline_code();
    exporter.handle_text("https://example.com/x");
    exporter.leave_inline_code();
    exporter.handle_text("https://example.com/x");
    exporter.append_escaped_char('&');
    exporter.escape_text_only("<>");
    exporter.close_tag("section");
    exporter.handle_document_leave();
    assert_eq!(
        exporter.finish(),
        "<main><section><code>https://example.com/x</code>\
         <a href=\"https://example.com/x\">https://example.com/x</a>&amp;&lt;&gt;</section></main>"
    );
}

#[test]
fn paragraph_leave_without_enter_closes() {
    let mut exporter = HtmlExportWithUrls::new();
    exporter.write("text");
    exporter.handle_paragraph_leave();
    assert_eq!(exporter.finish(), "text</p>");
}

#[test]
fn list_item_leave_follows_the_innermost_list() {
    let mut exporter = HtmlExportWithUrls::new();
    exporter.handle_list_item_leave();
    let descriptive = List { ordered: false, descriptive: true };
    exporter.handle_list_enter(&descriptive);
    exporter.handle_list_item_leave();
    exporter.handle_list_leave(&descriptive);
    exporter.handle_list_item_leave();
    exporter.handle_list_leave(&List { ordered: true, descriptive: false });
    exporter.handle_list_leave(&List { ordered: false, descriptive: false });
    assert_eq!(exporter.finish(), "</li><dl></dd></dl></li></ol></ul>");
}

#[test]
fn take_pending_attributes_clears_them() {
    let mut exporter = HtmlExportWithUrls::new();
    assert_eq!(exporter.take_pending_attrs_string(false), "");
    exporter.merge_pending_attributes(HtmlExportWithUrls::parse_attr_html(":a 1"));
    exporter.merge_pending_attributes(HtmlExportWithUrls::parse_attr_html(":b 2 :a 3"));
    assert_eq!(exporter.take_pending_attrs_string(false), " a=\"3\" b=\"2\"");
    assert_eq!(exporter.take_pending_attrs_string(false), "");
}

#[test]
fn body_content_is_taken_from_between_the_delimiters() {
    assert_eq!(
        extract_body_content("<html><body><div> \n inner text \t</body></html>"),
        "<div> \n inner text"
    );
    assert_eq!(extract_body_content("<body><p>x</p></body>"), "<p>x</p>");
    assert_eq!(extract_body_content("a<body> \n x y \t</body>b</body>"), "x y");
    assert_eq!(extract_body_content("<body></body>"), "");
    assert_eq!(extract_body_content("</body><body>x</body>"), "x");
    assert_eq!(extract_body_content("<main><p>x</p></main>"), "<main><p>x</p></main>");
    assert_eq!(extract_body_content("<body>no close"), "<body>no close");
    assert_eq!(extract_body_content("</body><body><x>"), "</body><body><x>");
    assert_eq!(extract_body_content(""), "");
}

#[test]
fn strip_file_scheme_takes_every_leading_prefix() {
    assert_eq!(HtmlExportWithUrls::strip_file_scheme("file:a.org"), "a.org");
    assert_eq!(HtmlExportWithUrls::strip_file_scheme("file:file:a.org"), "a.org");
    assert_eq!(HtmlExportWithUrls::strip_file_scheme("a.org#file:"), "a.org#file:");
    assert_eq!(HtmlExportWithUrls::strip_file_scheme("file:"), "");
}

#[test]
fn heading_level_is_one_deeper_up_to_six() {
    let mut exporter = HtmlExportWithUrls::new();
    for level in [0usize, 1, 4, 5, 6, usize::MAX] {
        exporter.open_heading(level, "x");
        exporter.close_heading(level);
    }
    assert_eq!(
        exporter.finish(),
        "<h1 id=\"x\"></h1><h2 id=\"x\"></h2><h5 id=\"x\"></h5><h6 id=\"x\"></h6>\
         <h6 id=\"x\"></h6><h6 id=\"x\"></h6>"
    );
    assert_eq!(HtmlExportWithUrls::heading_digit(0), '1');
    assert_eq!(HtmlExportWithUrls::heading_digit(3), '4');
    assert_eq!(HtmlExportWithUrls::heading_digit(5), '6');
}

#[test]
fn nested_paragraphs_are_taken_back_from_the_inside() {
    let doc = branch(
        Kind::Document,
        vec![branch(Kind::Paragraph, vec![branch(Kind::Paragraph, vec![]), branch(Kind::Paragraph, vec![])])],
    );
    assert_eq!(render(doc), "<main></main>");
    let doc = branch(Kind::Paragraph, vec![branch(Kind::Paragraph, vec![]), text("x")]);
    assert_eq!(render(doc), "<p>x</p>");
}

#[test]
fn paragraph_with_empty_text_is_taken_back() {
    let doc = branch(Kind::Paragraph, vec![text(""), Node::Other]);
    assert_eq!(render(doc), "");
}

#[test]
fn skipped_containers_are_not_left() {
    let doc = branch(
        Kind::Document,
        vec![
            link("a.html", false, vec![]),
            branch(
                Kind::Link(Link { path: "b.html".to_string(), image: false, description: false }),
                vec![text("never shown")],
            ),
            branch(Kind::OrgTableRow(OrgTableRow { rule: true }), vec![text("never shown")]),
        ],
    );
    assert_eq!(
        render(doc),
        "<main><a href=\"a.html\">a.html</a><a href=\"b.html\">b.html</a></main>"
    );
}

#[test]
fn elements_are_walked_in_order() {
    let mut exporter = HtmlExportWithUrls::new();
    exporter.elements(&vec![text("a"), branch(Kind::Bold, vec![text("b")]), Node::Rule]);
    exporter.element(&text("c"));
    assert_eq!(exporter.finish(), "a<b>b</b><hr/>c");
}

#[test]
fn url_starting_at_finds_both_schemes() {
    let chars: Vec<char> = "x http://example.com/a https://example.com/".chars().collect();
    assert_eq!(HtmlExportWithUrls::url_starting_at(&chars, 0), None);
    assert_eq!(
        HtmlExportWithUrls::url_starting_at(&chars, 2),
        Some(("http://example.com/a".to_string(), 22))
    );
    assert_eq!(
        HtmlExportWithUrls::url_starting_at(&chars, 23),
        Some(("https://example.com/".to_string(), 43))
    );
    assert_eq!(HtmlExportWithUrls::url_starting_at(&chars, 43), None);
    assert_eq!(HtmlExportWithUrls::url_starting_at(&chars, 99), None);
}

#[test]
fn descriptive_state_follows_the_innermost_list() {
    let mut exporter = HtmlExportWithUrls::new();
    assert!(!exporter.in_descriptive());
    exporter.handle_list_enter(&List { ordered: false, descriptive: true });
    assert!(exporter.in_descriptive());
    let ordered = List { ordered: true, descriptive: true };
    exporter.handle_list_enter(&ordered);
    assert!(!exporter.in_descriptive());
    exporter.handle_list_leave(&ordered);
    assert!(exporter.in_descriptive());
    assert_eq!(exporter.finish(), "<dl><ol></ol>");
}
