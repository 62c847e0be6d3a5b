use org_render::export::render_html;
use org_render::tree::{
    Container, Headline, Keyword, Kind, Link, Node, OrgTableRow, SourceBlock, Timestamp,
    TimestampToken,
};

fn branch(kind: Kind, children: Vec<Node>) -> Node {
    Node::Container(Container { kind, children })
}

fn text(s: &str) -> Node {
    Node::Text(s.to_string())
}

/// Whether the tags in `html` are balanced. Escaped text holds no angle
/// bracket, so every `<` begins a tag; tags that end in `/>` and `img` tags
/// stand alone.
fn tags_balanced(html: &str) -> bool {
    let mut open: Vec<String> = Vec::new();
    let mut rest = html;
    while let Some(start) = rest.find('<') {
        let end = match rest[start..].find('>') {
            Some(end) => start + end,
            None => return false,
        };
        let tag = &rest[start + 1..end];
        rest = &rest[end + 1..];
        if tag.ends_with('/') || tag.starts_with("img ") {
            continue;
        }
        if let Some(name) = tag.strip_prefix('/') {
            if open.pop().as_deref() != Some(name) {
                return false;
            }
        } else {
            let name = tag.split(' ').next().unwrap_or("");
            open.push(name.to_string());
        }
    }
    open.is_empty()
}

#[test]
fn tags_of_a_document_without_lists_are_balanced() {
    let heading = Headline {
        level: 1,
        raw_title: "A /b/".to_string(),
        title: vec![text("A "), branch(Kind::Italic, vec![text("b")])],
    };
    let doc = branch(
        Kind::Document,
        vec![branch(
            Kind::Headline(heading),
            vec![branch(
                Kind::Section,
                vec![
                    branch(
                        Kind::Keyword(Keyword { key: "ATTR_HTML".to_string(), value: ":alt x".to_string() }),
                        vec![],
                    ),
                    branch(Kind::Paragraph, vec![]),
                    branch(
                        Kind::Paragraph,
                        vec![
                            text("see https://example.com/a.png and "),
                            branch(Kind::Bold, vec![branch(Kind::Code, vec![text("<x>")])]),
                            branch(
                                Kind::Link(Link { path: "file:a.org".to_string(), image: false, description: true }),
                                vec![text("a")],
                            ),
                            branch(
                                Kind::Link(Link { path: "b.png".to_string(), image: true, description: false }),
                                vec![],
                            ),
                            Node::LineBreak,
                            Node::Timestamp(Timestamp { tokens: vec![TimestampToken::Text("2024".to_string())] }),
                        ],
                    ),
                    branch(Kind::SourceBlock(SourceBlock { language: Some("rust".to_string()) }), vec![text("fn")]),
                    branch(
                        Kind::OrgTable,
                        vec![
                            branch(Kind::OrgTableRow(OrgTableRow { rule: true }), vec![]),
                            branch(
                                Kind::OrgTableRow(OrgTableRow { rule: false }),
                                vec![branch(Kind::OrgTableCell, vec![text("c")])],
                            ),
                        ],
                    ),
                ],
            )],
        )],
    );
    let html = render_html(&doc);
    assert!(tags_balanced(&html), "{}", html);
    assert_eq!(
        html,
        "<main><h2 id=\"a-b\">A <i>b</i></h2><section><p>see \
         <a href=\"https://example.com/a.png\">https://example.com/a.png</a> and \
         <b><code>&lt;x&gt;</code></b><a href=\"a.org\">a</a><img src=\"b.png\"><br/>\
         <span class=\"timestamp-wrapper\"><span class=\"timestamp\">2024</span></span></p>\
         <div class=\"org-src-container\"><pre class=\"src src-rust\">fn</pre></div>\
         <table><tr><td>c</td></tr></table></section></main>"
    );
}

#[test]
fn tags_of_lists_are_balanced() {
    let item = |tag: Vec<Node>, children: Vec<Node>| {
        branch(Kind::ListItem(org_render::tree::ListItem { tag }), children)
    };
    let list = |ordered: bool, descriptive: bool, children: Vec<Node>| {
        branch(Kind::List(org_render::tree::List { ordered, descriptive }), children)
    };
    let plain = list(false, false, vec![item(vec![], vec![text("x")])]);
    assert_eq!(render_html(&plain), "<ul><li>x</li></ul>");
    let doc = branch(
        Kind::Document,
        vec![
            list(true, false, vec![item(vec![], vec![text("one")])]),
            list(
                false,
                true,
                vec![item(
                    vec![branch(Kind::Bold, vec![text("T")])],
                    vec![text("d"), list(false, false, vec![item(vec![], vec![text("in")])])],
                )],
            ),
        ],
    );
    let html = render_html(&doc);
    assert_eq!(
        html,
        "<main><ol><li>one</li></ol><dl><dt><b>T</b></dt><dd>d<ul><li>in</li></ul></dd></dl></main>"
    );
    assert!(tags_balanced(&html), "{}", html);
}
