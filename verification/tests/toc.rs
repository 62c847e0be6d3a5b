use org_render::export::render_toc;
use org_render::toc::{has_child_headline, TocBuilder};
use org_render::tree::{Container, Event, Headline, Kind, Node};

fn branch(kind: Kind, children: Vec<Node>) -> Node {
    Node::Container(Container { kind, children })
}

fn headline(title: &str, children: Vec<Node>) -> Node {
    branch(
        Kind::Headline(Headline {
            level: 1,
            raw_title: title.to_string(),
            title: vec![Node::Text(title.to_string())],
        }),
        children,
    )
}

#[test]
fn nested_headings_make_one_nested_list() {
    let doc = branch(
        Kind::Document,
        vec![headline(
            "A",
            vec![
                branch(Kind::Section, vec![Node::Text("text".to_string())]),
                headline("B", vec![]),
                headline("C", vec![]),
            ],
        )],
    );
    assert_eq!(
        render_toc(&doc),
        "<nav class=\"toc\"><ul><li><a href=\"#a\">A</a><ul>\
         <li><a href=\"#b\">B</a></li><li><a href=\"#c\">C</a></li></ul></li></ul></nav>"
    );
}

#[test]
fn document_without_headings_has_an_empty_list() {
    let doc = branch(Kind::Document, vec![branch(Kind::Paragraph, vec![Node::Text("x".to_string())])]);
    assert_eq!(render_toc(&doc), "<nav class=\"toc\"><ul></ul></nav>");
}

#[test]
fn sibling_headings_and_slugs() {
    let doc = branch(
        Kind::Document,
        vec![headline("Hello, World!", vec![]), headline("10 amazing secrets", vec![])],
    );
    assert_eq!(
        render_toc(&doc),
        "<nav class=\"toc\"><ul><li><a href=\"#hello-world\">Hello, World!</a></li>\
         <li><a href=\"#10-amazing-secrets\">10 amazing secrets</a></li></ul></nav>"
    );
}

#[test]
fn heading_below_another_container_is_no_child_heading() {
    let doc = headline("A", vec![branch(Kind::Section, vec![headline("B", vec![])])]);
    assert_eq!(
        render_toc(&doc),
        "<nav class=\"toc\"><ul><li><a href=\"#a\">A</a><li><a href=\"#b\">B</a></li></li></ul></nav>"
    );
}

#[test]
fn child_heading_is_found_among_children() {
    assert!(!has_child_headline(&vec![]));
    assert!(!has_child_headline(&vec![Node::Rule, branch(Kind::Section, vec![headline("x", vec![])])]));
    assert!(has_child_headline(&vec![Node::Rule, headline("x", vec![])]));
}

#[test]
fn builder_handles_events() {
    let h = Container {
        kind: Kind::Headline(Headline { level: 1, raw_title: "T".to_string(), title: vec![] }),
        children: vec![],
    };
    let p = Container { kind: Kind::Paragraph, children: vec![] };
    let mut builder = TocBuilder::new();
    builder.event(Event::Enter(&p));
    builder.event(Event::Enter(&h));
    builder.event(Event::LineBreak);
    builder.event(Event::Leave(&h));
    builder.event(Event::Leave(&p));
    assert_eq!(builder.finish(), "<li><a href=\"#t\">T</a></li>");
}

#[test]
fn item_is_opened_with_or_without_a_nested_list() {
    let mut builder = TocBuilder::new();
    builder.open_item("A & B", "a-b", true);
    builder.open_item("C", "c", false);
    assert_eq!(
        builder.finish(),
        "<li><a href=\"#a-b\">A & B</a><ul><li><a href=\"#c\">C</a>"
    );
}
