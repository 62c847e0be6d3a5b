use orgize::config::{ParseConfig, UseSubSuperscript};
use orgize::export::{Container as OrgContainer, Event as OrgEvent, TraversalContext, Traverser};
use orgize::rowan::ast::AstNode;
use orgize::rowan::NodeOrToken;
use orgize::{SyntaxElement, SyntaxKind};
use org_render::export::{extract_metadata, render_html, render_toc};
use org_render::tree::{
    Container, Headline, Keyword, Kind, Link, List, ListItem, Node, OrgTableRow, Snippet,
    SourceBlock, Timestamp, TimestampToken,
};

#[derive(Default)]
struct TreeBuilder {
    open: Vec<(Kind, Vec<Node>)>,
    done: Vec<Node>,
}

impl TreeBuilder {
    fn push(&mut self, node: Node) {
        match self.open.last_mut() {
            Some((_, children)) => children.push(node),
            None => self.done.push(node),
        }
    }
}

fn nodes_of(elements: impl Iterator<Item = SyntaxElement>) -> Vec<Node> {
    let mut builder = TreeBuilder::default();
    let mut ctx = TraversalContext::default();
    for element in elements {
        builder.element(element, &mut ctx);
    }
    builder.done
}

fn kind_of(container: &OrgContainer) -> Kind {
    match container {
        OrgContainer::Document(_) => Kind::Document,
        OrgContainer::Headline(headline) => Kind::Headline(Headline {
            level: headline.level(),
            raw_title: headline.title().map(|e| e.to_string()).collect::<String>(),
            title: nodes_of(headline.title()),
        }),
        OrgContainer::Paragraph(_) => Kind::Paragraph,
        OrgContainer::Section(_) => Kind::Section,
        OrgContainer::Italic(_) => Kind::Italic,
        OrgContainer::Bold(_) => Kind::Bold,
        OrgContainer::Strike(_) => Kind::Strike,
        OrgContainer::Underline(_) => Kind::Underline,
        OrgContainer::Verbatim(_) => Kind::Verbatim,
        OrgContainer::Code(_) => Kind::Code,
        OrgContainer::SourceBlock(block) => Kind::SourceBlock(SourceBlock {
            language: block.language().map(|language| language.to_string()),
        }),
        OrgContainer::QuoteBlock(_) => Kind::QuoteBlock,
        OrgContainer::VerseBlock(_) => Kind::VerseBlock,
        OrgContainer::ExampleBlock(_) => Kind::ExampleBlock,
        OrgContainer::CenterBlock(_) => Kind::CenterBlock,
        OrgContainer::CommentBlock(_) => Kind::CommentBlock,
        OrgContainer::Comment(_) => Kind::Comment,
        OrgContainer::Subscript(_) => Kind::Subscript,
        OrgContainer::Superscript(_) => Kind::Superscript,
        OrgContainer::List(list) => Kind::List(List {
            ordered: list.is_ordered(),
            descriptive: list.is_descriptive(),
        }),
        OrgContainer::ListItem(item) => Kind::ListItem(ListItem { tag: nodes_of(item.tag()) }),
        OrgContainer::OrgTable(_) => Kind::OrgTable,
        OrgContainer::OrgTableRow(row) => Kind::OrgTableRow(OrgTableRow { rule: row.is_rule() }),
        OrgContainer::OrgTableCell(_) => Kind::OrgTableCell,
        OrgContainer::Link(link) => Kind::Link(Link {
            path: link.path().to_string(),
            image: link.is_image(),
            description: link.has_description(),
        }),
        OrgContainer::Keyword(keyword) => Kind::Keyword(Keyword {
            key: keyword.key().to_string(),
            value: keyword.value().to_string(),
        }),
        _ => Kind::Other,
    }
}

impl Traverser for TreeBuilder {
    fn event(&mut self, event: OrgEvent, _ctx: &mut TraversalContext) {
        match event {
            OrgEvent::Enter(container) => {
                self.open.push((kind_of(&container), Vec::new()));
            }
            OrgEvent::Leave(_) => {
                if let Some((kind, children)) = self.open.pop() {
                    self.push(Node::Container(Container { kind, children }));
                }
            }
            OrgEvent::Text(text) => self.push(Node::Text(text.to_string())),
            OrgEvent::LineBreak(_) => self.push(Node::LineBreak),
            OrgEvent::Snippet(snippet) => self.push(Node::Snippet(Snippet {
                backend: snippet.backend().to_string(),
                value: snippet.value().to_string(),
            })),
            OrgEvent::Rule(_) => self.push(Node::Rule),
            OrgEvent::Timestamp(timestamp) => {
                let mut tokens = Vec::new();
                for element in timestamp.syntax().children_with_tokens() {
                    match element {
                        NodeOrToken::Token(t) if t.kind() == SyntaxKind::MINUS2 => {
                            tokens.push(TimestampToken::Minus2);
                        }
                        NodeOrToken::Token(t) => {
                            tokens.push(TimestampToken::Text(t.text().to_string()));
                        }
                        _ => {}
                    }
                }
                self.push(Node::Timestamp(Timestamp { tokens }));
            }
            OrgEvent::LatexFragment(latex) => {
                self.push(Node::LatexFragment(latex.syntax().to_string()));
            }
            OrgEvent::LatexEnvironment(latex) => {
                self.push(Node::LatexEnvironment(latex.syntax().to_string()));
            }
            OrgEvent::Entity(entity) => self.push(Node::Entity(entity.html().to_string())),
            _ => self.push(Node::Other),
        }
    }
}

fn parse(source: &str) -> Node {
    let mut config = ParseConfig::default();
    config.use_sub_superscript = UseSubSuperscript::Brace;
    let org = config.parse(source);
    let mut builder = TreeBuilder::default();
    org.traverse(&mut builder);
    let mut nodes = builder.done;
    assert_eq!(nodes.len(), 1);
    nodes.remove(0)
}

#[test]
fn parsed_paragraph_with_url() {
    let doc = parse("See https://example.com/path).\n");
    assert_eq!(
        render_html(&doc),
        "<main><section><p>See <a href=\"https://example.com/path\">https://example.com/path</a>).\n</p></section></main>"
    );
}

#[test]
fn parsed_short_url_is_text() {
    let doc = parse("http://a\n");
    assert_eq!(render_html(&doc), "<main><section><p>http://a\n</p></section></main>");
}

#[test]
fn parsed_headings_and_toc() {
    let doc = parse("* A\n** B\ntext\n** C\n");
    assert_eq!(
        render_toc(&doc),
        "<nav class=\"toc\"><ul><li><a href=\"#a\">A</a><ul><li><a href=\"#b\">B</a></li>\
         <li><a href=\"#c\">C</a></li></ul></li></ul></nav>"
    );
    assert_eq!(
        render_html(&doc),
        "<main><h2 id=\"a\">A</h2><h3 id=\"b\">B</h3><section><p>text\n</p></section>\
         <h3 id=\"c\">C</h3></main>"
    );
}

#[test]
fn parsed_metadata() {
    let doc = parse("#+TITLE: First\n#+title: Second\n#+DATE: 2024-01-26\n#+FILETAGS: a b\n\n* Intro\n");
    let collected = extract_metadata(&doc);
    assert_eq!(collected.title, Some(" First".to_string()));
    let meta = collected.export();
    assert_eq!(meta.title, Some("First".to_string()));
    assert_eq!(meta.date, Some("2024-01-26".to_string()));
    assert_eq!(meta.description, None);
    assert_eq!(meta.tags, Some("a b".to_string()));
    assert_eq!(meta.tags_array, vec!["a".to_string(), "b".to_string()]);
}

#[test]
fn parsed_table_with_rule() {
    let doc = parse("| a | b |\n|---+---|\n");
    assert_eq!(
        render_html(&doc),
        "<main><section><table><tr><td>a</td><td>b</td></tr></table></section></main>"
    );
}

#[test]
fn parsed_attr_html_before_image_and_link() {
    let doc = parse("#+attr_html: :alt \"a cat\" :width 300\n[[file:cat.png]]\n\n#+attr_html: :class ext\n[[https://example.com][Example]]\n");
    assert_eq!(
        render_html(&doc),
        "<main><section><p><img src=\"cat.png\" alt=\"a cat\" width=\"300\">\n</p>\
         <p><a href=\"https://example.com\" class=\"ext\">Example</a>\n</p></section></main>"
    );
}

#[test]
fn parsed_attr_html_before_bare_image_url() {
    let doc = parse("#+attr_html: :alt :width 300\nhttps://example.com/cat.png\n");
    assert_eq!(
        render_html(&doc),
        "<main><section><p><img src=\"https://example.com/cat.png\" width=\"300\">\n</p></section></main>"
    );
}

#[test]
fn parsed_lists_and_markup() {
    let doc = parse("- one\n- *two* ~code <b>~ =verb=\n");
    assert_eq!(
        render_html(&doc),
        "<main><section><ul><li><p>one\n</p></li><li><p><b>two</b> <code>code &lt;b&gt;</code> \
         <code>verb</code>\n</p></li></ul></section></main>"
    );
}

#[test]
fn parsed_descriptive_list() {
    let doc = parse("- term :: definition\n");
    assert_eq!(
        render_html(&doc),
        "<main><section><dl><dt>term </dt><dd><p> definition\n</p></dd></dl></section></main>"
    );
}

#[test]
fn parsed_blocks_snippets_entities_timestamps() {
    let doc = parse("#+BEGIN_SRC rust\nfn main() {}\n#+END_SRC\n\n#+BEGIN_QUOTE\nquoted\n#+END_QUOTE\n\nx @@html:<em>raw</em>@@ \\alpha{} <2024-01-26 Fri>--<2024-01-27 Sat> y\n-----\n");
    assert_eq!(
        render_html(&doc),
        "<main><section><div class=\"org-src-container\"><pre class=\"src src-rust\">fn main() {}\n</pre></div>\
         <blockquote><p>quoted\n</p></blockquote><p>x <em>raw</em> &alpha; \
         <span class=\"timestamp-wrapper\"><span class=\"timestamp\"><2024-01-26 Fri>&#x2013;<2024-01-27 Sat></span></span> y\n</p>\
         <hr/></section></main>"
    );
}

#[test]
fn parsed_keyword_alone_leaves_no_trace() {
    let doc = parse("#+attr_html: :width 300\n");
    assert_eq!(render_html(&doc), "<main><section></section></main>");
}
