//! The document tree as the renderers read it, and the events by which a
//! traversal hands it to them.

use vstd::prelude::*;

verus! {

/// A heading: its depth, the source text of its title, and the title as
/// inline nodes.
#[derive(Debug)]
pub struct Headline {
    pub level: usize,
    pub raw_title: String,
    pub title: Vec<Node>,
}

/// A source block, with the language that it names, if any.
#[derive(Debug)]
pub struct SourceBlock {
    pub language: Option<String>,
}

/// A list: ordered, descriptive, or neither.
#[derive(Debug)]
pub struct List {
    pub ordered: bool,
    pub descriptive: bool,
}

/// A list item; `tag` holds the term of an item of a descriptive list.
#[derive(Debug)]
pub struct ListItem {
    pub tag: Vec<Node>,
}

/// A table row; a rule row is a separator and holds no cells worth showing.
#[derive(Debug)]
pub struct OrgTableRow {
    pub rule: bool,
}

/// A link: where it leads, whether it shows an image, and whether it holds
/// a description.
#[derive(Debug)]
pub struct Link {
    pub path: String,
    pub image: bool,
    pub description: bool,
}

/// A keyword line: its key and its value.
#[derive(Debug)]
pub struct Keyword {
    pub key: String,
    pub value: String,
}

/// A snippet of raw markup for one export target.
#[derive(Debug)]
pub struct Snippet {
    pub backend: String,
    pub value: String,
}

/// One token of a timestamp: the double hyphen of a range, or any other
/// token with its text.
#[derive(Debug)]
pub enum TimestampToken {
    Minus2,
    Text(String),
}

/// A timestamp as its tokens, in order.
#[derive(Debug)]
pub struct Timestamp {
    pub tokens: Vec<TimestampToken>,
}

/// What kind of container a node is, with what the renderers read of it.
#[derive(Debug)]
pub enum Kind {
    Document,
    Headline(Headline),
    Paragraph,
    Section,
    Italic,
    Bold,
    Strike,
    Underline,
    Verbatim,
    Code,
    SourceBlock(SourceBlock),
    QuoteBlock,
    VerseBlock,
    ExampleBlock,
    CenterBlock,
    CommentBlock,
    Comment,
    Subscript,
    Superscript,
    List(List),
    ListItem(ListItem),
    OrgTable,
    OrgTableRow(OrgTableRow),
    OrgTableCell,
    Link(Link),
    Keyword(Keyword),
    /// Any other container: it is entered and left without a trace.
    Other,
}

/// A node that holds child nodes.
#[derive(Debug)]
pub struct Container {
    pub kind: Kind,
    pub children: Vec<Node>,
}

/// A node of the document tree: a container or a leaf.
#[derive(Debug)]
pub enum Node {
    Container(Container),
    Text(String),
    LineBreak,
    Snippet(Snippet),
    Rule,
    Timestamp(Timestamp),
    LatexFragment(String),
    LatexEnvironment(String),
    Entity(String),
    /// Any other leaf: it leaves no trace.
    Other,
}

/// One step of a traversal. A container is entered, its children follow
/// unless the visitor asks to skip them, and it is left; a leaf is one event.
pub enum Event<'a> {
    Enter(&'a Container),
    Leave(&'a Container),
    Text(&'a String),
    LineBreak,
    Snippet(&'a Snippet),
    Rule,
    Timestamp(&'a Timestamp),
    LatexFragment(&'a String),
    LatexEnvironment(&'a String),
    Entity(&'a String),
    Other,
}

impl<'a> Event<'a> {
    /// The node that the event is about.
    pub open spec fn node(self) -> Node {
        match self {
            Event::Enter(c) => Node::Container(*c),
            Event::Leave(c) => Node::Container(*c),
            Event::Text(s) => Node::Text(*s),
            Event::LineBreak => Node::LineBreak,
            Event::Snippet(s) => Node::Snippet(*s),
            Event::Rule => Node::Rule,
            Event::Timestamp(t) => Node::Timestamp(*t),
            Event::LatexFragment(s) => Node::LatexFragment(*s),
            Event::LatexEnvironment(s) => Node::LatexEnvironment(*s),
            Event::Entity(s) => Node::Entity(*s),
            Event::Other => Node::Other,
        }
    }
}

} // verus!
