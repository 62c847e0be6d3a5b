//! The table of contents: a nested list with one item for each heading.

use vstd::prelude::*;
use crate::markup::{
    balanced, lemma_open_after_concat, lemma_open_after_element, lemma_open_after_one,
    lemma_written_concat, lemma_written_none, lemma_written_one, lemma_written_two, open_after,
    written, Markup,
};
use crate::slug::{headline_title_and_id, slug};
use crate::text::{push_str, string_of};
use crate::tree::{Container, Event, Headline, Kind, Node};

verus! {

/// Whether a node is a heading.
pub open spec fn is_headline(node: Node) -> bool {
    node matches Node::Container(c) && c.kind is Headline
}

/// Whether one of the nodes is a heading.
pub open spec fn has_headline(nodes: Seq<Node>) -> bool {
    exists|i: int| 0 <= i < nodes.len() && is_headline(#[trigger] nodes[i])
}

/// What opens an item: the anchor that leads to `id` and shows `title`, and
/// a list for what stands below if `nested` says so.
pub open spec fn item_open_chars(title: Seq<char>, id: Seq<char>, nested: bool) -> Seq<char> {
    "<li><a href=\"#"@ + id + "\">"@ + title + "</a>"@ + if nested {
        "<ul>"@
    } else {
        Seq::empty()
    }
}

/// What opens the item of a heading: the anchor with the heading's title,
/// and a list for the headings below it if it has any.
pub open spec fn item_open(headline: Headline, nested: bool) -> Seq<char> {
    item_open_chars(headline.raw_title@, slug(headline.raw_title@), nested)
}

/// What closes the item of a heading: the list below it if it has one,
/// then the item.
pub open spec fn item_close(nested: bool) -> Seq<char> {
    if nested {
        "</ul>"@ + "</li>"@
    } else {
        "</li>"@
    }
}

/// The items of the headings in and below a node. A heading's item holds,
/// in a list of its own, the items of the headings below it; every other
/// node stands for the items of what it holds.
pub open spec fn items_of(node: Node) -> Seq<char>
    decreases node, 0nat,
{
    match node {
        Node::Container(c) => {
            let inner = items_of_all(c.children@, c.children@.len());
            match c.kind {
                Kind::Headline(headline) => {
                    let nested = has_headline(c.children@);
                    item_open(headline, nested) + inner + item_close(nested)
                },
                _ => inner,
            }
        },
        _ => Seq::empty(),
    }
}

/// The items of the first `n` of the nodes, in order.
pub open spec fn items_of_all(nodes: Seq<Node>, n: nat) -> Seq<char>
    decreases nodes, n,
{
    if n == 0 || n > nodes.len() {
        Seq::empty()
    } else {
        items_of_all(nodes, (n - 1) as nat) + items_of(nodes[n - 1])
    }
}

/// What an event adds to the items.
pub open spec fn event_items(event: Event) -> Seq<char> {
    match event {
        Event::Enter(c) => match c.kind {
            Kind::Headline(headline) => item_open(headline, has_headline(c.children@)),
            _ => Seq::empty(),
        },
        Event::Leave(c) => match c.kind {
            Kind::Headline(_) => item_close(has_headline(c.children@)),
            _ => Seq::empty(),
        },
        _ => Seq::empty(),
    }
}

/// The list that holds the items of a document.
pub open spec fn toc_of(doc: Node) -> Seq<char> {
    "<nav class=\"toc\"><ul>"@ + items_of(doc) + "</ul></nav>"@
}

/// The markup that opens the item of a heading.
pub open spec fn item_open_markup(headline: Headline, nested: bool) -> Seq<Markup> {
    let anchor = seq![
        Markup::open("li"@),
        Markup::Open { name: "a"@, attrs: " href=\"#"@ + slug(headline.raw_title@) + seq!['"'] },
        Markup::Text(headline.raw_title@),
        Markup::Close { name: "a"@ },
    ];
    if nested {
        anchor + seq![Markup::open("ul"@)]
    } else {
        anchor
    }
}

/// The markup that closes the item of a heading.
pub open spec fn item_close_markup(nested: bool) -> Seq<Markup> {
    if nested {
        seq![Markup::Close { name: "ul"@ }, Markup::Close { name: "li"@ }]
    } else {
        seq![Markup::Close { name: "li"@ }]
    }
}

/// The items of the headings in and below a node, as markup.
pub open spec fn items_markup(node: Node) -> Seq<Markup>
    decreases node, 0nat,
{
    match node {
        Node::Container(c) => {
            let inner = items_markup_all(c.children@, c.children@.len());
            match c.kind {
                Kind::Headline(headline) => {
                    let nested = has_headline(c.children@);
                    item_open_markup(headline, nested) + inner + item_close_markup(nested)
                },
                _ => inner,
            }
        },
        _ => Seq::empty(),
    }
}

/// The items of the first `n` of the nodes, as markup.
pub open spec fn items_markup_all(nodes: Seq<Node>, n: nat) -> Seq<Markup>
    decreases nodes, n,
{
    if n == 0 || n > nodes.len() {
        Seq::empty()
    } else {
        items_markup_all(nodes, (n - 1) as nat) + items_markup(nodes[n - 1])
    }
}

/// The table of contents of a document, as markup.
pub open spec fn toc_markup(doc: Node) -> Seq<Markup> {
    seq![Markup::Open { name: "nav"@, attrs: " class=\"toc\""@ }, Markup::open("ul"@)]
        + items_markup(doc) + seq![Markup::Close { name: "ul"@ }, Markup::Close { name: "nav"@ }]
}

/// What opens and closes an item is written as its markup, and what opens
/// an item leaves open what what closes it closes.
proof fn lemma_item(headline: Headline, nested: bool, open: Seq<Seq<char>>)
    ensures
        item_open(headline, nested) == written(item_open_markup(headline, nested)),
        item_close(nested) == written(item_close_markup(nested)),
        open_after(open, item_open_markup(headline, nested)) == Some(
            if nested {
                open.push("li"@).push("ul"@)
            } else {
                open.push("li"@)
            },
        ),
        open_after(
            if nested {
                open.push("li"@).push("ul"@)
            } else {
                open.push("li"@)
            },
            item_close_markup(nested),
        ) == Some(open),
{
    reveal_strlit("<li><a href=\"#");
    reveal_strlit(" href=\"#");
    reveal_strlit("\">");
    reveal_strlit("</a>");
    reveal_strlit("<ul>");
    reveal_strlit("</ul>");
    reveal_strlit("</li>");
    reveal_strlit("li");
    reveal_strlit("ul");
    reveal_strlit("a");
    let li = Markup::open("li"@);
    let a = Markup::Open {
        name: "a"@,
        attrs: " href=\"#"@ + slug(headline.raw_title@) + seq!['"'],
    };
    let title = Markup::Text(headline.raw_title@);
    let end = Markup::Close { name: "a"@ };
    let ul = Markup::open("ul"@);
    let anchor = seq![li, a, title, end];
    lemma_written_two(li, a);
    lemma_written_two(title, end);
    lemma_written_concat(seq![li, a], seq![title, end]);
    assert(anchor =~= seq![li, a] + seq![title, end]);
    lemma_written_one(ul);
    lemma_written_concat(anchor, seq![ul]);
    assert(written(anchor) =~= item_open(headline, false));
    assert(written(anchor) + ul.chars() =~= item_open(headline, true));
    lemma_written_two(Markup::Close { name: "ul"@ }, Markup::Close { name: "li"@ });
    lemma_written_one(Markup::Close { name: "li"@ });
    assert((Markup::Close { name: "li"@ }).chars() =~= "</li>"@);
    assert((Markup::Close { name: "ul"@ }).chars() + (Markup::Close { name: "li"@ }).chars()
        =~= "</ul>"@ + "</li>"@);
    lemma_open_after_one(open, li);
    lemma_open_after_one(open.push("li"@).push("a"@), title);
    lemma_open_after_element(open.push("li"@), "a"@, a->attrs, seq![title]);
    lemma_open_after_concat(open, seq![li], seq![a] + seq![title] + seq![end]);
    assert(anchor =~= seq![li] + (seq![a] + seq![title] + seq![end]));
    lemma_open_after_one(open.push("li"@), ul);
    lemma_open_after_concat(open, anchor, seq![ul]);
    lemma_open_after_one(open.push("li"@).push("ul"@), Markup::Close { name: "ul"@ });
    lemma_open_after_one(open.push("li"@), Markup::Close { name: "li"@ });
    lemma_open_after_concat(
        open.push("li"@).push("ul"@),
        seq![Markup::Close { name: "ul"@ }],
        seq![Markup::Close { name: "li"@ }],
    );
    assert(seq![Markup::Close { name: "ul"@ }, Markup::Close { name: "li"@ }] =~= seq![
        Markup::Close { name: "ul"@ },
    ] + seq![Markup::Close { name: "li"@ }]);
    assert(open.push("li"@).push("ul"@).drop_last() =~= open.push("li"@));
    assert(open.push("li"@).drop_last() =~= open);
}

/// The items of a node are written as their markup, and their markup
/// leaves open what it found open.
proof fn lemma_items(node: Node, open: Seq<Seq<char>>)
    ensures
        items_of(node) == written(items_markup(node)),
        open_after(open, items_markup(node)) == Some(open),
    decreases node, 0nat,
{
    match node {
        Node::Container(c) => {
            let n = c.children@.len();
            let inner = items_markup_all(c.children@, n);
            match c.kind {
                Kind::Headline(headline) => {
                    let nested = has_headline(c.children@);
                    let first = item_open_markup(headline, nested);
                    let last = item_close_markup(nested);
                    let inside = if nested {
                        open.push("li"@).push("ul"@)
                    } else {
                        open.push("li"@)
                    };
                    lemma_item(headline, nested, open);
                    lemma_items_all(c.children@, n, inside);
                    lemma_written_concat(first, inner);
                    lemma_written_concat(first + inner, last);
                    lemma_open_after_concat(open, first, inner);
                    lemma_open_after_concat(open, first + inner, last);
                },
                _ => {
                    lemma_items_all(c.children@, n, open);
                },
            }
        },
        _ => {
            lemma_written_none();
        },
    }
}

/// The items of nodes are written as their markup, and their markup leaves
/// open what it found open.
proof fn lemma_items_all(nodes: Seq<Node>, n: nat, open: Seq<Seq<char>>)
    ensures
        items_of_all(nodes, n) == written(items_markup_all(nodes, n)),
        open_after(open, items_markup_all(nodes, n)) == Some(open),
    decreases nodes, n,
{
    if n == 0 || n > nodes.len() {
        lemma_written_none();
    } else {
        lemma_items_all(nodes, (n - 1) as nat, open);
        lemma_items(nodes[n - 1], open);
        lemma_written_concat(items_markup_all(nodes, (n - 1) as nat), items_markup(nodes[n - 1]));
        lemma_open_after_concat(
            open,
            items_markup_all(nodes, (n - 1) as nat),
            items_markup(nodes[n - 1]),
        );
    }
}

/// The table of contents of every document is markup whose tags are
/// balanced: the list of a heading is closed before its item, each item
/// before the next, and all of them before the list that holds them.
pub proof fn lemma_toc_balanced(doc: Node)
    ensures
        toc_of(doc) == written(toc_markup(doc)),
        balanced(toc_markup(doc)),
{
    reveal_strlit("<nav class=\"toc\"><ul>");
    reveal_strlit(" class=\"toc\"");
    reveal_strlit("</ul></nav>");
    reveal_strlit("nav");
    reveal_strlit("ul");
    let none = Seq::<Seq<char>>::empty();
    let nav = Markup::Open { name: "nav"@, attrs: " class=\"toc\""@ };
    let ul = Markup::open("ul"@);
    let first = seq![nav, ul];
    let last = seq![Markup::Close { name: "ul"@ }, Markup::Close { name: "nav"@ }];
    let inside = none.push("nav"@).push("ul"@);
    lemma_items(doc, inside);
    lemma_written_two(nav, ul);
    lemma_written_two(Markup::Close { name: "ul"@ }, Markup::Close { name: "nav"@ });
    lemma_written_concat(first, items_markup(doc));
    lemma_written_concat(first + items_markup(doc), last);
    assert(written(first) =~= "<nav class=\"toc\"><ul>"@);
    assert(written(last) =~= "</ul></nav>"@);
    lemma_open_after_one(none, nav);
    lemma_open_after_one(none.push("nav"@), ul);
    lemma_open_after_concat(none, seq![nav], seq![ul]);
    assert(first =~= seq![nav] + seq![ul]);
    lemma_open_after_concat(none, first, items_markup(doc));
    lemma_open_after_one(inside, Markup::Close { name: "ul"@ });
    lemma_open_after_one(none.push("nav"@), Markup::Close { name: "nav"@ });
    lemma_open_after_concat(
        inside,
        seq![Markup::Close { name: "ul"@ }],
        seq![Markup::Close { name: "nav"@ }],
    );
    assert(last =~= seq![Markup::Close { name: "ul"@ }] + seq![Markup::Close { name: "nav"@ }]);
    assert(inside.drop_last() =~= none.push("nav"@));
    assert(none.push("nav"@).drop_last() =~= none);
    lemma_open_after_concat(none, first + items_markup(doc), last);
}

/// The visitor that builds the table of contents.
pub struct TocBuilder {
    output: Vec<char>,
}

impl View for TocBuilder {
    type V = Seq<char>;

    /// The items written so far.
    closed spec fn view(&self) -> Seq<char> {
        self.output@
    }
}

/// Whether one of the nodes is a heading.
pub fn has_child_headline(children: &Vec<Node>) -> (r: bool)
    ensures
        r == has_headline(children@),
{
    let mut i: usize = 0;
    while i < children.len()
        invariant
            i <= children@.len(),
            forall|j: int| 0 <= j < i ==> !is_headline(children@[j]),
        decreases children@.len() - i,
    {
        match &children[i] {
            Node::Container(c) => match &c.kind {
                Kind::Headline(_) => {
                    assert(is_headline(children@[i as int]));
                    return true;
                },
                _ => {},
            },
            _ => {},
        }
        i = i + 1;
    }
    false
}

impl TocBuilder {
    /// A builder that has read nothing yet.
    pub fn new() -> (r: Self)
        ensures
            r@ == Seq::<char>::empty(),
    {
        TocBuilder { output: Vec::new() }
    }

    /// Hands out the items.
    pub fn finish(self) -> (items: String)
        ensures
            items@ == self@,
    {
        string_of(self.output.as_slice())
    }

    /// Opens an item with an anchor that leads to `id` and shows `title`,
    /// and with it a list for what stands below if `nested` says so.
    pub fn open_item(&mut self, title: &str, id: &str, nested: bool)
        ensures
            final(self)@ == old(self)@ + item_open_chars(title@, id@, nested),
    {
        push_str(&mut self.output, "<li><a href=\"#");
        push_str(&mut self.output, id);
        push_str(&mut self.output, "\">");
        push_str(&mut self.output, title);
        push_str(&mut self.output, "</a>");
        if nested {
            push_str(&mut self.output, "<ul>");
        }
        assert(self.output@ =~= old(self).output@ + item_open_chars(title@, id@, nested));
    }

    /// Opens the item of a heading; `children` are the nodes that the
    /// heading holds.
    pub fn handle_headline_enter(&mut self, headline: &Headline, children: &Vec<Node>)
        ensures
            final(self)@ == old(self)@ + item_open(*headline, has_headline(children@)),
    {
        let (title, id) = headline_title_and_id(headline);
        let has_children = has_child_headline(children);
        self.open_item(title.as_str(), id.as_str(), has_children);
    }

    /// Closes the item of a heading; `children` are the nodes that the
    /// heading holds.
    pub fn handle_headline_leave(&mut self, children: &Vec<Node>)
        ensures
            final(self)@ == old(self)@ + item_close(has_headline(children@)),
    {
        if has_child_headline(children) {
            push_str(&mut self.output, "</ul>");
        }
        push_str(&mut self.output, "</li>");
        assert(self.output@ =~= old(self).output@ + item_close(has_headline(children@)));
    }

    /// Handles one event of the traversal: a heading's item is opened when
    /// the heading is entered and closed when it is left; nothing else
    /// leaves a trace.
    pub fn event(&mut self, event: Event<'_>)
        ensures
            final(self)@ == old(self)@ + event_items(event),
    {
        match event {
            Event::Enter(c) => match &c.kind {
                Kind::Headline(headline) => {
                    self.handle_headline_enter(headline, &c.children);
                },
                _ => {
                    assert(self@ =~= old(self)@ + event_items(event));
                },
            },
            Event::Leave(c) => match &c.kind {
                Kind::Headline(_) => {
                    self.handle_headline_leave(&c.children);
                },
                _ => {
                    assert(self@ =~= old(self)@ + event_items(event));
                },
            },
            _ => {
                assert(self@ =~= old(self)@ + event_items(event));
            },
        }
    }

    /// Walks one node with all that it holds.
    pub fn element(&mut self, node: &Node)
        ensures
            final(self)@ == old(self)@ + items_of(*node),
        decreases *node, 0nat,
    {
        match node {
            Node::Container(c) => {
                self.event(Event::Enter(c));
                self.elements(&c.children);
                self.event(Event::Leave(c));
                assert(self@ =~= old(self)@ + items_of(*node));
            },
            _ => {
                assert(self@ =~= old(self)@ + items_of(*node));
            },
        }
    }

    /// Walks the nodes in order.
    pub fn elements(&mut self, nodes: &Vec<Node>)
        ensures
            final(self)@ == old(self)@ + items_of_all(nodes@, nodes@.len()),
        decreases *nodes, 0nat,
    {
        let mut i: usize = 0;
        assert(self@ =~= old(self)@ + items_of_all(nodes@, 0));
        while i < nodes.len()
            invariant
                i <= nodes@.len(),
                self@ == old(self)@ + items_of_all(nodes@, i as nat),
            decreases nodes@.len() - i,
        {
            self.element(&nodes[i]);
            assert(self@ =~= old(self)@ + items_of_all(nodes@, (i + 1) as nat));
            i = i + 1;
        }
    }
}

} // verus!
