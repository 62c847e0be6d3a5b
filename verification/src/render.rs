//! What the HTML renderer does, as a function from states to states: the
//! state that it holds, how each container and each leaf changes it, and
//! what rendering a whole node comes to.

use vstd::prelude::*;
use crate::attrs::{
    attrs_chars, keys_distinct, lemma_merged, lemma_parsed_attrs_distinct, merged, parsed_attrs,
    value_of, AttrSeq,
};
use crate::escape::{escaped, escaped_char};
use crate::slug::slug;
use crate::text::{occurs_at, same_ignoring_ascii_case};
use crate::tree::{
    Container, Event, Headline, Keyword, Kind, Link, List, ListItem, Node, Snippet, SourceBlock,
    Timestamp, TimestampToken,
};
use crate::url::{lemma_url_end, names_image, url_at};

verus! {

/// What the renderer holds in the course of a traversal.
pub struct RenderState {
    /// What was written so far.
    pub output: Seq<char>,
    /// For each list that stands open, whether it is a descriptive one.
    pub lists: Seq<bool>,
    /// The attributes that wait for the next link or image.
    pub pending: Option<AttrSeq>,
    /// For each paragraph that stands open, the length of the output when it
    /// was opened.
    pub paragraphs: Seq<nat>,
    /// Whether text stands inside verbatim or code markup.
    pub verbatim: bool,
}

/// The length of the tag that opens a paragraph.
pub const PARAGRAPH_OPEN_LEN: usize = 3;

/// The deepest level of heading that HTML has.
pub const MAX_HEADING_LEVEL: usize = 6;

/// The tag that opens an element.
pub open spec fn open_tag_chars(tag: Seq<char>) -> Seq<char> {
    seq!['<'] + tag + seq!['>']
}

/// The tag that closes an element.
pub open spec fn close_tag_chars(tag: Seq<char>) -> Seq<char> {
    seq!['<', '/'] + tag + seq!['>']
}

/// The level of the HTML heading for an Org heading of depth `level`: one
/// deeper, and no deeper than `MAX_HEADING_LEVEL`.
pub open spec fn heading_level(level: usize) -> nat {
    if level + 1 < MAX_HEADING_LEVEL {
        (level + 1) as nat
    } else {
        MAX_HEADING_LEVEL as nat
    }
}

/// The decimal digit for a number below ten.
pub open spec fn digit(n: nat) -> char {
    ((48 + n) as u8) as char
}

/// The tag that opens a heading, with its anchor.
pub open spec fn heading_open(level: usize, id: Seq<char>) -> Seq<char> {
    "<h"@ + seq![digit(heading_level(level))] + " id=\""@ + id + "\">"@
}

/// The tag that closes a heading.
pub open spec fn heading_close(level: usize) -> Seq<char> {
    "</h"@ + seq![digit(heading_level(level)), '>']
}

/// The tag of an image.
pub open spec fn image_tag(src: Seq<char>, attrs: Seq<char>) -> Seq<char> {
    "<img src=\""@ + escaped(src) + seq!['"'] + attrs + seq!['>']
}

/// The tag that opens an anchor.
pub open spec fn anchor_open(href: Seq<char>, attrs: Seq<char>) -> Seq<char> {
    "<a href=\""@ + escaped(href) + seq!['"'] + attrs + seq!['>']
}

/// The attributes that wait, as they stand in a tag.
pub open spec fn pending_chars(pending: Option<AttrSeq>, skip_empty_alt: bool) -> Seq<char> {
    match pending {
        Some(attrs) => attrs_chars(attrs, skip_empty_alt),
        None => Seq::empty(),
    }
}

/// The index at which the `file:` prefixes of a path end, counted from
/// index `i` on.
pub open spec fn file_scheme_end(path: Seq<char>, i: int) -> int
    decreases path.len() - i,
{
    if i + 5 <= path.len() && occurs_at(path, "file:"@, i) {
        file_scheme_end(path, i + 5)
    } else {
        i
    }
}

/// A link's path without the `file:` at its start, however often it stands
/// there.
pub open spec fn without_file_scheme(path: Seq<char>) -> Seq<char> {
    path.skip(file_scheme_end(path, 0))
}

/// What one token of a timestamp is written as: a range's double hyphen as
/// an en dash, any other token as it is.
pub open spec fn timestamp_token_chars(token: TimestampToken) -> Seq<char> {
    match token {
        TimestampToken::Minus2 => "&#x2013;"@,
        TimestampToken::Text(text) => text@,
    }
}

/// The first `n` tokens of a timestamp as they are written.
pub open spec fn timestamp_chars(tokens: Seq<TimestampToken>, n: nat) -> Seq<char>
    decreases n,
{
    if n == 0 || n > tokens.len() {
        Seq::empty()
    } else {
        timestamp_chars(tokens, (n - 1) as nat) + timestamp_token_chars(tokens[n - 1])
    }
}

/// The tag that closes a list: that of an ordered list, of a descriptive
/// list, or of a plain one, as the tag that opened it.
pub open spec fn list_close(list: List) -> Seq<char> {
    if list.ordered {
        "</ol>"@
    } else if list.descriptive {
        "</dl>"@
    } else {
        "</ul>"@
    }
}

impl RenderState {
    /// The state before anything was read.
    pub open spec fn fresh() -> RenderState {
        RenderState {
            output: Seq::empty(),
            lists: Seq::empty(),
            pending: None,
            paragraphs: Seq::empty(),
            verbatim: false,
        }
    }

    /// Whether no key stands twice among the attributes that wait. The
    /// fresh state is so, and every step of the renderer keeps it so.
    pub open spec fn well_formed(self) -> bool {
        match self.pending {
            Some(waiting) => keys_distinct(waiting),
            None => true,
        }
    }

    /// The state after `chars` were written.
    pub open spec fn emit(self, chars: Seq<char>) -> RenderState {
        RenderState { output: self.output + chars, ..self }
    }

    /// The state with no attributes waiting.
    pub open spec fn without_pending(self) -> RenderState {
        RenderState { pending: None, ..self }
    }

    /// The state after `parsed` was added to the attributes that wait: a key
    /// of `parsed` takes the value that `parsed` gives it.
    pub open spec fn with_pending(self, parsed: AttrSeq) -> RenderState {
        RenderState {
            pending: Some(
                match self.pending {
                    Some(existing) => merged(existing, parsed),
                    None => parsed,
                },
            ),
            ..self
        }
    }

    /// The state after a paragraph was opened: the place is noted, and the
    /// opening tag written.
    pub open spec fn paragraph_entered(self) -> RenderState {
        RenderState { paragraphs: self.paragraphs.push(self.output.len()), ..self }.emit(
            "<p>"@,
        )
    }

    /// The place at which the innermost open paragraph began; zero where
    /// none stands open.
    pub open spec fn paragraph_start(self) -> int {
        if self.paragraphs.len() > 0 {
            self.paragraphs.last() as int
        } else {
            0
        }
    }

    /// Whether nothing was written since the innermost paragraph's opening
    /// tag.
    pub open spec fn paragraph_is_empty(self) -> bool {
        self.output.len() == self.paragraph_start() + PARAGRAPH_OPEN_LEN
    }

    /// The state after a paragraph was closed. An empty paragraph is taken
    /// back, opening tag and all; any other gets its closing tag. No
    /// attributes wait after it.
    pub open spec fn paragraph_left(self) -> RenderState {
        RenderState {
            output: if self.paragraph_is_empty() {
                self.output.take(self.paragraph_start())
            } else {
                self.output + "</p>"@
            },
            paragraphs: if self.paragraphs.len() > 0 {
                self.paragraphs.drop_last()
            } else {
                self.paragraphs
            },
            pending: None,
            ..self
        }
    }

    /// The state after a source block was opened.
    pub open spec fn source_block_entered(self, block: SourceBlock) -> RenderState {
        self.emit("<div class=\"org-src-container\">"@).emit(
            match block.language {
                Some(language) => "<pre class=\"src src-"@ + escaped(language@) + "\">"@,
                None => "<pre class=\"src\">"@,
            },
        )
    }

    /// The state after a list was opened: its kind is noted, and its
    /// opening tag written.
    pub open spec fn list_entered(self, list: List) -> RenderState {
        if list.ordered {
            RenderState { lists: self.lists.push(false), ..self }.emit("<ol>"@)
        } else if list.descriptive {
            RenderState { lists: self.lists.push(true), ..self }.emit("<dl>"@)
        } else {
            RenderState { lists: self.lists.push(false), ..self }.emit("<ul>"@)
        }
    }

    /// The state after a list was left: its closing tag is written, and
    /// the list around it is the innermost again.
    pub open spec fn list_left(self, list: List) -> RenderState {
        RenderState {
            lists: if self.lists.len() > 0 {
                self.lists.drop_last()
            } else {
                self.lists
            },
            ..self
        }.emit(list_close(list))
    }

    /// Whether the innermost open list is a descriptive one.
    pub open spec fn in_descriptive_list(self) -> bool {
        self.lists.len() > 0 && self.lists.last()
    }

    /// The state after a list item was left.
    pub open spec fn list_item_left(self) -> RenderState {
        if self.in_descriptive_list() {
            self.emit("</dd>"@)
        } else {
            self.emit("</li>"@)
        }
    }

    /// The state after a link was entered, and whether what the link holds
    /// is passed over.
    ///
    /// The attributes that wait go into the tag. An image link becomes an
    /// image. A link without a description shows its path and is closed at
    /// once. Any other link stays open for its description.
    pub open spec fn link_entered(self, link: Link) -> (RenderState, bool) {
        let path = without_file_scheme(link.path@);
        let attrs = pending_chars(self.pending, link.image);
        let taken = self.without_pending();
        if link.image {
            (taken.emit(image_tag(path, attrs)), true)
        } else if !link.description {
            (taken.emit(anchor_open(path, attrs) + escaped(path) + "</a>"@), true)
        } else {
            (taken.emit(anchor_open(path, attrs)), false)
        }
    }

    /// The state after a keyword was read: an `ATTR_HTML` keyword adds its
    /// attributes to those that wait, any other changes nothing.
    pub open spec fn keyword_read(self, keyword: Keyword) -> RenderState {
        if same_ignoring_ascii_case(keyword.key@, "attr_html"@) {
            self.with_pending(parsed_attrs(keyword.value@))
        } else {
            self
        }
    }

    /// The state after a URL was written. Where attributes wait and the URL
    /// names an image, it becomes an image; otherwise an anchor that shows
    /// the URL. Either takes the attributes that wait.
    pub open spec fn linked(self, url: Seq<char>) -> RenderState {
        let attrs = pending_chars(self.pending, true);
        if names_image(url) && self.pending is Some {
            self.without_pending().emit(image_tag(url, attrs))
        } else {
            self.without_pending().emit(anchor_open(url, attrs) + escaped(url) + "</a>"@)
        }
    }

    /// The state after the text from index `pos` on was written, with each
    /// URL linked and every other character escaped.
    ///
    /// Where no URL begins at an index, or one that is too short, the
    /// character there is escaped and reading goes on right after it.
    pub open spec fn autolinked(self, chars: Seq<char>, pos: int) -> RenderState
        decreases chars.len() - pos,
    {
        if pos < 0 || pos >= chars.len() {
            self
        } else {
            match url_at(chars, pos) {
                Some((url, end)) => {
                    proof {
                        lemma_url_end(chars, pos);
                    }
                    self.linked(url).autolinked(chars, end)
                },
                None => self.emit(escaped_char(chars[pos])).autolinked(chars, pos + 1),
            }
        }
    }

    /// The state after a run of text was written: escaped as it is inside
    /// verbatim or code markup, with its URLs linked elsewhere.
    pub open spec fn text_written(self, text: Seq<char>) -> RenderState {
        if self.verbatim {
            self.emit(escaped(text))
        } else {
            self.autolinked(text, 0)
        }
    }

    /// The state after a timestamp was written.
    pub open spec fn timestamp_written(self, timestamp: Timestamp) -> RenderState {
        self.emit("<span class=\"timestamp-wrapper\"><span class=\"timestamp\">"@).emit(
            timestamp_chars(timestamp.tokens@, timestamp.tokens@.len()),
        ).emit("</span></span>"@)
    }

    /// The state after a snippet was read: one for HTML is written as it is,
    /// any other is dropped.
    pub open spec fn snippet_written(self, snippet: Snippet) -> RenderState {
        if same_ignoring_ascii_case(snippet.backend@, "html"@) {
            self.emit(snippet.value@)
        } else {
            self
        }
    }
}

/// The state after a container was entered, and whether what it holds is
/// passed over.
pub open spec fn entered(s: RenderState, c: Container) -> (RenderState, bool)
    decreases c, 0nat,
{
    match c.kind {
        Kind::Document => (s.emit("<main>"@), false),
        Kind::Headline(headline) => (headline_entered(s, headline), false),
        Kind::Paragraph => (s.paragraph_entered(), false),
        Kind::Section => (s.emit(open_tag_chars("section"@)), false),
        Kind::Italic => (s.emit(open_tag_chars("i"@)), false),
        Kind::Bold => (s.emit(open_tag_chars("b"@)), false),
        Kind::Strike => (s.emit(open_tag_chars("s"@)), false),
        Kind::Underline => (s.emit(open_tag_chars("u"@)), false),
        Kind::Verbatim => ((RenderState { verbatim: true, ..s }).emit(open_tag_chars("code"@)), false),
        Kind::Code => ((RenderState { verbatim: true, ..s }).emit(open_tag_chars("code"@)), false),
        Kind::SourceBlock(block) => (s.source_block_entered(block), false),
        Kind::QuoteBlock => (s.emit(open_tag_chars("blockquote"@)), false),
        Kind::VerseBlock => (s.emit("<p class=\"verse\">"@), false),
        Kind::ExampleBlock => (s.emit("<pre class=\"example\">"@), false),
        Kind::CenterBlock => (s.emit("<div class=\"center\">"@), false),
        Kind::CommentBlock => (s.emit("<!--"@), false),
        Kind::Comment => (s.emit("<!--"@), false),
        Kind::Subscript => (s.emit(open_tag_chars("sub"@)), false),
        Kind::Superscript => (s.emit(open_tag_chars("sup"@)), false),
        Kind::List(list) => (s.list_entered(list), false),
        Kind::ListItem(item) => (list_item_entered(s, item), false),
        Kind::OrgTable => (s.emit(open_tag_chars("table"@)), false),
        Kind::OrgTableRow(row) => if row.rule {
            (s, true)
        } else {
            (s.emit("<tr>"@), false)
        },
        Kind::OrgTableCell => (s.emit(open_tag_chars("td"@)), false),
        Kind::Link(link) => s.link_entered(link),
        Kind::Keyword(keyword) => (s.keyword_read(keyword), true),
        Kind::Other => (s, false),
    }
}

/// The state after a heading was entered: the whole heading is written, its
/// title rendered between the tags.
pub open spec fn headline_entered(s: RenderState, headline: Headline) -> RenderState
    decreases headline, 0nat,
{
    rendered_all(
        s.emit(heading_open(headline.level, slug(headline.raw_title@))),
        headline.title@,
        headline.title@.len(),
    ).emit(heading_close(headline.level))
}

/// The state after a list item was entered. In a descriptive list the
/// item's tag is rendered as the term, and the definition opened; in any
/// other list a plain item is opened.
pub open spec fn list_item_entered(s: RenderState, item: ListItem) -> RenderState
    decreases item, 0nat,
{
    if s.in_descriptive_list() {
        rendered_all(s.emit("<dt>"@), item.tag@, item.tag@.len()).emit("</dt><dd>"@)
    } else {
        s.emit("<li>"@)
    }
}

/// The state after a container was left, and whether the visitor asks to
/// skip, which has no effect then.
pub open spec fn left(s: RenderState, c: Container) -> (RenderState, bool) {
    match c.kind {
        Kind::Document => (s.emit("</main>"@), false),
        Kind::Headline(_) => (s, false),
        Kind::Paragraph => (s.paragraph_left(), false),
        Kind::Section => (s.emit(close_tag_chars("section"@)), false),
        Kind::Italic => (s.emit(close_tag_chars("i"@)), false),
        Kind::Bold => (s.emit(close_tag_chars("b"@)), false),
        Kind::Strike => (s.emit(close_tag_chars("s"@)), false),
        Kind::Underline => (s.emit(close_tag_chars("u"@)), false),
        Kind::Verbatim => ((RenderState { verbatim: false, ..s }).emit(close_tag_chars("code"@)), false),
        Kind::Code => ((RenderState { verbatim: false, ..s }).emit(close_tag_chars("code"@)), false),
        Kind::SourceBlock(_) => (s.emit("</pre></div>"@), false),
        Kind::QuoteBlock => (s.emit(close_tag_chars("blockquote"@)), false),
        Kind::VerseBlock => (s.emit(close_tag_chars("p"@)), false),
        Kind::ExampleBlock => (s.emit(close_tag_chars("pre"@)), false),
        Kind::CenterBlock => (s.emit(close_tag_chars("div"@)), false),
        Kind::CommentBlock => (s.emit("-->"@), false),
        Kind::Comment => (s.emit("-->"@), false),
        Kind::Subscript => (s.emit(close_tag_chars("sub"@)), false),
        Kind::Superscript => (s.emit(close_tag_chars("sup"@)), false),
        Kind::List(list) => (s.list_left(list), false),
        Kind::ListItem(_) => (s.list_item_left(), false),
        Kind::OrgTable => (s.emit(close_tag_chars("table"@)), false),
        Kind::OrgTableRow(row) => if row.rule {
            (s, true)
        } else {
            (s.emit("</tr>"@), false)
        },
        Kind::OrgTableCell => (s.emit(close_tag_chars("td"@)), false),
        Kind::Link(_) => (s.emit(close_tag_chars("a"@)), false),
        Kind::Keyword(_) => (s, false),
        Kind::Other => (s, false),
    }
}

/// The state after a node was rendered. A container is entered, its
/// children are rendered in order unless they are passed over, and it is
/// left; a container whose children are passed over is not left.
pub open spec fn rendered(s: RenderState, node: Node) -> RenderState
    decreases node, 0nat,
{
    match node {
        Node::Container(c) => {
            let (inside, skip) = entered(s, c);
            if skip {
                inside
            } else {
                left(rendered_all(inside, c.children@, c.children@.len()), c).0
            }
        },
        Node::Text(text) => s.text_written(text@),
        Node::LineBreak => s.emit("<br/>"@),
        Node::Snippet(snippet) => s.snippet_written(snippet),
        Node::Rule => s.emit("<hr/>"@),
        Node::Timestamp(timestamp) => s.timestamp_written(timestamp),
        Node::LatexFragment(source) => s.emit(source@),
        Node::LatexEnvironment(source) => s.emit(source@),
        Node::Entity(html) => s.emit(html@),
        Node::Other => s,
    }
}

/// The state after the first `n` of the nodes were rendered, in order.
pub open spec fn rendered_all(s: RenderState, nodes: Seq<Node>, n: nat) -> RenderState
    decreases nodes, n,
{
    if n == 0 || n > nodes.len() {
        s
    } else {
        rendered(rendered_all(s, nodes, (n - 1) as nat), nodes[n - 1])
    }
}

/// The document as HTML: what rendering it writes, begun with nothing.
pub open spec fn html_of(doc: Node) -> Seq<char> {
    rendered(RenderState::fresh(), doc).output
}

/// The state after an event was handled, and whether the visitor asks to
/// skip.
pub open spec fn after_event(s: RenderState, event: Event) -> (RenderState, bool) {
    match event {
        Event::Enter(c) => entered(s, *c),
        Event::Leave(c) => left(s, *c),
        Event::Text(text) => (s.text_written(text@), false),
        Event::LineBreak => (s.emit("<br/>"@), false),
        Event::Snippet(snippet) => (s.snippet_written(*snippet), false),
        Event::Rule => (s.emit("<hr/>"@), false),
        Event::Timestamp(timestamp) => (s.timestamp_written(*timestamp), false),
        Event::LatexFragment(source) => (s.emit(source@), false),
        Event::LatexEnvironment(source) => (s.emit(source@), false),
        Event::Entity(html) => (s.emit(html@), false),
        Event::Other => (s, false),
    }
}

/// A paragraph that holds a keyword and nothing else leaves no trace: the
/// keyword writes nothing, so the paragraph's opening tag is taken back and
/// the output is what it was. This holds of an `ATTR_HTML` keyword and of
/// any other, whatever the keyword itself holds.
pub proof fn lemma_keyword_only_paragraph(s: RenderState, paragraph: Container, keyword: Container)
    requires
        paragraph.kind is Paragraph,
        keyword.kind is Keyword,
        paragraph.children@ == seq![Node::Container(keyword)],
    ensures
        rendered(s, Node::Container(paragraph)).output == s.output,
        rendered(s, Node::Container(paragraph)).paragraphs == s.paragraphs,
        rendered(s, Node::Container(paragraph)).pending is None,
{
    reveal_strlit("<p>");
    let opened = s.paragraph_entered();
    assert(entered(s, paragraph) == (opened, false));
    let children = paragraph.children@;
    assert(rendered_all(opened, children, 0) == opened);
    assert(rendered_all(opened, children, 1) == rendered(opened, children[0]));
    let read = opened.keyword_read(keyword.kind->Keyword_0);
    assert(entered(opened, keyword) == (read, true));
    assert(rendered(opened, Node::Container(keyword)) == read);
    assert(read.output == opened.output);
    assert(read.paragraphs == opened.paragraphs);
    assert(read.paragraph_is_empty());
    assert(read.paragraph_left().output =~= s.output);
    assert(read.paragraph_left().paragraphs =~= s.paragraphs);
}

/// Reading a keyword leaves the waiting attributes without a repeated
/// key, and gives each key of an `ATTR_HTML` keyword the value that the
/// keyword states for it: a new key stands for a waiting one of the same
/// name.
pub proof fn lemma_keyword_read(s: RenderState, keyword: Keyword)
    requires
        s.well_formed(),
    ensures
        s.keyword_read(keyword).well_formed(),
        same_ignoring_ascii_case(keyword.key@, "attr_html"@) ==> (s.keyword_read(
            keyword,
        ).pending matches Some(waiting) && forall|k: Seq<char>| #[trigger]
            value_of(waiting, k) == match value_of(parsed_attrs(keyword.value@), k) {
                Some(v) => Some(v),
                None => match s.pending {
                    Some(before) => value_of(before, k),
                    None => None,
                },
            }),
{
    let parsed = parsed_attrs(keyword.value@);
    lemma_parsed_attrs_distinct(keyword.value@);
    match s.pending {
        Some(before) => {
            lemma_merged(before, parsed);
        },
        None => {},
    }
}

/// Writing text leaves the waiting attributes without a repeated key.
pub proof fn lemma_autolinked_well_formed(s: RenderState, chars: Seq<char>, pos: int)
    requires
        s.well_formed(),
    ensures
        s.autolinked(chars, pos).well_formed(),
    decreases chars.len() - pos,
{
    if 0 <= pos < chars.len() {
        match url_at(chars, pos) {
            Some((url, end)) => {
                lemma_url_end(chars, pos);
                lemma_autolinked_well_formed(s.linked(url), chars, end);
            },
            None => {
                lemma_autolinked_well_formed(s.emit(escaped_char(chars[pos])), chars, pos + 1);
            },
        }
    }
}

/// Entering a container leaves the waiting attributes without a repeated
/// key.
pub proof fn lemma_entered_well_formed(s: RenderState, c: Container)
    requires
        s.well_formed(),
    ensures
        entered(s, c).0.well_formed(),
    decreases c, 0nat,
{
    match c.kind {
        Kind::Headline(headline) => {
            lemma_rendered_all_well_formed(
                s.emit(heading_open(headline.level, slug(headline.raw_title@))),
                headline.title@,
                headline.title@.len(),
            );
        },
        Kind::ListItem(item) => {
            if s.in_descriptive_list() {
                lemma_rendered_all_well_formed(s.emit("<dt>"@), item.tag@, item.tag@.len());
            }
        },
        Kind::Keyword(keyword) => {
            lemma_keyword_read(s, keyword);
        },
        _ => {},
    }
}

/// Rendering a node leaves the waiting attributes without a repeated key.
pub proof fn lemma_rendered_well_formed(s: RenderState, node: Node)
    requires
        s.well_formed(),
    ensures
        rendered(s, node).well_formed(),
    decreases node, 1nat,
{
    match node {
        Node::Container(c) => {
            lemma_entered_well_formed(s, c);
            lemma_rendered_all_well_formed(entered(s, c).0, c.children@, c.children@.len());
        },
        Node::Text(text) => {
            lemma_autolinked_well_formed(s, text@, 0);
        },
        _ => {},
    }
}

/// Rendering nodes leaves the waiting attributes without a repeated key.
pub proof fn lemma_rendered_all_well_formed(s: RenderState, nodes: Seq<Node>, n: nat)
    requires
        s.well_formed(),
    ensures
        rendered_all(s, nodes, n).well_formed(),
    decreases nodes, n,
{
    if n == 0 || n > nodes.len() {
    } else {
        lemma_rendered_all_well_formed(s, nodes, (n - 1) as nat);
        lemma_rendered_well_formed(rendered_all(s, nodes, (n - 1) as nat), nodes[n - 1]);
    }
}

/// Handling an event leaves the waiting attributes without a repeated key.
pub proof fn lemma_after_event_well_formed(s: RenderState, event: Event)
    requires
        s.well_formed(),
    ensures
        after_event(s, event).0.well_formed(),
{
    match event {
        Event::Enter(c) => {
            lemma_entered_well_formed(s, *c);
        },
        Event::Text(text) => {
            lemma_autolinked_well_formed(s, text@, 0);
        },
        _ => {},
    }
}

/// A table row that is a rule leaves no trace, whatever it holds: nothing
/// is written for it and nothing in it is read.
pub proof fn lemma_rule_row(s: RenderState, row: Container)
    requires
        row.kind matches Kind::OrgTableRow(r) && r.rule,
    ensures
        rendered(s, Node::Container(row)) == s,
{
}

/// A table that holds one row of cells and one rule row is written with
/// one row: the table's tags, and between them the row's tags around what
/// the cells write.
pub proof fn lemma_table_with_rule_row(
    s: RenderState,
    table: Container,
    row: Container,
    rule: Container,
)
    requires
        table.kind is OrgTable,
        row.kind matches Kind::OrgTableRow(r) && !r.rule,
        rule.kind matches Kind::OrgTableRow(r) && r.rule,
        table.children@ == seq![Node::Container(row), Node::Container(rule)],
    ensures
        rendered(s, Node::Container(table)) == rendered_all(
            s.emit(open_tag_chars("table"@)).emit("<tr>"@),
            row.children@,
            row.children@.len(),
        ).emit("</tr>"@).emit(close_tag_chars("table"@)),
{
    let opened = s.emit(open_tag_chars("table"@));
    let children = table.children@;
    assert(rendered_all(opened, children, 0) == opened);
    assert(rendered_all(opened, children, 1) == rendered(opened, children[0]));
    assert(rendered_all(opened, children, 2) == rendered(
        rendered_all(opened, children, 1),
        children[1],
    ));
    lemma_rule_row(rendered_all(opened, children, 1), rule);
}

} // verus!
