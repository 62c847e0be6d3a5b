//! The tags that the HTML renderer writes, and the proof that they are
//! balanced.

use vstd::prelude::*;
use crate::escape::{escaped, escaped_char};
use crate::render::{
    anchor_open, close_tag_chars, digit, entered, heading_close, heading_level, heading_open,
    html_of, image_tag, left, open_tag_chars, pending_chars, rendered, rendered_all, timestamp_chars,
    without_file_scheme, RenderState,
};
use crate::markup::{
    balanced, lemma_open_after_concat, lemma_open_after_element, lemma_open_after_one,
    lemma_written_concat, lemma_written_none, lemma_written_one, lemma_written_three,
    lemma_written_two, open_after, written, Markup,
};
use crate::slug::slug;
use crate::text::same_ignoring_ascii_case;
use crate::tree::{Container, Kind, Link, Node, SourceBlock};
use crate::url::{lemma_url_end, names_image, url_at};

verus! {

/// The name of the element of a heading.
pub open spec fn heading_name(level: usize) -> Seq<char> {
    seq!['h', digit(heading_level(level))]
}

/// The attributes of an anchor: where it leads, and what else it carries.
pub open spec fn href_attrs(href: Seq<char>, attrs: Seq<char>) -> Seq<char> {
    " href=\""@ + escaped(href) + seq!['"'] + attrs
}

/// The tag that opens an anchor.
pub open spec fn anchor(href: Seq<char>, attrs: Seq<char>) -> Markup {
    Markup::Open { name: "a"@, attrs: href_attrs(href, attrs) }
}

/// The markup of a URL that was found in text.
pub open spec fn url_markup(s: RenderState, url: Seq<char>) -> Seq<Markup> {
    let attrs = pending_chars(s.pending, true);
    if names_image(url) && s.pending is Some {
        seq![Markup::Text(image_tag(url, attrs))]
    } else {
        seq![anchor(url, attrs), Markup::Text(escaped(url)), Markup::Close { name: "a"@ }]
    }
}

/// The markup of the text from index `pos` on.
pub open spec fn autolink_markup(s: RenderState, chars: Seq<char>, pos: int) -> Seq<Markup>
    decreases chars.len() - pos,
{
    if pos < 0 || pos >= chars.len() {
        Seq::empty()
    } else {
        match url_at(chars, pos) {
            Some((url, end)) => {
                proof {
                    lemma_url_end(chars, pos);
                }
                url_markup(s, url) + autolink_markup(s.linked(url), chars, end)
            },
            None => seq![Markup::Text(escaped_char(chars[pos]))] + autolink_markup(
                s.emit(escaped_char(chars[pos])),
                chars,
                pos + 1,
            ),
        }
    }
}

/// The markup of a link when it is entered.
pub open spec fn link_markup(s: RenderState, link: Link) -> Seq<Markup> {
    let path = without_file_scheme(link.path@);
    let attrs = pending_chars(s.pending, link.image);
    if link.image {
        seq![Markup::Text(image_tag(path, attrs))]
    } else if !link.description {
        seq![anchor(path, attrs), Markup::Text(escaped(path)), Markup::Close { name: "a"@ }]
    } else {
        seq![anchor(path, attrs)]
    }
}

/// The markup of a source block when it is entered.
pub open spec fn source_block_markup(block: SourceBlock) -> Seq<Markup> {
    seq![
        Markup::Open { name: "div"@, attrs: " class=\"org-src-container\""@ },
        Markup::Open {
            name: "pre"@,
            attrs: match block.language {
                Some(language) => " class=\"src src-"@ + escaped(language@) + seq!['"'],
                None => " class=\"src\""@,
            },
        },
    ]
}

/// Whether what a container holds is passed over.
pub open spec fn skips(c: Container) -> bool {
    match c.kind {
        Kind::Keyword(_) => true,
        Kind::OrgTableRow(row) => row.rule,
        Kind::Link(link) => link.image || !link.description,
        _ => false,
    }
}

/// The markup that is written when a container is entered.
pub open spec fn enter_markup(s: RenderState, c: Container) -> Seq<Markup>
    decreases c, 0nat,
{
    match c.kind {
        Kind::Document => seq![Markup::open("main"@)],
        Kind::Headline(headline) => seq![
            Markup::Open {
                name: heading_name(headline.level),
                attrs: " id=\""@ + slug(headline.raw_title@) + seq!['"'],
            },
        ] + markup_of_all(
            s.emit(heading_open(headline.level, slug(headline.raw_title@))),
            headline.title@,
            headline.title@.len(),
        ) + seq![Markup::Close { name: heading_name(headline.level) }],
        Kind::Paragraph => seq![Markup::open("p"@)],
        Kind::Section => seq![Markup::open("section"@)],
        Kind::Italic => seq![Markup::open("i"@)],
        Kind::Bold => seq![Markup::open("b"@)],
        Kind::Strike => seq![Markup::open("s"@)],
        Kind::Underline => seq![Markup::open("u"@)],
        Kind::Verbatim => seq![Markup::open("code"@)],
        Kind::Code => seq![Markup::open("code"@)],
        Kind::SourceBlock(block) => source_block_markup(block),
        Kind::QuoteBlock => seq![Markup::open("blockquote"@)],
        Kind::VerseBlock => seq![Markup::Open { name: "p"@, attrs: " class=\"verse\""@ }],
        Kind::ExampleBlock => seq![Markup::Open { name: "pre"@, attrs: " class=\"example\""@ }],
        Kind::CenterBlock => seq![Markup::Open { name: "div"@, attrs: " class=\"center\""@ }],
        Kind::CommentBlock => seq![Markup::Text("<!--"@)],
        Kind::Comment => seq![Markup::Text("<!--"@)],
        Kind::Subscript => seq![Markup::open("sub"@)],
        Kind::Superscript => seq![Markup::open("sup"@)],
        Kind::List(list) => if list.ordered {
            seq![Markup::open("ol"@)]
        } else if list.descriptive {
            seq![Markup::open("dl"@)]
        } else {
            seq![Markup::open("ul"@)]
        },
        Kind::ListItem(item) => if s.in_descriptive_list() {
            seq![Markup::open("dt"@)] + markup_of_all(s.emit("<dt>"@), item.tag@, item.tag@.len())
                + seq![Markup::Close { name: "dt"@ }, Markup::open("dd"@)]
        } else {
            seq![Markup::open("li"@)]
        },
        Kind::OrgTable => seq![Markup::open("table"@)],
        Kind::OrgTableRow(row) => if row.rule {
            Seq::empty()
        } else {
            seq![Markup::open("tr"@)]
        },
        Kind::OrgTableCell => seq![Markup::open("td"@)],
        Kind::Link(link) => link_markup(s, link),
        Kind::Keyword(_) => Seq::empty(),
        Kind::Other => Seq::empty(),
    }
}

/// The markup that is written when a container is left, in the state `s`;
/// for a paragraph, when it is not taken back.
pub open spec fn leave_markup(s: RenderState, c: Container) -> Seq<Markup> {
    match c.kind {
        Kind::Document => seq![Markup::Close { name: "main"@ }],
        Kind::Headline(_) => Seq::empty(),
        Kind::Paragraph => seq![Markup::Close { name: "p"@ }],
        Kind::Section => seq![Markup::Close { name: "section"@ }],
        Kind::Italic => seq![Markup::Close { name: "i"@ }],
        Kind::Bold => seq![Markup::Close { name: "b"@ }],
        Kind::Strike => seq![Markup::Close { name: "s"@ }],
        Kind::Underline => seq![Markup::Close { name: "u"@ }],
        Kind::Verbatim => seq![Markup::Close { name: "code"@ }],
        Kind::Code => seq![Markup::Close { name: "code"@ }],
        Kind::SourceBlock(_) => seq![Markup::Close { name: "pre"@ }, Markup::Close { name: "div"@ }],
        Kind::QuoteBlock => seq![Markup::Close { name: "blockquote"@ }],
        Kind::VerseBlock => seq![Markup::Close { name: "p"@ }],
        Kind::ExampleBlock => seq![Markup::Close { name: "pre"@ }],
        Kind::CenterBlock => seq![Markup::Close { name: "div"@ }],
        Kind::CommentBlock => seq![Markup::Text("-->"@)],
        Kind::Comment => seq![Markup::Text("-->"@)],
        Kind::Subscript => seq![Markup::Close { name: "sub"@ }],
        Kind::Superscript => seq![Markup::Close { name: "sup"@ }],
        Kind::List(list) => if list.ordered {
            seq![Markup::Close { name: "ol"@ }]
        } else if list.descriptive {
            seq![Markup::Close { name: "dl"@ }]
        } else {
            seq![Markup::Close { name: "ul"@ }]
        },
        Kind::ListItem(_) => if s.in_descriptive_list() {
            seq![Markup::Close { name: "dd"@ }]
        } else {
            seq![Markup::Close { name: "li"@ }]
        },
        Kind::OrgTable => seq![Markup::Close { name: "table"@ }],
        Kind::OrgTableRow(row) => if row.rule {
            Seq::empty()
        } else {
            seq![Markup::Close { name: "tr"@ }]
        },
        Kind::OrgTableCell => seq![Markup::Close { name: "td"@ }],
        Kind::Link(_) => seq![Markup::Close { name: "a"@ }],
        Kind::Keyword(_) => Seq::empty(),
        Kind::Other => Seq::empty(),
    }
}

/// Whether a paragraph that held `inner` is taken back: it is if nothing
/// was written in it.
pub open spec fn taken_back(c: Container, inner: Seq<Markup>) -> bool {
    c.kind is Paragraph && written(inner).len() == 0
}

/// The markup that rendering a node writes, begun in the state `s`.
pub open spec fn markup_of(s: RenderState, node: Node) -> Seq<Markup>
    decreases node, 0nat,
{
    match node {
        Node::Container(c) => {
            let inside = entered(s, c).0;
            if skips(c) {
                enter_markup(s, c)
            } else {
                let inner = markup_of_all(inside, c.children@, c.children@.len());
                let after = rendered_all(inside, c.children@, c.children@.len());
                if taken_back(c, inner) {
                    Seq::empty()
                } else {
                    enter_markup(s, c) + inner + leave_markup(after, c)
                }
            }
        },
        Node::Text(text) => if s.verbatim {
            seq![Markup::Text(escaped(text@))]
        } else {
            autolink_markup(s, text@, 0)
        },
        Node::LineBreak => seq![Markup::Text("<br/>"@)],
        Node::Snippet(snippet) => if same_ignoring_ascii_case(snippet.backend@, "html"@) {
            seq![Markup::Text(snippet.value@)]
        } else {
            Seq::empty()
        },
        Node::Rule => seq![Markup::Text("<hr/>"@)],
        Node::Timestamp(timestamp) => seq![
            Markup::Open { name: "span"@, attrs: " class=\"timestamp-wrapper\""@ },
            Markup::Open { name: "span"@, attrs: " class=\"timestamp\""@ },
            Markup::Text(timestamp_chars(timestamp.tokens@, timestamp.tokens@.len())),
            Markup::Close { name: "span"@ },
            Markup::Close { name: "span"@ },
        ],
        Node::LatexFragment(source) => seq![Markup::Text(source@)],
        Node::LatexEnvironment(source) => seq![Markup::Text(source@)],
        Node::Entity(html) => seq![Markup::Text(html@)],
        Node::Other => Seq::empty(),
    }
}

/// The markup that rendering the first `n` of the nodes writes, begun in
/// the state `s`.
pub open spec fn markup_of_all(s: RenderState, nodes: Seq<Node>, n: nat) -> Seq<Markup>
    decreases nodes, n,
{
    if n == 0 || n > nodes.len() {
        Seq::empty()
    } else {
        markup_of_all(s, nodes, (n - 1) as nat) + markup_of(
            rendered_all(s, nodes, (n - 1) as nat),
            nodes[n - 1],
        )
    }
}

/// The tag that opens an anchor is written as the renderer writes it.
proof fn lemma_anchor_chars(href: Seq<char>, attrs: Seq<char>)
    ensures
        anchor(href, attrs).chars() == anchor_open(href, attrs),
{
    reveal_strlit("<a href=\"");
    reveal_strlit(" href=\"");
    reveal_strlit("a");
    assert(anchor(href, attrs).chars() =~= anchor_open(href, attrs));
}

/// An anchor that shows its own text is written as the renderer writes it.
proof fn lemma_whole_anchor(href: Seq<char>, attrs: Seq<char>, text: Seq<char>)
    ensures
        written(seq![anchor(href, attrs), Markup::Text(text), Markup::Close { name: "a"@ }])
            == anchor_open(href, attrs) + text + "</a>"@,
{
    lemma_anchor_chars(href, attrs);
    lemma_written_three(anchor(href, attrs), Markup::Text(text), Markup::Close { name: "a"@ });
    reveal_strlit("</a>");
    reveal_strlit("a");
    assert((Markup::Close { name: "a"@ }).chars() =~= "</a>"@);
}

/// The markup of a URL is what the renderer writes for it.
proof fn lemma_url_written(s: RenderState, url: Seq<char>)
    ensures
        s.linked(url).output == s.output + written(url_markup(s, url)),
        s.linked(url).paragraphs == s.paragraphs,
        s.linked(url).lists == s.lists,
        s.linked(url).verbatim == s.verbatim,
{
    let attrs = pending_chars(s.pending, true);
    if names_image(url) && s.pending is Some {
        lemma_written_one(Markup::Text(image_tag(url, attrs)));
    } else {
        lemma_whole_anchor(url, attrs, escaped(url));
    }
}

/// The markup of text is what the renderer writes for it, and writing text
/// leaves the open lists and paragraphs as they are.
proof fn lemma_autolinked(s: RenderState, chars: Seq<char>, pos: int)
    ensures
        s.autolinked(chars, pos).output == s.output + written(autolink_markup(s, chars, pos)),
        s.autolinked(chars, pos).paragraphs == s.paragraphs,
        s.autolinked(chars, pos).lists == s.lists,
        s.autolinked(chars, pos).verbatim == s.verbatim,
    decreases chars.len() - pos,
{
    if pos < 0 || pos >= chars.len() {
        assert(s.output + written(autolink_markup(s, chars, pos)) =~= s.output);
    } else {
        match url_at(chars, pos) {
            Some((url, end)) => {
                lemma_url_end(chars, pos);
                lemma_url_written(s, url);
                lemma_autolinked(s.linked(url), chars, end);
                lemma_written_concat(
                    url_markup(s, url),
                    autolink_markup(s.linked(url), chars, end),
                );
                assert(s.autolinked(chars, pos).output =~= s.output + written(
                    autolink_markup(s, chars, pos),
                ));
            },
            None => {
                let one = Markup::Text(escaped_char(chars[pos]));
                let next = s.emit(escaped_char(chars[pos]));
                lemma_written_one(one);
                lemma_autolinked(next, chars, pos + 1);
                lemma_written_concat(seq![one], autolink_markup(next, chars, pos + 1));
                assert(s.autolinked(chars, pos).output =~= s.output + written(
                    autolink_markup(s, chars, pos),
                ));
            },
        }
    }
}

/// Text leaves open what it found open.
proof fn lemma_autolink_closed(
    s: RenderState,
    chars: Seq<char>,
    pos: int,
    open: Seq<Seq<char>>,
)
    ensures
        open_after(open, autolink_markup(s, chars, pos)) == Some(open),
    decreases chars.len() - pos,
{
    if pos < 0 || pos >= chars.len() {
    } else {
        match url_at(chars, pos) {
            Some((url, end)) => {
                lemma_url_end(chars, pos);
                lemma_url_closed(s, url, open);
                lemma_autolink_closed(s.linked(url), chars, end, open);
                lemma_open_after_concat(
                    open,
                    url_markup(s, url),
                    autolink_markup(s.linked(url), chars, end),
                );
            },
            None => {
                let one = Markup::Text(escaped_char(chars[pos]));
                let next = s.emit(escaped_char(chars[pos]));
                lemma_open_after_one(open, one);
                lemma_autolink_closed(next, chars, pos + 1, open);
                lemma_open_after_concat(open, seq![one], autolink_markup(next, chars, pos + 1));
            },
        }
    }
}

/// An anchor that shows its own text leaves open what it found open.
proof fn lemma_whole_anchor_closed(
    href: Seq<char>,
    attrs: Seq<char>,
    text: Seq<char>,
    open: Seq<Seq<char>>,
)
    ensures
        open_after(
            open,
            seq![anchor(href, attrs), Markup::Text(text), Markup::Close { name: "a"@ }],
        ) == Some(open),
{
    let inner = seq![Markup::Text(text)];
    lemma_open_after_one(open.push("a"@), Markup::Text(text));
    lemma_open_after_element(open, "a"@, href_attrs(href, attrs), inner);
    assert(seq![anchor(href, attrs), Markup::Text(text), Markup::Close { name: "a"@ }] =~= seq![
        anchor(href, attrs),
    ] + inner + seq![Markup::Close { name: "a"@ }]);
}

/// The markup of a URL leaves open what it found open.
proof fn lemma_url_closed(s: RenderState, url: Seq<char>, open: Seq<Seq<char>>)
    ensures
        open_after(open, url_markup(s, url)) == Some(open),
{
    let attrs = pending_chars(s.pending, true);
    if names_image(url) && s.pending is Some {
        lemma_open_after_one(open, Markup::Text(image_tag(url, attrs)));
    } else {
        lemma_whole_anchor_closed(url, attrs, escaped(url), open);
    }
}

/// A tag without attributes is written as the renderer writes it.
proof fn lemma_open_chars(name: Seq<char>)
    ensures
        written(seq![Markup::open(name)]) == open_tag_chars(name),
        written(seq![Markup::Close { name }]) == close_tag_chars(name),
{
    lemma_written_one(Markup::open(name));
    lemma_written_one(Markup::Close { name });
    assert(Markup::open(name).chars() =~= open_tag_chars(name));
}

/// The tags that the renderer writes as whole strings are the tags that
/// their markup names.
proof fn lemma_literal_tags()
    ensures
        "<main>"@ == open_tag_chars("main"@),
        "</main>"@ == close_tag_chars("main"@),
        "<p>"@ == open_tag_chars("p"@),
        "</p>"@ == close_tag_chars("p"@),
        "<ol>"@ == open_tag_chars("ol"@),
        "<dl>"@ == open_tag_chars("dl"@),
        "<ul>"@ == open_tag_chars("ul"@),
        "</ol>"@ == close_tag_chars("ol"@),
        "</dl>"@ == close_tag_chars("dl"@),
        "</ul>"@ == close_tag_chars("ul"@),
        "<dt>"@ == open_tag_chars("dt"@),
        "</dt><dd>"@ == close_tag_chars("dt"@) + open_tag_chars("dd"@),
        "</dd>"@ == close_tag_chars("dd"@),
        "<li>"@ == open_tag_chars("li"@),
        "</li>"@ == close_tag_chars("li"@),
        "<tr>"@ == open_tag_chars("tr"@),
        "</tr>"@ == close_tag_chars("tr"@),
        "</pre></div>"@ == close_tag_chars("pre"@) + close_tag_chars("div"@),
{
    reveal_strlit("<main>");
    reveal_strlit("</main>");
    reveal_strlit("main");
    reveal_strlit("<p>");
    reveal_strlit("</p>");
    reveal_strlit("p");
    reveal_strlit("<ol>");
    reveal_strlit("ol");
    reveal_strlit("<dl>");
    reveal_strlit("dl");
    reveal_strlit("<ul>");
    reveal_strlit("ul");
    reveal_strlit("</ol>");
    reveal_strlit("</dl>");
    reveal_strlit("</ul>");
    reveal_strlit("<dt>");
    reveal_strlit("dt");
    reveal_strlit("</dt><dd>");
    reveal_strlit("dd");
    reveal_strlit("</dd>");
    reveal_strlit("<li>");
    reveal_strlit("</li>");
    reveal_strlit("li");
    reveal_strlit("<tr>");
    reveal_strlit("</tr>");
    reveal_strlit("tr");
    reveal_strlit("</pre></div>");
    reveal_strlit("pre");
    reveal_strlit("div");
    assert("<main>"@ =~= open_tag_chars("main"@));
    assert("</main>"@ =~= close_tag_chars("main"@));
    assert("<p>"@ =~= open_tag_chars("p"@));
    assert("</p>"@ =~= close_tag_chars("p"@));
    assert("<ol>"@ =~= open_tag_chars("ol"@));
    assert("<dl>"@ =~= open_tag_chars("dl"@));
    assert("<ul>"@ =~= open_tag_chars("ul"@));
    assert("</ol>"@ =~= close_tag_chars("ol"@));
    assert("</dl>"@ =~= close_tag_chars("dl"@));
    assert("</ul>"@ =~= close_tag_chars("ul"@));
    assert("<dt>"@ =~= open_tag_chars("dt"@));
    assert("</dt><dd>"@ =~= close_tag_chars("dt"@) + open_tag_chars("dd"@));
    assert("</dd>"@ =~= close_tag_chars("dd"@));
    assert("<li>"@ =~= open_tag_chars("li"@));
    assert("</li>"@ =~= close_tag_chars("li"@));
    assert("<tr>"@ =~= open_tag_chars("tr"@));
    assert("</tr>"@ =~= close_tag_chars("tr"@));
    assert("</pre></div>"@ =~= close_tag_chars("pre"@) + close_tag_chars("div"@));
}

/// The tags with a class that the renderer writes as whole strings are the
/// tags that their markup names.
proof fn lemma_literal_classes()
    ensures
        "<p class=\"verse\">"@ == (Markup::Open { name: "p"@, attrs: " class=\"verse\""@ }).chars(),
        "<pre class=\"example\">"@ == (Markup::Open {
            name: "pre"@,
            attrs: " class=\"example\""@,
        }).chars(),
        "<div class=\"center\">"@ == (Markup::Open {
            name: "div"@,
            attrs: " class=\"center\""@,
        }).chars(),
        "<div class=\"org-src-container\">"@ == (Markup::Open {
            name: "div"@,
            attrs: " class=\"org-src-container\""@,
        }).chars(),
        "<pre class=\"src\">"@ == (Markup::Open { name: "pre"@, attrs: " class=\"src\""@ }).chars(),
        forall|language: Seq<char>|
            #![auto]
            "<pre class=\"src src-"@ + escaped(language) + "\">"@ == (Markup::Open {
                name: "pre"@,
                attrs: " class=\"src src-"@ + escaped(language) + seq!['"'],
            }).chars(),
{
    reveal_strlit("<p class=\"verse\">");
    reveal_strlit(" class=\"verse\"");
    reveal_strlit("p");
    reveal_strlit("<pre class=\"example\">");
    reveal_strlit(" class=\"example\"");
    reveal_strlit("pre");
    reveal_strlit("<div class=\"center\">");
    reveal_strlit(" class=\"center\"");
    reveal_strlit("div");
    reveal_strlit("<div class=\"org-src-container\">");
    reveal_strlit(" class=\"org-src-container\"");
    reveal_strlit("<pre class=\"src\">");
    reveal_strlit(" class=\"src\"");
    reveal_strlit("<pre class=\"src src-");
    reveal_strlit(" class=\"src src-");
    reveal_strlit("\">");
    assert("<p class=\"verse\">"@ =~= (Markup::Open {
        name: "p"@,
        attrs: " class=\"verse\""@,
    }).chars());
    assert("<pre class=\"example\">"@ =~= (Markup::Open {
        name: "pre"@,
        attrs: " class=\"example\""@,
    }).chars());
    assert("<div class=\"center\">"@ =~= (Markup::Open {
        name: "div"@,
        attrs: " class=\"center\""@,
    }).chars());
    assert("<div class=\"org-src-container\">"@ =~= (Markup::Open {
        name: "div"@,
        attrs: " class=\"org-src-container\""@,
    }).chars());
    assert("<pre class=\"src\">"@ =~= (Markup::Open {
        name: "pre"@,
        attrs: " class=\"src\""@,
    }).chars());
    assert forall|language: Seq<char>|
        #![auto]
        "<pre class=\"src src-"@ + escaped(language) + "\">"@ == (Markup::Open {
            name: "pre"@,
            attrs: " class=\"src src-"@ + escaped(language) + seq!['"'],
        }).chars() by {
        assert("<pre class=\"src src-"@ + escaped(language) + "\">"@ =~= (Markup::Open {
            name: "pre"@,
            attrs: " class=\"src src-"@ + escaped(language) + seq!['"'],
        }).chars());
    }
}

/// What entering a container writes is its markup, for every container
/// that does not render nodes of its own while it is entered; and entering
/// a container changes the open lists and paragraphs only for a list and
/// for a paragraph.
proof fn lemma_entered(s: RenderState, c: Container)
    requires
        !(c.kind is Headline),
        !(c.kind is ListItem && s.in_descriptive_list()),
    ensures
        entered(s, c).0.output == s.output + written(enter_markup(s, c)),
        entered(s, c).1 == skips(c),
        entered(s, c).0.paragraphs == if c.kind is Paragraph {
            s.paragraphs.push(s.output.len())
        } else {
            s.paragraphs
        },
        c.kind !is List ==> entered(s, c).0.lists == s.lists,
{
    lemma_literal_tags();
    lemma_literal_classes();
    let after = entered(s, c).0;
    let markup = enter_markup(s, c);
    match c.kind {
        Kind::Document => {
            lemma_open_chars("main"@);
        },
        Kind::Headline(_) => {},
        Kind::Paragraph => {
            lemma_open_chars("p"@);
        },
        Kind::Section => {
            lemma_open_chars("section"@);
        },
        Kind::Italic => {
            lemma_open_chars("i"@);
        },
        Kind::Bold => {
            lemma_open_chars("b"@);
        },
        Kind::Strike => {
            lemma_open_chars("s"@);
        },
        Kind::Underline => {
            lemma_open_chars("u"@);
        },
        Kind::Verbatim => {
            lemma_open_chars("code"@);
        },
        Kind::Code => {
            lemma_open_chars("code"@);
        },
        Kind::SourceBlock(block) => {
            let outer = Markup::Open { name: "div"@, attrs: " class=\"org-src-container\""@ };
            let inner = Markup::Open {
                name: "pre"@,
                attrs: match block.language {
                    Some(language) => " class=\"src src-"@ + escaped(language@) + seq!['"'],
                    None => " class=\"src\""@,
                },
            };
            lemma_written_two(outer, inner);
            assert(markup =~= seq![outer, inner]);
            assert(after.output =~= s.output + (outer.chars() + inner.chars()));
        },
        Kind::QuoteBlock => {
            lemma_open_chars("blockquote"@);
        },
        Kind::VerseBlock => {
            lemma_written_one(Markup::Open { name: "p"@, attrs: " class=\"verse\""@ });
        },
        Kind::ExampleBlock => {
            lemma_written_one(Markup::Open { name: "pre"@, attrs: " class=\"example\""@ });
        },
        Kind::CenterBlock => {
            lemma_written_one(Markup::Open { name: "div"@, attrs: " class=\"center\""@ });
        },
        Kind::CommentBlock => {
            lemma_written_one(Markup::Text("<!--"@));
        },
        Kind::Comment => {
            lemma_written_one(Markup::Text("<!--"@));
        },
        Kind::Subscript => {
            lemma_open_chars("sub"@);
        },
        Kind::Superscript => {
            lemma_open_chars("sup"@);
        },
        Kind::List(list) => {
            lemma_open_chars("ol"@);
            lemma_open_chars("dl"@);
            lemma_open_chars("ul"@);
        },
        Kind::ListItem(_) => {
            lemma_open_chars("li"@);
        },
        Kind::OrgTable => {
            lemma_open_chars("table"@);
        },
        Kind::OrgTableRow(row) => {
            lemma_open_chars("tr"@);
            if row.rule {
                assert(after.output =~= s.output + written(markup));
            }
        },
        Kind::OrgTableCell => {
            lemma_open_chars("td"@);
        },
        Kind::Link(link) => {
            let path = without_file_scheme(link.path@);
            let attrs = pending_chars(s.pending, link.image);
            if link.image {
                lemma_written_one(Markup::Text(image_tag(path, attrs)));
            } else if !link.description {
                lemma_whole_anchor(path, attrs, escaped(path));
            } else {
                lemma_anchor_chars(path, attrs);
                lemma_written_one(anchor(path, attrs));
            }
        },
        Kind::Keyword(_) => {
            assert(after.output =~= s.output + written(markup));
        },
        Kind::Other => {
            assert(after.output =~= s.output + written(markup));
        },
    }
}

/// What leaving a container writes is its markup, for every container but
/// a paragraph; and leaving a container changes the open lists and
/// paragraphs only for a list and for a paragraph.
proof fn lemma_left(s: RenderState, c: Container)
    requires
        !(c.kind is Paragraph),
    ensures
        left(s, c).0.output == s.output + written(leave_markup(s, c)),
        left(s, c).0.paragraphs == s.paragraphs,
        c.kind !is List ==> left(s, c).0.lists == s.lists,
{
    lemma_literal_tags();
    let after = left(s, c).0;
    let markup = leave_markup(s, c);
    match c.kind {
        Kind::Document => {
            lemma_open_chars("main"@);
        },
        Kind::Headline(_) => {
            assert(after.output =~= s.output + written(markup));
        },
        Kind::Paragraph => {},
        Kind::Section => {
            lemma_open_chars("section"@);
        },
        Kind::Italic => {
            lemma_open_chars("i"@);
        },
        Kind::Bold => {
            lemma_open_chars("b"@);
        },
        Kind::Strike => {
            lemma_open_chars("s"@);
        },
        Kind::Underline => {
            lemma_open_chars("u"@);
        },
        Kind::Verbatim => {
            lemma_open_chars("code"@);
        },
        Kind::Code => {
            lemma_open_chars("code"@);
        },
        Kind::SourceBlock(_) => {
            lemma_written_two(Markup::Close { name: "pre"@ }, Markup::Close { name: "div"@ });
        },
        Kind::QuoteBlock => {
            lemma_open_chars("blockquote"@);
        },
        Kind::VerseBlock => {
            lemma_open_chars("p"@);
        },
        Kind::ExampleBlock => {
            lemma_open_chars("pre"@);
        },
        Kind::CenterBlock => {
            lemma_open_chars("div"@);
        },
        Kind::CommentBlock => {
            lemma_written_one(Markup::Text("-->"@));
        },
        Kind::Comment => {
            lemma_written_one(Markup::Text("-->"@));
        },
        Kind::Subscript => {
            lemma_open_chars("sub"@);
        },
        Kind::Superscript => {
            lemma_open_chars("sup"@);
        },
        Kind::List(_) => {
            lemma_open_chars("ol"@);
            lemma_open_chars("dl"@);
            lemma_open_chars("ul"@);
        },
        Kind::ListItem(_) => {
            lemma_open_chars("dd"@);
            lemma_open_chars("li"@);
        },
        Kind::OrgTable => {
            lemma_open_chars("table"@);
        },
        Kind::OrgTableRow(row) => {
            lemma_open_chars("tr"@);
            if row.rule {
                assert(after.output =~= s.output + written(markup));
            }
        },
        Kind::OrgTableCell => {
            lemma_open_chars("td"@);
        },
        Kind::Link(_) => {
            lemma_open_chars("a"@);
        },
        Kind::Keyword(_) => {
            assert(after.output =~= s.output + written(markup));
        },
        Kind::Other => {
            assert(after.output =~= s.output + written(markup));
        },
    }
}

/// The tags of a heading and of a timestamp, which the renderer writes in
/// parts, are the tags that their markup names.
proof fn lemma_literal_parts()
    ensures
        forall|level: usize, id: Seq<char>|
            #![auto]
            heading_open(level, id) == (Markup::Open {
                name: heading_name(level),
                attrs: " id=\""@ + id + seq!['"'],
            }).chars(),
        forall|level: usize|
            #![auto]
            heading_close(level) == (Markup::Close { name: heading_name(level) }).chars(),
        "<span class=\"timestamp-wrapper\"><span class=\"timestamp\">"@ == (Markup::Open {
            name: "span"@,
            attrs: " class=\"timestamp-wrapper\""@,
        }).chars() + (Markup::Open { name: "span"@, attrs: " class=\"timestamp\""@ }).chars(),
        "</span></span>"@ == close_tag_chars("span"@) + close_tag_chars("span"@),
{
    reveal_strlit("<h");
    reveal_strlit(" id=\"");
    reveal_strlit("\">");
    reveal_strlit("</h");
    reveal_strlit("<span class=\"timestamp-wrapper\"><span class=\"timestamp\">");
    reveal_strlit(" class=\"timestamp-wrapper\"");
    reveal_strlit(" class=\"timestamp\"");
    reveal_strlit("span");
    reveal_strlit("</span></span>");
    assert forall|level: usize, id: Seq<char>|
        #![auto]
        heading_open(level, id) == (Markup::Open {
            name: heading_name(level),
            attrs: " id=\""@ + id + seq!['"'],
        }).chars() by {
        assert(heading_open(level, id) =~= (Markup::Open {
            name: heading_name(level),
            attrs: " id=\""@ + id + seq!['"'],
        }).chars());
    }
    assert forall|level: usize|
        #![auto]
        heading_close(level) == (Markup::Close { name: heading_name(level) }).chars() by {
        assert(heading_close(level) =~= (Markup::Close { name: heading_name(level) }).chars());
    }
    assert("<span class=\"timestamp-wrapper\"><span class=\"timestamp\">"@ =~= (Markup::Open {
        name: "span"@,
        attrs: " class=\"timestamp-wrapper\""@,
    }).chars() + (Markup::Open { name: "span"@, attrs: " class=\"timestamp\""@ }).chars());
    assert("</span></span>"@ =~= close_tag_chars("span"@) + close_tag_chars("span"@));
}

/// What entering a container writes is its markup, whatever the container;
/// and entering a container changes the open lists and paragraphs only for
/// a list and for a paragraph.
proof fn lemma_enter(s: RenderState, c: Container)
    ensures
        entered(s, c).0.output == s.output + written(enter_markup(s, c)),
        entered(s, c).1 == skips(c),
        entered(s, c).0.paragraphs == if c.kind is Paragraph {
            s.paragraphs.push(s.output.len())
        } else {
            s.paragraphs
        },
        c.kind !is List ==> entered(s, c).0.lists == s.lists,
    decreases c, 0nat,
{
    match c.kind {
        Kind::Headline(headline) => {
            lemma_literal_parts();
            let id = slug(headline.raw_title@);
            let first = Markup::Open {
                name: heading_name(headline.level),
                attrs: " id=\""@ + id + seq!['"'],
            };
            let last = Markup::Close { name: heading_name(headline.level) };
            let opened = s.emit(heading_open(headline.level, id));
            let n = headline.title@.len();
            let title = markup_of_all(opened, headline.title@, n);
            lemma_rendered_all(opened, headline.title@, n);
            lemma_written_one(first);
            lemma_written_one(last);
            lemma_written_concat(seq![first], title);
            lemma_written_concat(seq![first] + title, seq![last]);
            assert(entered(s, c).0.output =~= s.output + written(enter_markup(s, c)));
        },
        Kind::ListItem(item) => {
            if s.in_descriptive_list() {
                lemma_literal_tags();
                let opened = s.emit("<dt>"@);
                let n = item.tag@.len();
                let tag = markup_of_all(opened, item.tag@, n);
                let first = Markup::open("dt"@);
                let last = seq![Markup::Close { name: "dt"@ }, Markup::open("dd"@)];
                lemma_rendered_all(opened, item.tag@, n);
                lemma_open_chars("dt"@);
                lemma_open_chars("dd"@);
                lemma_written_two(Markup::Close { name: "dt"@ }, Markup::open("dd"@));
                lemma_written_one(Markup::Close { name: "dt"@ });
                lemma_written_one(Markup::open("dd"@));
                lemma_written_concat(seq![first], tag);
                lemma_written_concat(seq![first] + tag, last);
                assert(entered(s, c).0.output =~= s.output + written(enter_markup(s, c)));
            } else {
                lemma_entered(s, c);
            }
        },
        _ => {
            lemma_entered(s, c);
        },
    }
}

/// What rendering a node writes is its markup, and rendering a node leaves
/// the open lists and paragraphs as it found them.
pub proof fn lemma_rendered(s: RenderState, node: Node)
    ensures
        rendered(s, node).output == s.output + written(markup_of(s, node)),
        rendered(s, node).paragraphs == s.paragraphs,
        rendered(s, node).lists == s.lists,
    decreases node, 1nat,
{
    let markup = markup_of(s, node);
    let done = rendered(s, node);
    match node {
        Node::Container(c) => {
            lemma_enter(s, c);
            let inside = entered(s, c).0;
            if skips(c) {
            } else {
                let n = c.children@.len();
                let inner = markup_of_all(inside, c.children@, n);
                let after = rendered_all(inside, c.children@, n);
                lemma_rendered_all(inside, c.children@, n);
                if c.kind is Paragraph {
                    lemma_literal_tags();
                    reveal_strlit("<p>");
                    lemma_open_chars("p"@);
                    assert(after.paragraph_start() == s.output.len());
                    assert(after.output.len() == s.output.len() + 3 + written(inner).len());
                    if written(inner).len() == 0 {
                        assert(after.paragraph_is_empty());
                        lemma_written_none();
                        assert(done.output =~= s.output + written(markup));
                    } else {
                        lemma_written_concat(enter_markup(s, c), inner);
                        lemma_written_concat(enter_markup(s, c) + inner, leave_markup(after, c));
                        assert(done.output =~= s.output + written(markup));
                    }
                    assert(done.paragraphs =~= s.paragraphs);
                } else {
                    lemma_left(after, c);
                    lemma_written_concat(enter_markup(s, c), inner);
                    lemma_written_concat(enter_markup(s, c) + inner, leave_markup(after, c));
                    assert(done.output =~= s.output + written(markup));
                    if c.kind is List {
                        assert(done.lists =~= s.lists);
                    }
                }
            }
        },
        Node::Text(text) => {
            if s.verbatim {
                lemma_written_one(Markup::Text(escaped(text@)));
            } else {
                lemma_autolinked(s, text@, 0);
            }
        },
        Node::LineBreak => {
            lemma_written_one(Markup::Text("<br/>"@));
        },
        Node::Snippet(snippet) => {
            lemma_written_one(Markup::Text(snippet.value@));
            lemma_written_none();
            assert(done.output =~= s.output + written(markup));
        },
        Node::Rule => {
            lemma_written_one(Markup::Text("<hr/>"@));
        },
        Node::Timestamp(timestamp) => {
            lemma_literal_parts();
            let a = Markup::Open { name: "span"@, attrs: " class=\"timestamp-wrapper\""@ };
            let b = Markup::Open { name: "span"@, attrs: " class=\"timestamp\""@ };
            let t = Markup::Text(timestamp_chars(timestamp.tokens@, timestamp.tokens@.len()));
            let z = Markup::Close { name: "span"@ };
            lemma_written_three(a, b, t);
            lemma_written_two(z, z);
            lemma_written_concat(seq![a, b, t], seq![z, z]);
            assert(markup =~= seq![a, b, t] + seq![z, z]);
            assert(done.output =~= s.output + written(markup));
        },
        Node::LatexFragment(source) => {
            lemma_written_one(Markup::Text(source@));
        },
        Node::LatexEnvironment(source) => {
            lemma_written_one(Markup::Text(source@));
        },
        Node::Entity(html) => {
            lemma_written_one(Markup::Text(html@));
        },
        Node::Other => {
            lemma_written_none();
            assert(done.output =~= s.output + written(markup));
        },
    }
}

/// What rendering nodes writes is their markup, and rendering nodes leaves
/// the open lists and paragraphs as it found them.
pub proof fn lemma_rendered_all(s: RenderState, nodes: Seq<Node>, n: nat)
    ensures
        rendered_all(s, nodes, n).output == s.output + written(markup_of_all(s, nodes, n)),
        rendered_all(s, nodes, n).paragraphs == s.paragraphs,
        rendered_all(s, nodes, n).lists == s.lists,
    decreases nodes, n,
{
    if n == 0 || n > nodes.len() {
        lemma_written_none();
        assert(s.output =~= s.output + written(markup_of_all(s, nodes, n)));
    } else {
        let before = rendered_all(s, nodes, (n - 1) as nat);
        lemma_rendered_all(s, nodes, (n - 1) as nat);
        lemma_rendered(before, nodes[n - 1]);
        lemma_written_concat(
            markup_of_all(s, nodes, (n - 1) as nat),
            markup_of(before, nodes[n - 1]),
        );
        assert(rendered_all(s, nodes, n).output =~= s.output + written(markup_of_all(s, nodes, n)));
    }
}

/// The elements that stand open, innermost last, while what a container
/// holds is rendered: those that entering it opened and did not close.
pub open spec fn opened_by(s: RenderState, c: Container) -> Seq<Seq<char>> {
    match c.kind {
        Kind::Document => seq!["main"@],
        Kind::Headline(_) => Seq::empty(),
        Kind::Paragraph => seq!["p"@],
        Kind::Section => seq!["section"@],
        Kind::Italic => seq!["i"@],
        Kind::Bold => seq!["b"@],
        Kind::Strike => seq!["s"@],
        Kind::Underline => seq!["u"@],
        Kind::Verbatim => seq!["code"@],
        Kind::Code => seq!["code"@],
        Kind::SourceBlock(_) => seq!["div"@, "pre"@],
        Kind::QuoteBlock => seq!["blockquote"@],
        Kind::VerseBlock => seq!["p"@],
        Kind::ExampleBlock => seq!["pre"@],
        Kind::CenterBlock => seq!["div"@],
        Kind::CommentBlock => Seq::empty(),
        Kind::Comment => Seq::empty(),
        Kind::Subscript => seq!["sub"@],
        Kind::Superscript => seq!["sup"@],
        Kind::List(list) => if list.ordered {
            seq!["ol"@]
        } else if list.descriptive {
            seq!["dl"@]
        } else {
            seq!["ul"@]
        },
        Kind::ListItem(_) => if s.in_descriptive_list() {
            seq!["dd"@]
        } else {
            seq!["li"@]
        },
        Kind::OrgTable => seq!["table"@],
        Kind::OrgTableRow(row) => if row.rule {
            Seq::empty()
        } else {
            seq!["tr"@]
        },
        Kind::OrgTableCell => seq!["td"@],
        Kind::Link(link) => if link.image || !link.description {
            Seq::empty()
        } else {
            seq!["a"@]
        },
        Kind::Keyword(_) => Seq::empty(),
        Kind::Other => Seq::empty(),
    }
}

/// What stands open after a tag that opens an element.
proof fn lemma_push(open: Seq<Seq<char>>, name: Seq<char>, attrs: Seq<char>)
    ensures
        open_after(open, seq![Markup::Open { name, attrs }]) == Some(open + seq![name]),
{
    lemma_open_after_one(open, Markup::Open { name, attrs });
    assert(open.push(name) =~= open + seq![name]);
}

/// What stands open after a tag that closes the innermost open element.
proof fn lemma_pop(open: Seq<Seq<char>>, name: Seq<char>)
    ensures
        open_after(open + seq![name], seq![Markup::Close { name }]) == Some(open),
{
    lemma_open_after_one(open + seq![name], Markup::Close { name });
    assert((open + seq![name]).drop_last() =~= open);
}

/// Entering a container adds to the open elements those that it opens and
/// does not close.
proof fn lemma_enter_open(s: RenderState, c: Container, open: Seq<Seq<char>>)
    ensures
        open_after(open, enter_markup(s, c)) == Some(open + opened_by(s, c)),
    decreases c, 0nat,
{
    let markup = enter_markup(s, c);
    let none = Seq::<char>::empty();
    assert(open + Seq::<Seq<char>>::empty() =~= open);
    match c.kind {
        Kind::Document => {
            lemma_push(open, "main"@, none);
        },
        Kind::Headline(headline) => {
            let name = heading_name(headline.level);
            let id = slug(headline.raw_title@);
            let attrs = " id=\""@ + id + seq!['"'];
            let opened = s.emit(heading_open(headline.level, id));
            let n = headline.title@.len();
            let title = markup_of_all(opened, headline.title@, n);
            lemma_closed_all(opened, headline.title@, n, open.push(name));
            lemma_open_after_element(open, name, attrs, title);
        },
        Kind::Paragraph => {
            lemma_push(open, "p"@, none);
        },
        Kind::Section => {
            lemma_push(open, "section"@, none);
        },
        Kind::Italic => {
            lemma_push(open, "i"@, none);
        },
        Kind::Bold => {
            lemma_push(open, "b"@, none);
        },
        Kind::Strike => {
            lemma_push(open, "s"@, none);
        },
        Kind::Underline => {
            lemma_push(open, "u"@, none);
        },
        Kind::Verbatim => {
            lemma_push(open, "code"@, none);
        },
        Kind::Code => {
            lemma_push(open, "code"@, none);
        },
        Kind::SourceBlock(block) => {
            let outer = Markup::Open { name: "div"@, attrs: " class=\"org-src-container\""@ };
            let inner = Markup::Open {
                name: "pre"@,
                attrs: match block.language {
                    Some(language) => " class=\"src src-"@ + escaped(language@) + seq!['"'],
                    None => " class=\"src\""@,
                },
            };
            lemma_open_after_one(open, outer);
            lemma_open_after_one(open.push("div"@), inner);
            lemma_open_after_concat(open, seq![outer], seq![inner]);
            assert(markup =~= seq![outer] + seq![inner]);
            assert(open.push("div"@).push("pre"@) =~= open + seq!["div"@, "pre"@]);
        },
        Kind::QuoteBlock => {
            lemma_push(open, "blockquote"@, none);
        },
        Kind::VerseBlock => {
            lemma_push(open, "p"@, " class=\"verse\""@);
        },
        Kind::ExampleBlock => {
            lemma_push(open, "pre"@, " class=\"example\""@);
        },
        Kind::CenterBlock => {
            lemma_push(open, "div"@, " class=\"center\""@);
        },
        Kind::CommentBlock => {
            lemma_open_after_one(open, Markup::Text("<!--"@));
        },
        Kind::Comment => {
            lemma_open_after_one(open, Markup::Text("<!--"@));
        },
        Kind::Subscript => {
            lemma_push(open, "sub"@, none);
        },
        Kind::Superscript => {
            lemma_push(open, "sup"@, none);
        },
        Kind::List(_) => {
            lemma_push(open, "ol"@, none);
            lemma_push(open, "dl"@, none);
            lemma_push(open, "ul"@, none);
        },
        Kind::ListItem(item) => {
            if s.in_descriptive_list() {
                let opened = s.emit("<dt>"@);
                let n = item.tag@.len();
                let tag = markup_of_all(opened, item.tag@, n);
                let term = seq![Markup::open("dt"@)] + tag + seq![Markup::Close { name: "dt"@ }];
                lemma_closed_all(opened, item.tag@, n, open.push("dt"@));
                lemma_open_after_element(open, "dt"@, none, tag);
                lemma_push(open, "dd"@, none);
                lemma_open_after_concat(open, term, seq![Markup::open("dd"@)]);
                assert(markup =~= term + seq![Markup::open("dd"@)]);
            } else {
                lemma_push(open, "li"@, none);
            }
        },
        Kind::OrgTable => {
            lemma_push(open, "table"@, none);
        },
        Kind::OrgTableRow(row) => {
            lemma_push(open, "tr"@, none);
        },
        Kind::OrgTableCell => {
            lemma_push(open, "td"@, none);
        },
        Kind::Link(link) => {
            let path = without_file_scheme(link.path@);
            let attrs = pending_chars(s.pending, link.image);
            if link.image {
                lemma_open_after_one(open, Markup::Text(image_tag(path, attrs)));
            } else if !link.description {
                lemma_whole_anchor_closed(path, attrs, escaped(path), open);
            } else {
                lemma_push(open, "a"@, href_attrs(path, attrs));
            }
        },
        Kind::Keyword(_) => {},
        Kind::Other => {},
    }
}

/// Leaving a container closes the elements that entering it left open,
/// where the innermost open list around it is of the same kind as it was
/// then.
proof fn lemma_leave_open(
    s: RenderState,
    after: RenderState,
    c: Container,
    open: Seq<Seq<char>>,
)
    requires
        !skips(c),
        c.kind !is List ==> after.in_descriptive_list() == s.in_descriptive_list(),
    ensures
        open_after(open + opened_by(s, c), leave_markup(after, c)) == Some(open),
{
    assert(open + Seq::<Seq<char>>::empty() =~= open);
    match c.kind {
        Kind::Document => {
            lemma_pop(open, "main"@);
        },
        Kind::Headline(_) => {},
        Kind::Paragraph => {
            lemma_pop(open, "p"@);
        },
        Kind::Section => {
            lemma_pop(open, "section"@);
        },
        Kind::Italic => {
            lemma_pop(open, "i"@);
        },
        Kind::Bold => {
            lemma_pop(open, "b"@);
        },
        Kind::Strike => {
            lemma_pop(open, "s"@);
        },
        Kind::Underline => {
            lemma_pop(open, "u"@);
        },
        Kind::Verbatim => {
            lemma_pop(open, "code"@);
        },
        Kind::Code => {
            lemma_pop(open, "code"@);
        },
        Kind::SourceBlock(_) => {
            let first = Markup::Close { name: "pre"@ };
            let second = Markup::Close { name: "div"@ };
            let stack = open + seq!["div"@, "pre"@];
            assert(stack =~= open + seq!["div"@] + seq!["pre"@]);
            lemma_pop(open + seq!["div"@], "pre"@);
            lemma_pop(open, "div"@);
            lemma_open_after_concat(stack, seq![first], seq![second]);
            assert(leave_markup(after, c) =~= seq![first] + seq![second]);
        },
        Kind::QuoteBlock => {
            lemma_pop(open, "blockquote"@);
        },
        Kind::VerseBlock => {
            lemma_pop(open, "p"@);
        },
        Kind::ExampleBlock => {
            lemma_pop(open, "pre"@);
        },
        Kind::CenterBlock => {
            lemma_pop(open, "div"@);
        },
        Kind::CommentBlock => {
            lemma_open_after_one(open, Markup::Text("-->"@));
        },
        Kind::Comment => {
            lemma_open_after_one(open, Markup::Text("-->"@));
        },
        Kind::Subscript => {
            lemma_pop(open, "sub"@);
        },
        Kind::Superscript => {
            lemma_pop(open, "sup"@);
        },
        Kind::List(_) => {
            lemma_pop(open, "ol"@);
            lemma_pop(open, "dl"@);
            lemma_pop(open, "ul"@);
        },
        Kind::ListItem(_) => {
            lemma_pop(open, "dd"@);
            lemma_pop(open, "li"@);
        },
        Kind::OrgTable => {
            lemma_pop(open, "table"@);
        },
        Kind::OrgTableRow(row) => {
            lemma_pop(open, "tr"@);
        },
        Kind::OrgTableCell => {
            lemma_pop(open, "td"@);
        },
        Kind::Link(_) => {
            lemma_pop(open, "a"@);
        },
        Kind::Keyword(_) => {},
        Kind::Other => {},
    }
}

/// The markup of a node leaves open what it found open.
proof fn lemma_closed(s: RenderState, node: Node, open: Seq<Seq<char>>)
    ensures
        open_after(open, markup_of(s, node)) == Some(open),
    decreases node, 1nat,
{
    let markup = markup_of(s, node);
    match node {
        Node::Container(c) => {
            lemma_enter(s, c);
            lemma_enter_open(s, c, open);
            let inside = entered(s, c).0;
            if skips(c) {
                assert(open + opened_by(s, c) =~= open);
            } else {
                let n = c.children@.len();
                let inner = markup_of_all(inside, c.children@, n);
                let after = rendered_all(inside, c.children@, n);
                let stack = open + opened_by(s, c);
                lemma_rendered_all(inside, c.children@, n);
                lemma_closed_all(inside, c.children@, n, stack);
                if taken_back(c, inner) {
                } else {
                    lemma_leave_open(s, after, c, open);
                    lemma_open_after_concat(open, enter_markup(s, c), inner);
                    lemma_open_after_concat(
                        open,
                        enter_markup(s, c) + inner,
                        leave_markup(after, c),
                    );
                }
            }
        },
        Node::Text(text) => {
            if s.verbatim {
                lemma_open_after_one(open, Markup::Text(escaped(text@)));
            } else {
                lemma_autolink_closed(s, text@, 0, open);
            }
        },
        Node::LineBreak => {
            lemma_open_after_one(open, Markup::Text("<br/>"@));
        },
        Node::Snippet(snippet) => {
            lemma_open_after_one(open, Markup::Text(snippet.value@));
        },
        Node::Rule => {
            lemma_open_after_one(open, Markup::Text("<hr/>"@));
        },
        Node::Timestamp(timestamp) => {
            let a = " class=\"timestamp-wrapper\""@;
            let b = " class=\"timestamp\""@;
            let t = Markup::Text(timestamp_chars(timestamp.tokens@, timestamp.tokens@.len()));
            let span = "span"@;
            let inner = seq![Markup::Open { name: span, attrs: b }] + seq![t] + seq![
                Markup::Close { name: span },
            ];
            lemma_open_after_one(open.push(span).push(span), t);
            lemma_open_after_element(open.push(span), span, b, seq![t]);
            lemma_open_after_element(open, span, a, inner);
            assert(markup =~= seq![Markup::Open { name: span, attrs: a }] + inner + seq![
                Markup::Close { name: span },
            ]);
        },
        Node::LatexFragment(source) => {
            lemma_open_after_one(open, Markup::Text(source@));
        },
        Node::LatexEnvironment(source) => {
            lemma_open_after_one(open, Markup::Text(source@));
        },
        Node::Entity(html) => {
            lemma_open_after_one(open, Markup::Text(html@));
        },
        Node::Other => {},
    }
}

/// The markup of nodes leaves open what it found open.
proof fn lemma_closed_all(s: RenderState, nodes: Seq<Node>, n: nat, open: Seq<Seq<char>>)
    ensures
        open_after(open, markup_of_all(s, nodes, n)) == Some(open),
    decreases nodes, n,
{
    if n == 0 || n > nodes.len() {
    } else {
        let before = rendered_all(s, nodes, (n - 1) as nat);
        lemma_rendered_all(s, nodes, (n - 1) as nat);
        lemma_closed_all(s, nodes, (n - 1) as nat, open);
        lemma_closed(before, nodes[n - 1], open);
        lemma_open_after_concat(
            open,
            markup_of_all(s, nodes, (n - 1) as nat),
            markup_of(before, nodes[n - 1]),
        );
    }
}

/// The markup of a document: the tags and the text that rendering it
/// writes.
pub open spec fn document_markup(doc: Node) -> Seq<Markup> {
    markup_of(RenderState::fresh(), doc)
}

/// The HTML of a document is its markup as it is written.
pub proof fn lemma_html_is_markup(doc: Node)
    ensures
        html_of(doc) == written(document_markup(doc)),
{
    lemma_rendered(RenderState::fresh(), doc);
    assert(Seq::<char>::empty() + written(markup_of(RenderState::fresh(), doc)) =~= written(
        markup_of(RenderState::fresh(), doc),
    ));
}

/// The tags that rendering a document writes are balanced: each tag that
/// opens an element is followed by one that closes it, the elements are
/// closed in the reverse of the order in which they were opened, and none
/// stays open. This holds of every document.
pub proof fn lemma_tags_balanced(doc: Node)
    ensures
        html_of(doc) == written(document_markup(doc)),
        balanced(document_markup(doc)),
{
    lemma_html_is_markup(doc);
    lemma_closed(RenderState::fresh(), doc, Seq::empty());
}

} // verus!
