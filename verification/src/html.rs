//! The HTML renderer: a visitor that turns the events of one traversal into
//! one HTML string.

use vstd::prelude::*;
use crate::attrs::{attr_chars, attrs_chars, attrs_chars_upto, Attributes};
use crate::escape::{escaped, escaped_char, html_escape, lemma_escaped_single};
use crate::render::{
    after_event, anchor_open, close_tag_chars, digit, file_scheme_end, heading_close,
    heading_level, heading_open, headline_entered, image_tag, list_item_entered, open_tag_chars,
    pending_chars, rendered, rendered_all, timestamp_chars, without_file_scheme, RenderState,
    MAX_HEADING_LEVEL, PARAGRAPH_OPEN_LEN,
};
use crate::slug::headline_title_and_id;
use crate::text::{
    chars_of, eq_ignore_ascii_case, matches_at, occurs_at, push_range, push_str, string_of,
};
use crate::tree::{
    Event, Headline, Keyword, Kind, Link, List, ListItem, Node, OrgTableRow, SourceBlock,
    Timestamp, TimestampToken,
};
use crate::url::{lemma_url_end, url_at};

verus! {

/// The offsets as natural numbers.
pub open spec fn offsets(starts: Seq<usize>) -> Seq<nat> {
    starts.map_values(|start: usize| start as nat)
}

/// The visitor that renders a document as HTML.
pub struct HtmlExportWithUrls {
    output: Vec<char>,
    in_descriptive_list: Vec<bool>,
    pending_attributes: Option<Attributes>,
    paragraph_start_len: Vec<usize>,
    in_verbatim_or_code: bool,
}

impl View for HtmlExportWithUrls {
    type V = RenderState;

    /// What the renderer holds.
    closed spec fn view(&self) -> RenderState {
        RenderState {
            output: self.output@,
            lists: self.in_descriptive_list@,
            pending: match self.pending_attributes {
                Some(attrs) => Some(attrs@),
                None => None,
            },
            paragraphs: offsets(self.paragraph_start_len@),
            verbatim: self.in_verbatim_or_code,
        }
    }
}

impl HtmlExportWithUrls {
    /// A renderer that has read nothing yet.
    pub fn new() -> (r: Self)
        ensures
            r@ == RenderState::fresh(),
    {
        let r = HtmlExportWithUrls {
            output: Vec::new(),
            in_descriptive_list: Vec::new(),
            pending_attributes: None,
            paragraph_start_len: Vec::new(),
            in_verbatim_or_code: false,
        };
        assert(offsets(r.paragraph_start_len@) =~= Seq::<nat>::empty());
        r
    }

    /// Writes `chars` as they are.
    pub fn write(&mut self, chars: &str)
        ensures
            final(self)@ == old(self)@.emit(chars@),
    {
        push_str(&mut self.output, chars);
    }

    /// Writes one character, escaped.
    pub fn append_escaped_char(&mut self, c: char)
        ensures
            final(self)@ == old(self)@.emit(escaped_char(c)),
    {
        let mut s = String::new();
        s.push(c);
        proof {
            lemma_escaped_single(c);
            assert(s@ =~= seq![c]);
        }
        let e = html_escape(s.as_str());
        push_str(&mut self.output, e.as_str());
    }

    /// Writes the tag that opens the element `tag`.
    pub fn open_tag(&mut self, tag: &str)
        ensures
            final(self)@ == old(self)@.emit(open_tag_chars(tag@)),
    {
        self.output.push('<');
        push_str(&mut self.output, tag);
        self.output.push('>');
        assert(self.output@ =~= old(self).output@ + open_tag_chars(tag@));
    }

    /// Writes the tag that closes the element `tag`.
    pub fn close_tag(&mut self, tag: &str)
        ensures
            final(self)@ == old(self)@.emit(close_tag_chars(tag@)),
    {
        self.output.push('<');
        self.output.push('/');
        push_str(&mut self.output, tag);
        self.output.push('>');
        assert(self.output@ =~= old(self).output@ + close_tag_chars(tag@));
    }

    /// Opens inline code: text is no longer searched for URLs.
    pub fn enter_inline_code(&mut self)
        ensures
            final(self)@ == (RenderState { verbatim: true, ..old(self)@ }).emit(
                open_tag_chars("code"@),
            ),
    {
        self.in_verbatim_or_code = true;
        self.open_tag("code");
    }

    /// Closes inline code: text is searched for URLs again.
    pub fn leave_inline_code(&mut self)
        ensures
            final(self)@ == (RenderState { verbatim: false, ..old(self)@ }).emit(
                close_tag_chars("code"@),
            ),
    {
        self.in_verbatim_or_code = false;
        self.close_tag("code");
    }

    /// The attributes as they stand in a tag, one after another in the
    /// order of the set; with `skip_empty_alt`, without an `alt` that has no
    /// value.
    pub fn attrs_string(attrs: &Attributes, skip_empty_alt: bool) -> (attrs_str: String)
        ensures
            attrs_str@ == attrs_chars(attrs@, skip_empty_alt),
    {
        let mut out: Vec<char> = Vec::new();
        let mut i: usize = 0;
        while i < attrs.len()
            invariant
                i <= attrs@.len(),
                out@ == attrs_chars_upto(attrs@, skip_empty_alt, i as nat),
            decreases attrs@.len() - i,
        {
            let key = attrs.key(i).as_str();
            let value = attrs.value(i).as_str();
            if skip_empty_alt && eq_ignore_ascii_case(key, "alt") && value.unicode_len() == 0 {
            } else {
                out.push(' ');
                push_str(&mut out, key);
                out.push('=');
                out.push('"');
                let escaped_value = html_escape(value);
                push_str(&mut out, escaped_value.as_str());
                out.push('"');
                assert(out@ =~= attrs_chars_upto(attrs@, skip_empty_alt, i as nat) + attr_chars(
                    key@,
                    value@,
                ));
            }
            i = i + 1;
        }
        string_of(out.as_slice())
    }

    /// Takes the attributes that wait and hands them back as they stand in
    /// a tag; none wait afterwards.
    pub fn take_pending_attrs_string(&mut self, skip_empty_alt: bool) -> (attrs_str: String)
        ensures
            attrs_str@ == pending_chars(old(self)@.pending, skip_empty_alt),
            final(self)@ == old(self)@.without_pending(),
    {
        let pending = self.pending_attributes.take();
        match pending {
            Some(attrs) => Self::attrs_string(&attrs, skip_empty_alt),
            None => String::new(),
        }
    }

    /// Adds `parsed` to the attributes that wait.
    pub fn merge_pending_attributes(&mut self, parsed: Attributes)
        ensures
            final(self)@ == old(self)@.with_pending(parsed@),
            final(self)@.well_formed(),
    {
        let pending = self.pending_attributes.take();
        match pending {
            Some(existing) => {
                let mut existing = existing;
                existing.extend(&parsed);
                self.pending_attributes = Some(existing);
            },
            None => {
                proof {
                    use_type_invariant(&parsed);
                }
                self.pending_attributes = Some(parsed);
            },
        }
    }

    /// Writes a text, escaped and nothing more.
    pub fn escape_text_only(&mut self, text: &str)
        ensures
            final(self)@ == old(self)@.emit(escaped(text@)),
    {
        let e = html_escape(text);
        push_str(&mut self.output, e.as_str());
    }

    /// Opens the root element.
    pub fn handle_document_enter(&mut self)
        ensures
            final(self)@ == old(self)@.emit("<main>"@),
    {
        self.write("<main>");
    }

    /// Closes the root element.
    pub fn handle_document_leave(&mut self)
        ensures
            final(self)@ == old(self)@.emit("</main>"@),
    {
        self.write("</main>");
    }

    /// Opens a paragraph and notes where it begins.
    pub fn handle_paragraph_enter(&mut self)
        ensures
            final(self)@ == old(self)@.paragraph_entered(),
    {
        self.paragraph_start_len.push(self.output.len());
        assert(offsets(self.paragraph_start_len@) =~= old(self)@.paragraphs.push(
            old(self)@.output.len(),
        ));
        self.write("<p>");
    }

    /// Closes a paragraph, or takes it back if nothing was written in it;
    /// either way no attributes wait afterwards.
    pub fn handle_paragraph_leave(&mut self)
        ensures
            final(self)@ == old(self)@.paragraph_left(),
    {
        let start_len = match self.paragraph_start_len.pop() {
            Some(start) => start,
            None => 0,
        };
        assert(start_len == old(self)@.paragraph_start());
        assert(offsets(self.paragraph_start_len@) =~= old(self)@.paragraph_left().paragraphs);
        if self.output.len() >= PARAGRAPH_OPEN_LEN && self.output.len() - PARAGRAPH_OPEN_LEN
            == start_len {
            self.output.truncate(start_len);
            assert(self.output@ =~= old(self)@.output.take(start_len as int));
        } else {
            self.write("</p>");
        }
        self.pending_attributes = None;
    }

    /// Opens a source block, with its language as a class if it names one.
    pub fn handle_source_block_enter(&mut self, block: &SourceBlock)
        ensures
            final(self)@ == old(self)@.source_block_entered(*block),
    {
        self.write("<div class=\"org-src-container\">");
        match &block.language {
            Some(language) => {
                let ghost before = self@;
                self.write("<pre class=\"src src-");
                self.escape_text_only(language.as_str());
                self.write("\">");
                assert(self@.output =~= before.output + ("<pre class=\"src src-"@ + escaped(
                    language@,
                ) + "\">"@));
            },
            None => {
                self.write("<pre class=\"src\">");
            },
        }
    }

    /// Opens a list and notes whether it is a descriptive one.
    pub fn handle_list_enter(&mut self, list: &List)
        ensures
            final(self)@ == old(self)@.list_entered(*list),
    {
        if list.ordered {
            self.in_descriptive_list.push(false);
            self.write("<ol>");
            return ;
        }
        if list.descriptive {
            self.in_descriptive_list.push(true);
            self.write("<dl>");
            return ;
        }
        self.in_descriptive_list.push(false);
        self.write("<ul>");
    }

    /// Closes a list with the tag of its kind; the list around it is the
    /// innermost again.
    pub fn handle_list_leave(&mut self, list: &List)
        ensures
            final(self)@ == old(self)@.list_left(*list),
    {
        self.in_descriptive_list.pop();
        assert(self.in_descriptive_list@ =~= old(self)@.list_left(*list).lists);
        if list.ordered {
            self.write("</ol>");
        } else if list.descriptive {
            self.write("</dl>");
        } else {
            self.write("</ul>");
        }
    }

    /// Whether the innermost open list is a descriptive one.
    pub fn in_descriptive(&self) -> (r: bool)
        ensures
            r == self@.in_descriptive_list(),
    {
        let n = self.in_descriptive_list.len();
        n > 0 && self.in_descriptive_list[n - 1]
    }

    /// Closes a list item: a definition in a descriptive list, a plain item
    /// elsewhere.
    pub fn handle_list_item_leave(&mut self)
        ensures
            final(self)@ == old(self)@.list_item_left(),
    {
        if self.in_descriptive() {
            self.write("</dd>");
        } else {
            self.write("</li>");
        }
    }

    /// Opens a table row, unless it is a rule row: that one is passed over
    /// with all that it holds. Says whether it is passed over.
    pub fn handle_table_row_enter(&mut self, row: &OrgTableRow) -> (skip: bool)
        ensures
            skip == row.rule,
            final(self)@ == if row.rule {
                old(self)@
            } else {
                old(self)@.emit("<tr>"@)
            },
    {
        if row.rule {
            return true;
        }
        self.write("<tr>");
        false
    }

    /// Closes a table row, unless it is a rule row.
    pub fn handle_table_row_leave(&mut self, row: &OrgTableRow) -> (skip: bool)
        ensures
            skip == row.rule,
            final(self)@ == if row.rule {
                old(self)@
            } else {
                old(self)@.emit("</tr>"@)
            },
    {
        if row.rule {
            return true;
        }
        self.write("</tr>");
        false
    }

    /// The path of a link without the `file:` at its start.
    pub fn strip_file_scheme(path: &str) -> (stripped: String)
        ensures
            stripped@ == without_file_scheme(path@),
    {
        let chars = chars_of(path);
        let prefix = chars_of("file:");
        proof {
            reveal_strlit("file:");
        }
        let len = chars.len();
        let mut from: usize = 0;
        let mut more = matches_at(chars.as_slice(), prefix.as_slice(), from);
        while more
            invariant
                from <= chars@.len() == len,
                prefix@ == "file:"@,
                prefix@.len() == 5,
                more == occurs_at(chars@, prefix@, from as int),
                file_scheme_end(chars@, 0) == file_scheme_end(chars@, from as int),
            decreases chars@.len() - from,
        {
            from = from + 5;
            more = matches_at(chars.as_slice(), prefix.as_slice(), from);
        }
        let mut rest: Vec<char> = Vec::new();
        push_range(&mut rest, chars.as_slice(), from, len);
        assert(rest@ =~= chars@.skip(from as int));
        string_of(rest.as_slice())
    }

    /// Writes the tag of an image.
    fn write_image(&mut self, src: &str, attrs: &str)
        ensures
            final(self)@ == old(self)@.emit(image_tag(src@, attrs@)),
    {
        self.write("<img src=\"");
        self.escape_text_only(src);
        self.output.push('"');
        self.write(attrs);
        self.output.push('>');
        assert(self@.output =~= old(self)@.output + image_tag(src@, attrs@));
    }

    /// Writes the tag that opens an anchor.
    fn write_anchor_open(&mut self, href: &str, attrs: &str)
        ensures
            final(self)@ == old(self)@.emit(anchor_open(href@, attrs@)),
    {
        self.write("<a href=\"");
        self.escape_text_only(href);
        self.output.push('"');
        self.write(attrs);
        self.output.push('>');
        assert(self@.output =~= old(self)@.output + anchor_open(href@, attrs@));
    }

    /// Opens a link and says whether what it holds is passed over.
    pub fn handle_link_enter(&mut self, link: &Link) -> (skip: bool)
        ensures
            (final(self)@, skip) == old(self)@.link_entered(*link),
    {
        let path = Self::strip_file_scheme(link.path.as_str());
        let attrs_str = self.take_pending_attrs_string(link.image);
        let ghost taken = self@;
        if link.image {
            self.write_image(path.as_str(), attrs_str.as_str());
            return true;
        }
        self.write_anchor_open(path.as_str(), attrs_str.as_str());
        if !link.description {
            self.escape_text_only(path.as_str());
            self.write("</a>");
            assert(self@.output =~= taken.output + (anchor_open(path@, attrs_str@) + escaped(path@)
                + "</a>"@));
            return true;
        }
        false
    }

    /// Writes a run of text: escaped as it is inside verbatim or code
    /// markup, with its URLs linked elsewhere.
    pub fn handle_text(&mut self, text: &str)
        ensures
            final(self)@ == old(self)@.text_written(text@),
    {
        if self.in_verbatim_or_code {
            self.escape_text_only(text);
        } else {
            self.process_text_with_urls(text);
        }
    }

    /// Writes a timestamp, token by token, in its two spans.
    pub fn handle_timestamp(&mut self, timestamp: &Timestamp)
        ensures
            final(self)@ == old(self)@.timestamp_written(*timestamp),
    {
        self.write("<span class=\"timestamp-wrapper\"><span class=\"timestamp\">");
        let ghost opened = self@;
        let mut i: usize = 0;
        assert(self@.output =~= opened.output + timestamp_chars(timestamp.tokens@, 0));
        while i < timestamp.tokens.len()
            invariant
                i <= timestamp.tokens@.len(),
                self@ == opened.emit(timestamp_chars(timestamp.tokens@, i as nat)),
            decreases timestamp.tokens@.len() - i,
        {
            match &timestamp.tokens[i] {
                TimestampToken::Minus2 => {
                    self.write("&#x2013;");
                },
                TimestampToken::Text(text) => {
                    self.write(text.as_str());
                },
            }
            assert(self@.output =~= opened.output + timestamp_chars(
                timestamp.tokens@,
                (i + 1) as nat,
            ));
            i = i + 1;
        }
        self.write("</span></span>");
    }

    /// Reads a keyword; what it holds is always passed over.
    pub fn handle_keyword(&mut self, keyword: &Keyword) -> (skip: bool)
        ensures
            skip,
            final(self)@ == old(self)@.keyword_read(*keyword),
    {
        if eq_ignore_ascii_case(keyword.key.as_str(), "attr_html") {
            let parsed = Self::parse_attr_html(keyword.value.as_str());
            self.merge_pending_attributes(parsed);
        }
        true
    }

    /// Writes a URL as an image or as an anchor.
    fn write_link(&mut self, url: &str)
        ensures
            final(self)@ == old(self)@.linked(url@),
    {
        let use_image = Self::is_image_url(url) && self.pending_attributes.is_some();
        let attrs_str = self.take_pending_attrs_string(true);
        let ghost taken = self@;
        if use_image {
            self.write_image(url, attrs_str.as_str());
        } else {
            self.write_anchor_open(url, attrs_str.as_str());
            self.escape_text_only(url);
            self.write("</a>");
            assert(self@.output =~= taken.output + (anchor_open(url@, attrs_str@) + escaped(url@)
                + "</a>"@));
        }
    }

    /// The URL that begins at index `pos`, with the index at which it ends.
    pub fn url_starting_at(chars: &[char], pos: usize) -> (r: Option<(String, usize)>)
        ensures
            match r {
                Some((url, end)) => url_at(chars@, pos as int) == Some((url@, end as int)),
                None => url_at(chars@, pos as int) is None,
            },
    {
        let secure = chars_of("https://");
        let plain = chars_of("http://");
        proof {
            reveal_strlit("https://");
            reveal_strlit("http://");
        }
        let len = chars.len();
        assert(secure@.len() == 8 && plain@.len() == 7 && len == chars@.len());
        if matches_at(chars, secure.as_slice(), pos) {
            Self::extract_url(chars, pos + 8, "https://")
        } else if matches_at(chars, plain.as_slice(), pos) {
            Self::extract_url(chars, pos + 7, "http://")
        } else {
            None
        }
    }

    /// Writes a run of text with its URLs linked.
    pub fn process_text_with_urls(&mut self, text: &str)
        ensures
            final(self)@ == old(self)@.autolinked(text@, 0),
    {
        let chars = chars_of(text);
        let mut char_pos: usize = 0;
        while char_pos < chars.len()
            invariant
                char_pos <= chars@.len(),
                chars@ == text@,
                old(self)@.autolinked(text@, 0) == self@.autolinked(text@, char_pos as int),
            decreases chars@.len() - char_pos,
        {
            match Self::url_starting_at(chars.as_slice(), char_pos) {
                Some((url, end_pos)) => {
                    self.write_link(url.as_str());
                    proof {
                        lemma_url_end(chars@, char_pos as int);
                    }
                    char_pos = end_pos;
                },
                None => {
                    self.append_escaped_char(chars[char_pos]);
                    char_pos = char_pos + 1;
                },
            }
        }
    }

    /// The digit of the HTML heading for an Org heading of depth `level`.
    pub fn heading_digit(level: usize) -> (d: char)
        ensures
            d == digit(heading_level(level)),
    {
        let clamped: u8 = if level < MAX_HEADING_LEVEL - 1 {
            (level + 1) as u8
        } else {
            MAX_HEADING_LEVEL as u8
        };
        (48u8 + clamped) as char
    }

    /// Writes the tag that opens a heading of depth `level` with the anchor
    /// `id`.
    pub fn open_heading(&mut self, level: usize, id: &str)
        ensures
            final(self)@ == old(self)@.emit(heading_open(level, id@)),
    {
        self.write("<h");
        self.output.push(Self::heading_digit(level));
        self.write(" id=\"");
        self.write(id);
        self.write("\">");
        assert(self@.output =~= old(self)@.output + heading_open(level, id@));
    }

    /// Writes the tag that closes a heading of depth `level`.
    pub fn close_heading(&mut self, level: usize)
        ensures
            final(self)@ == old(self)@.emit(heading_close(level)),
    {
        self.write("</h");
        self.output.push(Self::heading_digit(level));
        self.output.push('>');
        assert(self@.output =~= old(self)@.output + heading_close(level));
    }

    /// Writes a heading: the opening tag with the anchor made of the
    /// title's text, the title, and the closing tag.
    pub fn handle_headline_enter(&mut self, headline: &Headline)
        ensures
            final(self)@ == headline_entered(old(self)@, *headline),
        decreases *headline, 0nat,
    {
        let (_title, id) = headline_title_and_id(headline);
        self.open_heading(headline.level, id.as_str());
        self.elements(&headline.title);
        self.close_heading(headline.level);
    }

    /// Opens a list item; in a descriptive list, writes the item's tag as
    /// the term first.
    pub fn handle_list_item_enter(&mut self, list_item: &ListItem)
        ensures
            final(self)@ == list_item_entered(old(self)@, *list_item),
        decreases *list_item, 0nat,
    {
        if self.in_descriptive() {
            self.write("<dt>");
            self.elements(&list_item.tag);
            self.write("</dt><dd>");
        } else {
            self.write("<li>");
        }
    }

    /// Handles one event of the traversal, and says whether the visitor
    /// asks to skip what the container just entered holds.
    pub fn event(&mut self, event: Event<'_>) -> (skip: bool)
        ensures
            (final(self)@, skip) == after_event(old(self)@, event),
        decreases event.node(), 0nat,
    {
        match event {
            Event::Enter(c) => match &c.kind {
                Kind::Document => {
                    self.handle_document_enter();
                    false
                },
                Kind::Headline(headline) => {
                    proof {
                        let node = event.node();
                        assert(decreases_to!(node => node->Container_0));
                        assert(decreases_to!(node->Container_0 => node->Container_0.kind));
                        assert(decreases_to!(c.kind => c.kind->Headline_0));
                    }
                    self.handle_headline_enter(headline);
                    false
                },
                Kind::Paragraph => {
                    self.handle_paragraph_enter();
                    false
                },
                Kind::Section => {
                    self.open_tag("section");
                    false
                },
                Kind::Italic => {
                    self.open_tag("i");
                    false
                },
                Kind::Bold => {
                    self.open_tag("b");
                    false
                },
                Kind::Strike => {
                    self.open_tag("s");
                    false
                },
                Kind::Underline => {
                    self.open_tag("u");
                    false
                },
                Kind::Verbatim => {
                    self.enter_inline_code();
                    false
                },
                Kind::Code => {
                    self.enter_inline_code();
                    false
                },
                Kind::SourceBlock(block) => {
                    self.handle_source_block_enter(block);
                    false
                },
                Kind::QuoteBlock => {
                    self.open_tag("blockquote");
                    false
                },
                Kind::VerseBlock => {
                    self.write("<p class=\"verse\">");
                    false
                },
                Kind::ExampleBlock => {
                    self.write("<pre class=\"example\">");
                    false
                },
                Kind::CenterBlock => {
                    self.write("<div class=\"center\">");
                    false
                },
                Kind::CommentBlock => {
                    self.write("<!--");
                    false
                },
                Kind::Comment => {
                    self.write("<!--");
                    false
                },
                Kind::Subscript => {
                    self.open_tag("sub");
                    false
                },
                Kind::Superscript => {
                    self.open_tag("sup");
                    false
                },
                Kind::List(list) => {
                    self.handle_list_enter(list);
                    false
                },
                Kind::ListItem(list_item) => {
                    proof {
                        let node = event.node();
                        assert(decreases_to!(node => node->Container_0));
                        assert(decreases_to!(node->Container_0 => node->Container_0.kind));
                        assert(decreases_to!(c.kind => c.kind->ListItem_0));
                    }
                    self.handle_list_item_enter(list_item);
                    false
                },
                Kind::OrgTable => {
                    self.open_tag("table");
                    false
                },
                Kind::OrgTableRow(row) => self.handle_table_row_enter(row),
                Kind::OrgTableCell => {
                    self.open_tag("td");
                    false
                },
                Kind::Link(link) => self.handle_link_enter(link),
                Kind::Keyword(keyword) => self.handle_keyword(keyword),
                Kind::Other => false,
            },
            Event::Leave(c) => match &c.kind {
                Kind::Document => {
                    self.handle_document_leave();
                    false
                },
                Kind::Headline(_) => false,
                Kind::Paragraph => {
                    self.handle_paragraph_leave();
                    false
                },
                Kind::Section => {
                    self.close_tag("section");
                    false
                },
                Kind::Italic => {
                    self.close_tag("i");
                    false
                },
                Kind::Bold => {
                    self.close_tag("b");
                    false
                },
                Kind::Strike => {
                    self.close_tag("s");
                    false
                },
                Kind::Underline => {
                    self.close_tag("u");
                    false
                },
                Kind::Verbatim => {
                    self.leave_inline_code();
                    false
                },
                Kind::Code => {
                    self.leave_inline_code();
                    false
                },
                Kind::SourceBlock(_) => {
                    self.write("</pre></div>");
                    false
                },
                Kind::QuoteBlock => {
                    self.close_tag("blockquote");
                    false
                },
                Kind::VerseBlock => {
                    self.close_tag("p");
                    false
                },
                Kind::ExampleBlock => {
                    self.close_tag("pre");
                    false
                },
                Kind::CenterBlock => {
                    self.close_tag("div");
                    false
                },
                Kind::CommentBlock => {
                    self.write("-->");
                    false
                },
                Kind::Comment => {
                    self.write("-->");
                    false
                },
                Kind::Subscript => {
                    self.close_tag("sub");
                    false
                },
                Kind::Superscript => {
                    self.close_tag("sup");
                    false
                },
                Kind::List(list) => {
                    self.handle_list_leave(list);
                    false
                },
                Kind::ListItem(_) => {
                    self.handle_list_item_leave();
                    false
                },
                Kind::OrgTable => {
                    self.close_tag("table");
                    false
                },
                Kind::OrgTableRow(row) => self.handle_table_row_leave(row),
                Kind::OrgTableCell => {
                    self.close_tag("td");
                    false
                },
                Kind::Link(_) => {
                    self.close_tag("a");
                    false
                },
                Kind::Keyword(_) => false,
                Kind::Other => false,
            },
            Event::Text(text) => {
                self.handle_text(text.as_str());
                false
            },
            Event::LineBreak => {
                self.write("<br/>");
                false
            },
            Event::Snippet(snippet) => {
                if eq_ignore_ascii_case(snippet.backend.as_str(), "html") {
                    self.write(snippet.value.as_str());
                }
                false
            },
            Event::Rule => {
                self.write("<hr/>");
                false
            },
            Event::Timestamp(timestamp) => {
                self.handle_timestamp(timestamp);
                false
            },
            Event::LatexFragment(source) => {
                self.write(source.as_str());
                false
            },
            Event::LatexEnvironment(source) => {
                self.write(source.as_str());
                false
            },
            Event::Entity(html) => {
                self.write(html.as_str());
                false
            },
            Event::Other => false,
        }
    }

    /// Walks one node: enters a container, walks its children unless the
    /// visitor asks to skip them, and leaves it; hands a leaf over as one
    /// event.
    pub fn element(&mut self, node: &Node)
        ensures
            final(self)@ == rendered(old(self)@, *node),
        decreases *node, 1nat,
    {
        match node {
            Node::Container(c) => {
                if self.event(Event::Enter(c)) {
                    return ;
                }
                self.elements(&c.children);
                self.event(Event::Leave(c));
            },
            Node::Text(text) => {
                self.event(Event::Text(text));
            },
            Node::LineBreak => {
                self.event(Event::LineBreak);
            },
            Node::Snippet(snippet) => {
                self.event(Event::Snippet(snippet));
            },
            Node::Rule => {
                self.event(Event::Rule);
            },
            Node::Timestamp(timestamp) => {
                self.event(Event::Timestamp(timestamp));
            },
            Node::LatexFragment(source) => {
                self.event(Event::LatexFragment(source));
            },
            Node::LatexEnvironment(source) => {
                self.event(Event::LatexEnvironment(source));
            },
            Node::Entity(html) => {
                self.event(Event::Entity(html));
            },
            Node::Other => {
                self.event(Event::Other);
            },
        }
    }

    /// Walks the nodes in order.
    pub fn elements(&mut self, nodes: &Vec<Node>)
        ensures
            final(self)@ == rendered_all(old(self)@, nodes@, nodes@.len()),
        decreases *nodes, 0nat,
    {
        let mut i: usize = 0;
        while i < nodes.len()
            invariant
                i <= nodes@.len(),
                self@ == rendered_all(old(self)@, nodes@, i as nat),
            decreases nodes@.len() - i,
        {
            self.element(&nodes[i]);
            i = i + 1;
        }
    }

    /// Hands out what was written.
    pub fn finish(self) -> (html: String)
        ensures
            html@ == self@.output,
    {
        string_of(self.output.as_slice())
    }
}

} // verus!
