//! The metadata of a document: what its keywords say of title, date,
//! description and tags.

use vstd::prelude::*;
use crate::text::{
    eq_ignore_ascii_case, join, joined, same_ignoring_ascii_case, split_whitespace, string_views,
    trim, trimmed, words,
};
use crate::tree::{Container, Event, Keyword, Kind, Node};

verus! {

/// The metadata as sequences of characters.
pub struct Metadata {
    pub title: Option<Seq<char>>,
    pub date: Option<Seq<char>>,
    pub description: Option<Seq<char>>,
    pub tags: Seq<Seq<char>>,
    /// Whether a keyword has named the tags.
    pub tags_set: bool,
}

impl Metadata {
    /// No field is set.
    pub open spec fn empty() -> Metadata {
        Metadata {
            title: None,
            date: None,
            description: None,
            tags: Seq::empty(),
            tags_set: false,
        }
    }

    /// The metadata after a keyword was read. A keyword that names a field
    /// sets it if it is not set yet, and changes nothing otherwise; the
    /// tags are the words of the keyword's value, and count as set even
    /// where the value has no word.
    pub open spec fn with_keyword(self, keyword: Keyword) -> Metadata {
        let key = keyword.key@;
        let value = keyword.value@;
        if same_ignoring_ascii_case(key, "TITLE"@) && self.title is None {
            Metadata { title: Some(value), ..self }
        } else if same_ignoring_ascii_case(key, "DATE"@) && self.date is None {
            Metadata { date: Some(value), ..self }
        } else if same_ignoring_ascii_case(key, "DESCRIPTION"@) && self.description is None {
            Metadata { description: Some(value), ..self }
        } else if same_ignoring_ascii_case(key, "FILETAGS"@) && !self.tags_set {
            Metadata { tags: words(value), tags_set: true, ..self }
        } else {
            self
        }
    }

    /// The metadata after an event was read: only a keyword that is entered
    /// counts.
    pub open spec fn with_event(self, event: Event) -> Metadata {
        match event {
            Event::Enter(c) => match c.kind {
                Kind::Keyword(keyword) => self.with_keyword(keyword),
                _ => self,
            },
            _ => self,
        }
    }

    /// The metadata after a node was read with all that it holds, in the
    /// order of the document.
    pub open spec fn with_node(self, node: Node) -> Metadata
        decreases node, 0nat,
    {
        match node {
            Node::Container(c) => self.with_event(Event::Enter(&c)).with_nodes(
                c.children@,
                c.children@.len(),
            ),
            _ => self,
        }
    }

    /// The metadata after the first `n` of the nodes were read, in order.
    pub open spec fn with_nodes(self, nodes: Seq<Node>, n: nat) -> Metadata
        decreases nodes, n,
    {
        if n == 0 || n > nodes.len() {
            self
        } else {
            self.with_nodes(nodes, (n - 1) as nat).with_node(nodes[n - 1])
        }
    }
}

/// The keywords in and below a node, in the order of the document.
pub open spec fn keywords_of(node: Node) -> Seq<Keyword>
    decreases node, 0nat,
{
    match node {
        Node::Container(c) => {
            let below = keywords_of_all(c.children@, c.children@.len());
            match c.kind {
                Kind::Keyword(keyword) => seq![keyword] + below,
                _ => below,
            }
        },
        _ => Seq::empty(),
    }
}

/// The keywords in and below the first `n` of the nodes, in order.
pub open spec fn keywords_of_all(nodes: Seq<Node>, n: nat) -> Seq<Keyword>
    decreases nodes, n,
{
    if n == 0 || n > nodes.len() {
        Seq::empty()
    } else {
        keywords_of_all(nodes, (n - 1) as nat) + keywords_of(nodes[n - 1])
    }
}

/// Whether a keyword names the field `name`, in any case of letters.
pub open spec fn names(keyword: Keyword, name: Seq<char>) -> bool {
    same_ignoring_ascii_case(keyword.key@, name)
}

/// The four fields of the metadata.
pub enum Field {
    Title,
    Date,
    Description,
    Tags,
}

/// Whether a keyword can set a field: it names the field.
pub open spec fn sets(keyword: Keyword, field: Field) -> bool {
    match field {
        Field::Title => names(keyword, "TITLE"@),
        Field::Date => names(keyword, "DATE"@),
        Field::Description => names(keyword, "DESCRIPTION"@),
        Field::Tags => names(keyword, "FILETAGS"@),
    }
}

/// `i` is the index of the first keyword that can set the field.
pub open spec fn is_first(keywords: Seq<Keyword>, field: Field, i: int) -> bool {
    &&& 0 <= i < keywords.len()
    &&& sets(keywords[i], field)
    &&& forall|j: int| 0 <= j < i ==> !sets(#[trigger] keywords[j], field)
}

/// The first keyword that can set the field, if there is one.
pub open spec fn first_of(keywords: Seq<Keyword>, field: Field) -> Option<Keyword> {
    if exists|i: int| is_first(keywords, field, i) {
        Some(keywords[choose|i: int| is_first(keywords, field, i)])
    } else {
        None
    }
}

/// The value of the first keyword that can set the field.
pub open spec fn first_value(keywords: Seq<Keyword>, field: Field) -> Option<Seq<char>> {
    match first_of(keywords, field) {
        Some(keyword) => Some(keyword.value@),
        None => None,
    }
}

/// The tags of the first keyword that names the tags: the words of its
/// value; none where no keyword names them.
pub open spec fn first_tags(keywords: Seq<Keyword>) -> Seq<Seq<char>> {
    match first_of(keywords, Field::Tags) {
        Some(keyword) => words(keyword.value@),
        None => Seq::empty(),
    }
}

/// The metadata that a document's keywords state: for each field what the
/// first keyword that names it gives.
pub open spec fn metadata_of(doc: Node) -> Metadata {
    let keywords = keywords_of(doc);
    Metadata {
        title: first_value(keywords, Field::Title),
        date: first_value(keywords, Field::Date),
        description: first_value(keywords, Field::Description),
        tags: first_tags(keywords),
        tags_set: first_of(keywords, Field::Tags) is Some,
    }
}

/// The first index that can set the field is determined.
proof fn lemma_first_is_unique(
    keywords: Seq<Keyword>,
    field: Field,
    i: int,
)
    requires
        is_first(keywords, field, i),
    ensures
        first_of(keywords, field) == Some(keywords[i]),
{
    let j = choose|j: int| is_first(keywords, field, j);
    assert(is_first(keywords, field, j));
    if j < i {
        assert(!sets(keywords[j], field));
    }
    if i < j {
        assert(!sets(keywords[i], field));
    }
}

/// Where no keyword can set the field, there is no first one.
proof fn lemma_first_is_none(keywords: Seq<Keyword>, field: Field)
    requires
        forall|j: int| 0 <= j < keywords.len() ==> !sets(#[trigger] keywords[j], field),
    ensures
        first_of(keywords, field) is None,
{
    if exists|i: int| is_first(keywords, field, i) {
        let i = choose|i: int| is_first(keywords, field, i);
        assert(sets(keywords[i], field));
    }
}

/// The first keyword of a longer sequence is that of the shorter one if it
/// has one, and the added keyword otherwise, if that one can set the field.
proof fn lemma_first_of_push(
    keywords: Seq<Keyword>,
    field: Field,
    keyword: Keyword,
)
    ensures
        first_of(keywords.push(keyword), field) == match first_of(keywords, field) {
            Some(found) => Some(found),
            None => if sets(keyword, field) {
                Some(keyword)
            } else {
                None
            },
        },
{
    let longer = keywords.push(keyword);
    if exists|i: int| is_first(keywords, field, i) {
        let i = choose|i: int| is_first(keywords, field, i);
        assert(is_first(keywords, field, i));
        assert(forall|j: int| 0 <= j < i ==> longer[j] == keywords[j]);
        assert(is_first(longer, field, i));
        lemma_first_is_unique(longer, field, i);
    } else {
        assert forall|j: int| 0 <= j < keywords.len() implies !sets(#[trigger] keywords[j], field) by {
            if sets(keywords[j], field) {
                lemma_some_is_first(keywords, field, j);
            }
        }
        assert(forall|j: int| 0 <= j < keywords.len() ==> longer[j] == keywords[j]);
        if sets(keyword, field) {
            assert(is_first(longer, field, keywords.len() as int));
            lemma_first_is_unique(longer, field, keywords.len() as int);
        } else {
            lemma_first_is_none(longer, field);
        }
    }
}

/// Where a keyword can set the field, one is the first to do so.
proof fn lemma_some_is_first(keywords: Seq<Keyword>, field: Field, at: int)
    requires
        0 <= at < keywords.len(),
        sets(keywords[at], field),
    ensures
        exists|i: int| is_first(keywords, field, i),
    decreases at,
{
    if exists|j: int| 0 <= j < at && sets(keywords[j], field) {
        let j = choose|j: int| 0 <= j < at && sets(keywords[j], field);
        lemma_some_is_first(keywords, field, j);
    } else {
        assert(is_first(keywords, field, at));
    }
}

impl Metadata {
    /// The metadata after the keywords were read, in order.
    pub open spec fn with_keywords(self, keywords: Seq<Keyword>) -> Metadata
        decreases keywords.len(),
    {
        if keywords.len() == 0 {
            self
        } else {
            self.with_keywords(keywords.drop_last()).with_keyword(keywords.last())
        }
    }

    /// Reading two runs of keywords one after the other is reading them as
    /// one run.
    pub proof fn lemma_with_keywords_concat(self, a: Seq<Keyword>, b: Seq<Keyword>)
        ensures
            self.with_keywords(a + b) == self.with_keywords(a).with_keywords(b),
        decreases b.len(),
    {
        if b.len() == 0 {
            assert(a + b =~= a);
        } else {
            self.lemma_with_keywords_concat(a, b.drop_last());
            assert((a + b).drop_last() =~= a + b.drop_last());
            assert((a + b).last() == b.last());
        }
    }

    /// Reading a node is reading its keywords in the order of the document.
    pub proof fn lemma_with_node(self, node: Node)
        ensures
            self.with_node(node) == self.with_keywords(keywords_of(node)),
        decreases node, 0nat,
    {
        match node {
            Node::Container(c) => {
                let entered = self.with_event(Event::Enter(&c));
                let below = keywords_of_all(c.children@, c.children@.len());
                entered.lemma_with_nodes(c.children@, c.children@.len());
                match c.kind {
                    Kind::Keyword(keyword) => {
                        let one = seq![keyword];
                        assert(one.drop_last() =~= Seq::<Keyword>::empty());
                        assert(self.with_keywords(one.drop_last()) == self);
                        assert(self.with_keywords(one) == entered);
                        self.lemma_with_keywords_concat(one, below);
                    },
                    _ => {},
                }
            },
            _ => {},
        }
    }

    /// Reading nodes is reading their keywords in the order of the document.
    pub proof fn lemma_with_nodes(self, nodes: Seq<Node>, n: nat)
        ensures
            self.with_nodes(nodes, n) == self.with_keywords(keywords_of_all(nodes, n)),
        decreases nodes, n,
    {
        if n == 0 || n > nodes.len() {
        } else {
            self.lemma_with_nodes(nodes, (n - 1) as nat);
            self.with_nodes(nodes, (n - 1) as nat).lemma_with_node(nodes[n - 1]);
            self.lemma_with_keywords_concat(
                keywords_of_all(nodes, (n - 1) as nat),
                keywords_of(nodes[n - 1]),
            );
        }
    }

    /// From no metadata, the keywords give each field the value of the
    /// first keyword that names it: a later keyword for a field that is set
    /// changes nothing.
    pub proof fn lemma_first_wins(keywords: Seq<Keyword>)
        ensures
            Metadata::empty().with_keywords(keywords) == (Metadata {
                title: first_value(keywords, Field::Title),
                date: first_value(keywords, Field::Date),
                description: first_value(keywords, Field::Description),
                tags: first_tags(keywords),
                tags_set: first_of(keywords, Field::Tags) is Some,
            }),
        decreases keywords.len(),
    {
        let title = Field::Title;
        let date = Field::Date;
        let description = Field::Description;
        let tags = Field::Tags;
        if keywords.len() == 0 {
            lemma_first_is_none(keywords, title);
            lemma_first_is_none(keywords, date);
            lemma_first_is_none(keywords, description);
            lemma_first_is_none(keywords, tags);
        } else {
            let before = keywords.drop_last();
            let last = keywords.last();
            Self::lemma_first_wins(before);
            assert(before.push(last) =~= keywords);
            lemma_first_of_push(before, title, last);
            lemma_first_of_push(before, date, last);
            lemma_first_of_push(before, description, last);
            lemma_first_of_push(before, tags, last);
            lemma_distinct_names();
            let m = Metadata::empty().with_keywords(before);
            let r = m.with_keyword(last);
            assert(r.title == first_value(keywords, Field::Title));
            assert(r.date == first_value(keywords, Field::Date));
            assert(r.description == first_value(keywords, Field::Description));
            assert(r.tags == first_tags(keywords));
            assert(r.tags_set == (first_of(keywords, Field::Tags) is Some));
        }
    }
}

/// The four names of fields differ, in any case of letters: a keyword names
/// at most one field.
proof fn lemma_distinct_names()
    ensures
        forall|key: Seq<char>| !(same_ignoring_ascii_case(key, "TITLE"@) && same_ignoring_ascii_case(key, "DATE"@)),
        forall|key: Seq<char>| !(same_ignoring_ascii_case(key, "TITLE"@) && same_ignoring_ascii_case(key, "DESCRIPTION"@)),
        forall|key: Seq<char>| !(same_ignoring_ascii_case(key, "TITLE"@) && same_ignoring_ascii_case(key, "FILETAGS"@)),
        forall|key: Seq<char>| !(same_ignoring_ascii_case(key, "DATE"@) && same_ignoring_ascii_case(key, "DESCRIPTION"@)),
        forall|key: Seq<char>| !(same_ignoring_ascii_case(key, "DATE"@) && same_ignoring_ascii_case(key, "FILETAGS"@)),
        forall|key: Seq<char>| !(same_ignoring_ascii_case(key, "DESCRIPTION"@) && same_ignoring_ascii_case(key, "FILETAGS"@)),
{
    reveal_strlit("TITLE");
    reveal_strlit("DATE");
    reveal_strlit("DESCRIPTION");
    reveal_strlit("FILETAGS");
    let t = crate::text::lowercase("TITLE"@);
    let d = crate::text::lowercase("DATE"@);
    let e = crate::text::lowercase("DESCRIPTION"@);
    let f = crate::text::lowercase("FILETAGS"@);
    assert(t.len() == 5 && d.len() == 4 && e.len() == 11 && f.len() == 8);
    assert(e[0] == 'd' && d[0] == 'd' && e[1] == 'e' && d[1] == 'a');
    assert(t[0] == 't' && f[0] == 'f');
}

/// The visitor that collects the metadata of a document.
pub struct MetadataCollector {
    pub title: Option<String>,
    pub date: Option<String>,
    pub description: Option<String>,
    pub tags: Vec<String>,
    /// Whether a keyword has named the tags.
    pub tags_set: bool,
}

/// The string, if there is one, as a character sequence.
pub open spec fn option_view(s: Option<String>) -> Option<Seq<char>> {
    match s {
        Some(s) => Some(s@),
        None => None,
    }
}

impl View for MetadataCollector {
    type V = Metadata;

    /// The fields as character sequences.
    open spec fn view(&self) -> Metadata {
        Metadata {
            title: option_view(self.title),
            date: option_view(self.date),
            description: option_view(self.description),
            tags: string_views(self.tags@),
            tags_set: self.tags_set,
        }
    }
}

impl MetadataCollector {
    /// A collector that has read nothing yet.
    pub fn new() -> (r: Self)
        ensures
            r@ == Metadata::empty(),
    {
        let r = MetadataCollector {
            title: None,
            date: None,
            description: None,
            tags: Vec::new(),
            tags_set: false,
        };
        assert(string_views(r.tags@) =~= Seq::<Seq<char>>::empty());
        r
    }

    /// Reads one event of the traversal.
    pub fn collect_from_event(&mut self, event: Event<'_>)
        ensures
            final(self)@ == old(self)@.with_event(event),
    {
        if let Event::Enter(c) = event {
            if let Kind::Keyword(keyword) = &c.kind {
                let key = keyword.key.as_str();
                if eq_ignore_ascii_case(key, "TITLE") && self.title.is_none() {
                    self.title = Some(keyword.value.clone());
                } else if eq_ignore_ascii_case(key, "DATE") && self.date.is_none() {
                    self.date = Some(keyword.value.clone());
                } else if eq_ignore_ascii_case(key, "DESCRIPTION") && self.description.is_none() {
                    self.description = Some(keyword.value.clone());
                } else if eq_ignore_ascii_case(key, "FILETAGS") && !self.tags_set {
                    self.tags = split_whitespace(keyword.value.as_str());
                    self.tags_set = true;
                }
            }
        }
    }

    /// Reads one node with all that it holds.
    pub fn collect(&mut self, node: &Node)
        ensures
            final(self)@ == old(self)@.with_node(*node),
        decreases *node, 0nat,
    {
        match node {
            Node::Container(c) => {
                self.collect_from_event(Event::Enter(c));
                self.collect_all(&c.children);
                self.collect_from_event(Event::Leave(c));
            },
            Node::Text(text) => {
                self.collect_from_event(Event::Text(text));
            },
            Node::LineBreak => {
                self.collect_from_event(Event::LineBreak);
            },
            Node::Snippet(snippet) => {
                self.collect_from_event(Event::Snippet(snippet));
            },
            Node::Rule => {
                self.collect_from_event(Event::Rule);
            },
            Node::Timestamp(timestamp) => {
                self.collect_from_event(Event::Timestamp(timestamp));
            },
            Node::LatexFragment(source) => {
                self.collect_from_event(Event::LatexFragment(source));
            },
            Node::LatexEnvironment(source) => {
                self.collect_from_event(Event::LatexEnvironment(source));
            },
            Node::Entity(html) => {
                self.collect_from_event(Event::Entity(html));
            },
            Node::Other => {
                self.collect_from_event(Event::Other);
            },
        }
    }

    /// Reads the nodes in order.
    pub fn collect_all(&mut self, nodes: &Vec<Node>)
        ensures
            final(self)@ == old(self)@.with_nodes(nodes@, nodes@.len()),
        decreases *nodes, 0nat,
    {
        let mut i: usize = 0;
        while i < nodes.len()
            invariant
                i <= nodes@.len(),
                self@ == old(self)@.with_nodes(nodes@, i as nat),
            decreases nodes@.len() - i,
        {
            self.collect(&nodes[i]);
            i = i + 1;
        }
    }
}

/// The metadata as it is handed out: each text without the whitespace at
/// its two ends, and the tags joined as well as one by one.
pub struct OrgMetadata {
    pub title: Option<String>,
    pub date: Option<String>,
    pub description: Option<String>,
    /// The tags with a space between each two; none where there is no tag.
    pub tags: Option<String>,
    pub tags_array: Vec<String>,
    pub tags_count: usize,
}

/// The text, if there is one, without the whitespace at its two ends.
pub open spec fn trimmed_option(text: Option<Seq<char>>) -> Option<Seq<char>> {
    match text {
        Some(text) => Some(trimmed(text)),
        None => None,
    }
}

/// The tags with a space between each two; none where that is empty.
pub open spec fn joined_tags(tags: Seq<Seq<char>>) -> Option<Seq<char>> {
    let all = joined(tags, " "@, tags.len());
    if all.len() == 0 {
        None
    } else {
        Some(all)
    }
}

/// The text, if there is one, without the whitespace at its two ends.
pub fn trim_optional(value: &Option<String>) -> (r: Option<String>)
    ensures
        option_view(r) == trimmed_option(option_view(*value)),
{
    match value {
        Some(text) => Some(trim(text.as_str())),
        None => None,
    }
}

impl MetadataCollector {
    /// The metadata as it is handed out.
    pub fn export(&self) -> (r: OrgMetadata)
        ensures
            option_view(r.title) == trimmed_option(self@.title),
            option_view(r.date) == trimmed_option(self@.date),
            option_view(r.description) == trimmed_option(self@.description),
            option_view(r.tags) == joined_tags(self@.tags),
            string_views(r.tags_array@) == self@.tags,
            r.tags_count == self@.tags.len(),
    {
        let tags_str = join(&self.tags, " ");
        let tags = if tags_str.as_str().unicode_len() == 0 {
            None
        } else {
            Some(tags_str)
        };
        let mut tags_array: Vec<String> = Vec::new();
        let mut i: usize = 0;
        while i < self.tags.len()
            invariant
                i <= self.tags@.len(),
                tags_array@.len() == i,
                forall|j: int| 0 <= j < i ==> tags_array@[j]@ == self.tags@[j]@,
            decreases self.tags@.len() - i,
        {
            tags_array.push(self.tags[i].clone());
            i = i + 1;
        }
        assert(string_views(tags_array@) =~= string_views(self.tags@));
        OrgMetadata {
            title: trim_optional(&self.title),
            date: trim_optional(&self.date),
            description: trim_optional(&self.description),
            tags,
            tags_array,
            tags_count: self.tags.len(),
        }
    }
}

} // verus!
