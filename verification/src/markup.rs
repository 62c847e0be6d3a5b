//! Markup as a sequence of tags and text, and what it means for its tags to
//! be balanced.

use vstd::prelude::*;

verus! {

/// One piece of markup: a tag that opens an element, a tag that closes one,
/// or anything else, which counts as text.
pub enum Markup {
    Open { name: Seq<char>, attrs: Seq<char> },
    Close { name: Seq<char> },
    Text(Seq<char>),
}

impl Markup {
    /// The piece as it is written.
    pub open spec fn chars(self) -> Seq<char> {
        match self {
            Markup::Open { name, attrs } => seq!['<'] + name + attrs + seq!['>'],
            Markup::Close { name } => seq!['<', '/'] + name + seq!['>'],
            Markup::Text(text) => text,
        }
    }

    /// A tag that opens an element and has no attributes.
    pub open spec fn open(name: Seq<char>) -> Markup {
        Markup::Open { name, attrs: Seq::empty() }
    }
}

/// The pieces as they are written, one after another.
pub open spec fn written(markup: Seq<Markup>) -> Seq<char>
    decreases markup.len(),
{
    if markup.len() == 0 {
        Seq::empty()
    } else {
        written(markup.drop_last()) + markup.last().chars()
    }
}

/// The elements that stand open after the pieces, innermost last, when
/// `open` stood open before them; none where a tag closes an element that
/// is not the innermost open one.
pub open spec fn open_after(open: Seq<Seq<char>>, markup: Seq<Markup>) -> Option<Seq<Seq<char>>>
    decreases markup.len(),
{
    if markup.len() == 0 {
        Some(open)
    } else {
        match open_after(open, markup.drop_last()) {
            None => None,
            Some(stack) => match markup.last() {
                Markup::Open { name, attrs } => Some(stack.push(name)),
                Markup::Close { name } => if stack.len() > 0 && stack.last() == name {
                    Some(stack.drop_last())
                } else {
                    None
                },
                Markup::Text(_) => Some(stack),
            },
        }
    }
}

/// Every tag that opens an element is followed by one that closes it, every
/// tag that closes an element closes the innermost open one, and nothing
/// stays open.
pub open spec fn balanced(markup: Seq<Markup>) -> bool {
    open_after(Seq::empty(), markup) == Some(Seq::<Seq<char>>::empty())
}

/// Writing goes through a concatenation.
pub proof fn lemma_written_concat(a: Seq<Markup>, b: Seq<Markup>)
    ensures
        written(a + b) == written(a) + written(b),
    decreases b.len(),
{
    if b.len() == 0 {
        assert(a + b =~= a);
    } else {
        lemma_written_concat(a, b.drop_last());
        assert((a + b).drop_last() =~= a + b.drop_last());
        assert((a + b).last() == b.last());
    }
}

/// One piece is written as itself.
pub proof fn lemma_written_one(m: Markup)
    ensures
        written(seq![m]) == m.chars(),
{
    assert(seq![m].drop_last() =~= Seq::<Markup>::empty());
    assert(written(seq![m].drop_last()) =~= Seq::<char>::empty());
}

/// Two pieces are written one after the other.
pub proof fn lemma_written_two(a: Markup, b: Markup)
    ensures
        written(seq![a, b]) == a.chars() + b.chars(),
{
    lemma_written_one(a);
    lemma_written_one(b);
    lemma_written_concat(seq![a], seq![b]);
    assert(seq![a, b] =~= seq![a] + seq![b]);
}

/// Three pieces are written one after the other.
pub proof fn lemma_written_three(a: Markup, b: Markup, c: Markup)
    ensures
        written(seq![a, b, c]) == a.chars() + b.chars() + c.chars(),
{
    lemma_written_two(a, b);
    lemma_written_one(c);
    lemma_written_concat(seq![a, b], seq![c]);
    assert(seq![a, b, c] =~= seq![a, b] + seq![c]);
}

/// No pieces are written as nothing.
pub proof fn lemma_written_none()
    ensures
        written(Seq::<Markup>::empty()) == Seq::<char>::empty(),
{
}

/// What stands open after two runs of pieces is what stands open after the
/// second, begun with what stood open after the first.
pub proof fn lemma_open_after_concat(open: Seq<Seq<char>>, a: Seq<Markup>, b: Seq<Markup>)
    ensures
        open_after(open, a + b) == match open_after(open, a) {
            Some(stack) => open_after(stack, b),
            None => None,
        },
    decreases b.len(),
{
    if b.len() == 0 {
        assert(a + b =~= a);
    } else {
        lemma_open_after_concat(open, a, b.drop_last());
        assert((a + b).drop_last() =~= a + b.drop_last());
        assert((a + b).last() == b.last());
    }
}

/// What stands open after one piece.
pub proof fn lemma_open_after_one(open: Seq<Seq<char>>, m: Markup)
    ensures
        open_after(open, seq![m]) == match m {
            Markup::Open { name, attrs } => Some(open.push(name)),
            Markup::Close { name } => if open.len() > 0 && open.last() == name {
                Some(open.drop_last())
            } else {
                None
            },
            Markup::Text(_) => Some(open),
        },
{
    assert(seq![m].drop_last() =~= Seq::<Markup>::empty());
    assert(open_after(open, seq![m].drop_last()) == Some(open));
}

/// An element that is opened, filled with markup that leaves open what it
/// found open, and closed, leaves open what it found open.
pub proof fn lemma_open_after_element(
    open: Seq<Seq<char>>,
    name: Seq<char>,
    attrs: Seq<char>,
    inner: Seq<Markup>,
)
    requires
        open_after(open.push(name), inner) == Some(open.push(name)),
    ensures
        open_after(
            open,
            seq![Markup::Open { name, attrs }] + inner + seq![Markup::Close { name }],
        ) == Some(open),
{
    let first = seq![Markup::Open { name, attrs }];
    let last = seq![Markup::Close { name }];
    lemma_open_after_one(open, Markup::Open { name, attrs });
    lemma_open_after_concat(open, first, inner);
    lemma_open_after_concat(open, first + inner, last);
    lemma_open_after_one(open.push(name), Markup::Close { name });
    assert(open.push(name).drop_last() =~= open);
}

} // verus!
