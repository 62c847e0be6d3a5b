//! Anchor identifiers for headings.

use vstd::prelude::*;
use crate::tree::Headline;

verus! {

/// The slug of a text: what `slugify::slugify` makes of it with no stop
/// words, `-` as the separator and no limit on the length.
pub uninterp spec fn slug(text: Seq<char>) -> Seq<char>;

/// `slugify::slugify`, called as its macro `slugify!` calls it for a single
/// argument. The slug depends on the text alone.
#[verifier::external_body]
pub(crate) fn slugify(text: &str) -> (id: String)
    ensures
        id@ == slug(text@),
{
    ::slugify::slugify(text, "", "-", None)
}

/// The source text of a heading's title, and the anchor made of it.
pub fn headline_title_and_id(headline: &Headline) -> (r: (String, String))
    ensures
        r.0@ == headline.raw_title@,
        r.1@ == slug(headline.raw_title@),
{
    let title = headline.raw_title.clone();
    let id = slugify(title.as_str());
    (title, id)
}

} // verus!
