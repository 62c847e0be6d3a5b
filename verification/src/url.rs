//! Bare URLs in running text: where one begins, how far it reaches, and
//! whether it names an image.

use vstd::prelude::*;
use crate::html::HtmlExportWithUrls;
use crate::text::{
    chars_of, has_suffix, lowercase, occurs_at, push_range, string_of, to_ascii_lower,
    white_space,
};

verus! {

/// A character that ends a URL wherever it stands: whitespace, an angle
/// bracket, a quote, or a mark of CJK sentence punctuation.
pub open spec fn is_url_stop(c: char) -> bool {
    ||| white_space(c)
    ||| c == '<'
    ||| c == '>'
    ||| c == '"'
    ||| c == '\''
    ||| c == '\u{3002}'
    ||| c == '\u{FF0C}'
    ||| c == '\u{FF01}'
    ||| c == '\u{FF1F}'
    ||| c == '\u{FF1B}'
    ||| c == '\u{FF1A}'
}

/// How many characters from index `i` on belong to a URL, when
/// `ascii_depth` ASCII parentheses and `wide_depth` fullwidth parentheses
/// stand open.
///
/// An opening parenthesis of either kind is part of the URL. A closing one is
/// part of it only where one of its own kind stands open. A stop character
/// ends the URL.
pub open spec fn url_span(chars: Seq<char>, i: int, ascii_depth: nat, wide_depth: nat) -> nat
    decreases chars.len() - i,
{
    if i < 0 || i >= chars.len() {
        0
    } else if chars[i] == '(' {
        1 + url_span(chars, i + 1, ascii_depth + 1, wide_depth)
    } else if chars[i] == '\u{FF08}' {
        1 + url_span(chars, i + 1, ascii_depth, wide_depth + 1)
    } else if chars[i] == ')' {
        if ascii_depth > 0 {
            1 + url_span(chars, i + 1, (ascii_depth - 1) as nat, wide_depth)
        } else {
            0
        }
    } else if chars[i] == '\u{FF09}' {
        if wide_depth > 0 {
            1 + url_span(chars, i + 1, ascii_depth, (wide_depth - 1) as nat)
        } else {
            0
        }
    } else if is_url_stop(chars[i]) {
        0
    } else {
        1 + url_span(chars, i + 1, ascii_depth, wide_depth)
    }
}

/// Punctuation that belongs to the prose around a URL when it stands at the
/// URL's end.
pub open spec fn is_trailing_punctuation(c: char) -> bool {
    c == '.' || c == ',' || c == '!' || c == '?' || c == ';' || c == ':'
}

/// The length that is left of `chars[start..start + len]` without the
/// punctuation at its end.
pub open spec fn trimmed_len(chars: Seq<char>, start: int, len: nat) -> nat
    decreases len,
{
    if len > 0 && is_trailing_punctuation(chars[start + len - 1]) {
        trimmed_len(chars, start, (len - 1) as nat)
    } else {
        len
    }
}

/// The fewest characters that a URL has, scheme included.
pub const MIN_URL_CHARS: usize = 11;

/// The URL made of `scheme` and what follows it from index `start` on, with
/// the index at which it ends; none where it would have fewer characters
/// than `MIN_URL_CHARS`.
pub open spec fn url_candidate(chars: Seq<char>, start: int, scheme: Seq<char>) -> Option<
    (Seq<char>, int),
> {
    let len = trimmed_len(chars, start, url_span(chars, start, 0, 0));
    let url = scheme + chars.subrange(start, start + len);
    if url.len() >= MIN_URL_CHARS {
        Some((url, start + len))
    } else {
        None
    }
}

/// A span never reaches past the end of the text.
pub proof fn lemma_url_span_bound(chars: Seq<char>, i: int, ascii_depth: nat, wide_depth: nat)
    requires
        0 <= i <= chars.len(),
    ensures
        i + url_span(chars, i, ascii_depth, wide_depth) <= chars.len(),
    decreases chars.len() - i,
{
    if i < chars.len() {
        let c = chars[i];
        if c == '(' {
            lemma_url_span_bound(chars, i + 1, ascii_depth + 1, wide_depth);
        } else if c == '\u{FF08}' {
            lemma_url_span_bound(chars, i + 1, ascii_depth, wide_depth + 1);
        } else if c == ')' {
            if ascii_depth > 0 {
                lemma_url_span_bound(chars, i + 1, (ascii_depth - 1) as nat, wide_depth);
            }
        } else if c == '\u{FF09}' {
            if wide_depth > 0 {
                lemma_url_span_bound(chars, i + 1, ascii_depth, (wide_depth - 1) as nat);
            }
        } else if !is_url_stop(c) {
            lemma_url_span_bound(chars, i + 1, ascii_depth, wide_depth);
        }
    }
}

/// Trimming never lengthens.
pub proof fn lemma_trimmed_len_bound(chars: Seq<char>, start: int, len: nat)
    ensures
        trimmed_len(chars, start, len) <= len,
    decreases len,
{
    if len > 0 && is_trailing_punctuation(chars[start + len - 1]) {
        lemma_trimmed_len_bound(chars, start, (len - 1) as nat);
    }
}

/// What is left after trimming does not end in punctuation.
pub proof fn lemma_trimmed_end(chars: Seq<char>, start: int, len: nat)
    ensures
        trimmed_len(chars, start, len) == 0 || !is_trailing_punctuation(
            chars[start + trimmed_len(chars, start, len) - 1],
        ),
    decreases len,
{
    if len > 0 && is_trailing_punctuation(chars[start + len - 1]) {
        lemma_trimmed_end(chars, start, (len - 1) as nat);
    }
}

/// A URL holds no stop character: none stands in the span that the URL is
/// cut from.
pub proof fn lemma_span_has_no_stop(
    chars: Seq<char>,
    i: int,
    ascii_depth: nat,
    wide_depth: nat,
    k: int,
)
    requires
        0 <= i <= k < i + url_span(chars, i, ascii_depth, wide_depth),
    ensures
        k < chars.len(),
        !is_url_stop(chars[k]),
    decreases chars.len() - i,
{
    lemma_url_span_bound(chars, i, ascii_depth, wide_depth);
    let c = chars[i];
    if k > i {
        if c == '(' {
            lemma_span_has_no_stop(chars, i + 1, ascii_depth + 1, wide_depth, k);
        } else if c == '\u{FF08}' {
            lemma_span_has_no_stop(chars, i + 1, ascii_depth, wide_depth + 1, k);
        } else if c == ')' {
            lemma_span_has_no_stop(chars, i + 1, (ascii_depth - 1) as nat, wide_depth, k);
        } else if c == '\u{FF09}' {
            lemma_span_has_no_stop(chars, i + 1, ascii_depth, (wide_depth - 1) as nat, k);
        } else {
            lemma_span_has_no_stop(chars, i + 1, ascii_depth, wide_depth, k);
        }
    }
}

/// The index from which on a URL's query or fragment stands: that of its
/// first `?` or `#` from `i` on, or the URL's length.
pub open spec fn query_index(url: Seq<char>, i: int) -> int
    decreases url.len() - i,
{
    if i < 0 || i >= url.len() {
        url.len() as int
    } else if url[i] == '?' || url[i] == '#' {
        i
    } else {
        query_index(url, i + 1)
    }
}

/// The URL in small letters, without query and fragment.
pub open spec fn url_path(url: Seq<char>) -> Seq<char> {
    lowercase(url).take(query_index(lowercase(url), 0))
}

/// Whether a URL names an image, going by the ending of its path.
pub open spec fn names_image(url: Seq<char>) -> bool {
    let path = url_path(url);
    ||| has_suffix(path, ".png"@)
    ||| has_suffix(path, ".jpg"@)
    ||| has_suffix(path, ".jpeg"@)
    ||| has_suffix(path, ".gif"@)
    ||| has_suffix(path, ".webp"@)
    ||| has_suffix(path, ".svg"@)
    ||| has_suffix(path, ".bmp"@)
    ||| has_suffix(path, ".avif"@)
}

/// The URL that begins at index `pos`, with the index at which it ends: an
/// `https://` or `http://` and what follows it.
pub open spec fn url_at(chars: Seq<char>, pos: int) -> Option<(Seq<char>, int)> {
    if occurs_at(chars, "https://"@, pos) {
        url_candidate(chars, pos + 8, "https://"@)
    } else if occurs_at(chars, "http://"@, pos) {
        url_candidate(chars, pos + 7, "http://"@)
    } else {
        None
    }
}

/// A URL ends after the index at which it begins, and within the text.
pub proof fn lemma_url_end(chars: Seq<char>, pos: int)
    requires
        0 <= pos < chars.len(),
    ensures
        match url_at(chars, pos) {
            Some((url, end)) => pos < end <= chars.len(),
            None => true,
        },
{
    reveal_strlit("https://");
    reveal_strlit("http://");
    if occurs_at(chars, "https://"@, pos) {
        lemma_url_span_bound(chars, pos + 8, 0, 0);
        lemma_trimmed_len_bound(chars, pos + 8, url_span(chars, pos + 8, 0, 0));
    } else if occurs_at(chars, "http://"@, pos) {
        lemma_url_span_bound(chars, pos + 7, 0, 0);
        lemma_trimmed_len_bound(chars, pos + 7, url_span(chars, pos + 7, 0, 0));
    }
}

/// Whether `path` ends with `suffix`.
pub fn ends_with(path: &[char], suffix: &str) -> (r: bool)
    ensures
        r == has_suffix(path@, suffix@),
{
    let tail = chars_of(suffix);
    if tail.len() > path.len() {
        return false;
    }
    let from: usize = path.len() - tail.len();
    let r = crate::text::matches_at(path, tail.as_slice(), from);
    r
}

impl HtmlExportWithUrls {
    /// Reads the URL that follows `scheme` from index `start` on.
    pub fn extract_url(chars: &[char], start: usize, scheme: &str) -> (r: Option<(String, usize)>)
        requires
            start <= chars@.len(),
        ensures
            match r {
                Some((url, end)) => url_candidate(chars@, start as int, scheme@) == Some(
                    (url@, end as int),
                ),
                None => url_candidate(chars@, start as int, scheme@) is None,
            },
    {
        let mut url_end: usize = start;
        let mut ascii_depth: usize = 0;
        let mut wide_depth: usize = 0;
        proof {
            lemma_url_span_bound(chars@, start as int, 0, 0);
        }
        while url_end < chars.len()
            invariant
                start <= url_end <= chars@.len(),
                ascii_depth + wide_depth <= url_end - start,
                url_span(chars@, start as int, 0, 0) == (url_end - start) + url_span(
                    chars@,
                    url_end as int,
                    ascii_depth as nat,
                    wide_depth as nat,
                ),
            ensures
                start <= url_end <= chars@.len(),
                url_span(chars@, start as int, 0, 0) == url_end - start,
            decreases chars.len() - url_end,
        {
            let c = chars[url_end];
            if c == '(' {
                ascii_depth = ascii_depth + 1;
            } else if c == '\u{FF08}' {
                wide_depth = wide_depth + 1;
            } else if c == ')' {
                if ascii_depth > 0 {
                    ascii_depth = ascii_depth - 1;
                } else {
                    break ;
                }
            } else if c == '\u{FF09}' {
                if wide_depth > 0 {
                    wide_depth = wide_depth - 1;
                } else {
                    break ;
                }
            } else if c.is_whitespace() || c == '<' || c == '>' || c == '"' || c == '\'' || c
                == '\u{3002}' || c == '\u{FF0C}' || c == '\u{FF01}' || c == '\u{FF1F}' || c
                == '\u{FF1B}' || c == '\u{FF1A}' {
                break ;
            }
            url_end = url_end + 1;
        }
        let mut actual_end: usize = url_end;
        while actual_end > start && is_trailing(chars[actual_end - 1])
            invariant
                start <= actual_end <= url_end <= chars@.len(),
                trimmed_len(chars@, start as int, (url_end - start) as nat) == trimmed_len(
                    chars@,
                    start as int,
                    (actual_end - start) as nat,
                ),
            decreases actual_end,
        {
            actual_end = actual_end - 1;
        }
        let mut url = chars_of(scheme);
        push_range(&mut url, chars, start, actual_end);
        if url.len() >= MIN_URL_CHARS {
            Some((string_of(url.as_slice()), actual_end))
        } else {
            None
        }
    }

    /// Whether a URL names an image, going by the ending of its path.
    pub fn is_image_url(url: &str) -> (r: bool)
        ensures
            r == names_image(url@),
    {
        let chars = chars_of(url);
        let mut lower: Vec<char> = Vec::new();
        let mut i: usize = 0;
        while i < chars.len()
            invariant
                i <= chars.len(),
                lower@ == lowercase(chars@).take(i as int),
            decreases chars.len() - i,
        {
            lower.push(to_ascii_lower(chars[i]));
            assert(lower@ =~= lowercase(chars@).take(i + 1));
            i = i + 1;
        }
        assert(lower@ =~= lowercase(url@));
        let mut end: usize = 0;
        while end < lower.len() && lower[end] != '?' && lower[end] != '#'
            invariant
                end <= lower.len(),
                query_index(lower@, 0) == query_index(lower@, end as int),
            decreases lower.len() - end,
        {
            end = end + 1;
        }
        lower.truncate(end);
        assert(lower@ =~= url_path(url@));
        let path = lower.as_slice();
        ends_with(path, ".png") || ends_with(path, ".jpg") || ends_with(path, ".jpeg") || ends_with(
            path,
            ".gif",
        ) || ends_with(path, ".webp") || ends_with(path, ".svg") || ends_with(path, ".bmp")
            || ends_with(path, ".avif")
    }
}

/// Whether a character is punctuation that is trimmed from a URL's end.
pub fn is_trailing(c: char) -> (r: bool)
    ensures
        r == is_trailing_punctuation(c),
{
    c == '.' || c == ',' || c == '!' || c == '?' || c == ';' || c == ':'
}

} // verus!
