//! Attribute sets: what an `ATTR_HTML` keyword says of the next link or
//! image, and how its value is read.

use vstd::prelude::*;
use crate::escape::escaped;
use crate::html::HtmlExportWithUrls;
use crate::text::{
    chars_of, flushed, same_ignoring_ascii_case, str_eq, string_of, string_of_range,
    string_views, white_space,
};

verus! {

/// An attribute set as a sequence of key and value pairs, in the order in
/// which the keys first came.
pub type AttrSeq = Seq<(Seq<char>, Seq<char>)>;

/// No key stands twice.
pub open spec fn keys_distinct(a: AttrSeq) -> bool {
    forall|i: int, j: int| 0 <= i < j < a.len() ==> a[i].0 != a[j].0
}

/// `i` is the first index at which the key `k` stands.
pub open spec fn is_key_index(a: AttrSeq, k: Seq<char>, i: int) -> bool {
    &&& 0 <= i < a.len()
    &&& a[i].0 == k
    &&& forall|j: int| 0 <= j < i ==> a[j].0 != k
}

/// Whether the key `k` stands in `a`.
pub open spec fn has_key(a: AttrSeq, k: Seq<char>) -> bool {
    exists|i: int| is_key_index(a, k, i)
}

/// The first index at which the key `k` stands in `a`.
pub open spec fn key_index(a: AttrSeq, k: Seq<char>) -> int {
    choose|i: int| is_key_index(a, k, i)
}

/// The value that stands for the key `k`, if the key is there.
pub open spec fn value_of(a: AttrSeq, k: Seq<char>) -> Option<Seq<char>> {
    if has_key(a, k) {
        Some(a[key_index(a, k)].1)
    } else {
        None
    }
}

/// `a` with the value `v` for the key `k`: in the key's place if it is there
/// already, at the end otherwise.
pub open spec fn upsert(a: AttrSeq, k: Seq<char>, v: Seq<char>) -> AttrSeq {
    if has_key(a, k) {
        a.update(key_index(a, k), (k, v))
    } else {
        a.push((k, v))
    }
}

/// `a` after the first `n` pairs of `b` were put into it one by one.
pub open spec fn merged_upto(a: AttrSeq, b: AttrSeq, n: nat) -> AttrSeq
    decreases n,
{
    if n == 0 || n > b.len() {
        a
    } else {
        upsert(merged_upto(a, b, (n - 1) as nat), b[n - 1].0, b[n - 1].1)
    }
}

/// `a` after every pair of `b` was put into it: a key of `b` takes the value
/// that `b` gives it.
pub open spec fn merged(a: AttrSeq, b: AttrSeq) -> AttrSeq {
    merged_upto(a, b, b.len())
}

/// The first index of a key is determined.
proof fn lemma_key_index(a: AttrSeq, k: Seq<char>, i: int)
    requires
        is_key_index(a, k, i),
    ensures
        has_key(a, k),
        key_index(a, k) == i,
{
    let j = key_index(a, k);
    assert(is_key_index(a, k, j));
    if j < i {
        assert(a[j].0 != k);
    }
    if i < j {
        assert(a[i].0 != k);
    }
}

/// Where no pair holds the key, the key is not there.
proof fn lemma_no_key(a: AttrSeq, k: Seq<char>)
    requires
        forall|j: int| 0 <= j < a.len() ==> a[j].0 != k,
    ensures
        !has_key(a, k),
{
    if has_key(a, k) {
        let i = key_index(a, k);
        assert(is_key_index(a, k, i));
    }
}

/// Putting a pair into a set without repeated keys repeats none; the key
/// then has the new value, and every other key what it had.
pub proof fn lemma_upsert(a: AttrSeq, k: Seq<char>, v: Seq<char>)
    requires
        keys_distinct(a),
    ensures
        keys_distinct(upsert(a, k, v)),
        value_of(upsert(a, k, v), k) == Some(v),
        forall|other: Seq<char>| other != k ==> value_of(upsert(a, k, v), other) == value_of(a, other),
{
    let b = upsert(a, k, v);
    if has_key(a, k) {
        let i = key_index(a, k);
        assert(is_key_index(a, k, i));
        assert(is_key_index(b, k, i));
        lemma_key_index(b, k, i);
        assert forall|other: Seq<char>| other != k implies value_of(b, other) == value_of(
            a,
            other,
        ) by {
            if has_key(a, other) {
                let j = key_index(a, other);
                assert(is_key_index(a, other, j));
                assert(is_key_index(b, other, j));
                lemma_key_index(b, other, j);
            } else if has_key(b, other) {
                let j = key_index(b, other);
                assert(is_key_index(b, other, j));
                assert(is_key_index(a, other, j));
            }
        }
    } else {
        assert forall|j: int| 0 <= j < a.len() implies a[j].0 != k by {
            if a[j].0 == k {
                lemma_first_key(a, k, j);
            }
        }
        assert(is_key_index(b, k, a.len() as int));
        lemma_key_index(b, k, a.len() as int);
        assert forall|other: Seq<char>| other != k implies value_of(b, other) == value_of(
            a,
            other,
        ) by {
            if has_key(a, other) {
                let j = key_index(a, other);
                assert(is_key_index(a, other, j));
                assert(is_key_index(b, other, j));
                lemma_key_index(b, other, j);
            } else if has_key(b, other) {
                let j = key_index(b, other);
                assert(is_key_index(b, other, j));
                assert(is_key_index(a, other, j));
            }
        }
    }
}

/// A key that stands somewhere has a first index.
proof fn lemma_first_key(a: AttrSeq, k: Seq<char>, at: int)
    requires
        0 <= at < a.len(),
        a[at].0 == k,
    ensures
        has_key(a, k),
        key_index(a, k) <= at,
    decreases at,
{
    if exists|j: int| 0 <= j < at && a[j].0 == k {
        let j = choose|j: int| 0 <= j < at && a[j].0 == k;
        lemma_first_key(a, k, j);
    } else {
        assert(is_key_index(a, k, at));
        lemma_key_index(a, k, at);
    }
}

/// Whether the key `k` stands among the first `n` pairs of `b`, at index
/// `i`.
pub open spec fn keyed_at(b: AttrSeq, n: nat, k: Seq<char>, i: int) -> bool {
    0 <= i < n && i < b.len() && b[i].0 == k
}

/// What merging the first `n` pairs of `b` into `a` comes to, key by key.
proof fn lemma_merged_upto(a: AttrSeq, b: AttrSeq, n: nat)
    requires
        keys_distinct(a),
        keys_distinct(b),
        n <= b.len(),
    ensures
        keys_distinct(merged_upto(a, b, n)),
        forall|k: Seq<char>, i: int| #[trigger]
            keyed_at(b, n, k, i) ==> value_of(merged_upto(a, b, n), k) == Some(b[i].1),
        forall|k: Seq<char>|
            (forall|i: int| !keyed_at(b, n, k, i)) ==> #[trigger] value_of(
                merged_upto(a, b, n),
                k,
            ) == value_of(a, k),
    decreases n,
{
    if n > 0 {
        let m = (n - 1) as nat;
        let before = merged_upto(a, b, m);
        let (key, value) = b[n - 1];
        lemma_merged_upto(a, b, m);
        lemma_upsert(before, key, value);
        assert forall|k: Seq<char>, i: int| #[trigger] keyed_at(b, n, k, i) implies value_of(
            merged_upto(a, b, n),
            k,
        ) == Some(b[i].1) by {
            if i < n - 1 {
                assert(keyed_at(b, m, k, i));
                assert(b[i].0 != b[n - 1].0);
            }
        }
        assert forall|k: Seq<char>| (forall|i: int| !keyed_at(b, n, k, i)) implies #[trigger] value_of(
            merged_upto(a, b, n),
            k,
        ) == value_of(a, k) by {
            assert(!keyed_at(b, n, k, n - 1));
            assert(k != key);
            assert forall|i: int| !#[trigger] keyed_at(b, m, k, i) by {
                assert(!keyed_at(b, n, k, i));
            }
            assert(merged_upto(a, b, n) == upsert(before, key, value));
            assert(value_of(upsert(before, key, value), k) == value_of(before, k));
            assert(value_of(before, k) == value_of(a, k));
        }
    }
}

/// Merging gives each key of `b` the value that `b` gives it and leaves
/// every other key of `a` what it had; no key stands twice afterwards.
pub proof fn lemma_merged(a: AttrSeq, b: AttrSeq)
    requires
        keys_distinct(a),
        keys_distinct(b),
    ensures
        keys_distinct(merged(a, b)),
        forall|k: Seq<char>| #[trigger]
            value_of(merged(a, b), k) == match value_of(b, k) {
                Some(v) => Some(v),
                None => value_of(a, k),
            },
{
    lemma_merged_upto(a, b, b.len());
    assert forall|k: Seq<char>| #[trigger]
        value_of(merged(a, b), k) == match value_of(b, k) {
            Some(v) => Some(v),
            None => value_of(a, k),
        } by {
        if has_key(b, k) {
            let i = key_index(b, k);
            assert(is_key_index(b, k, i));
            assert(keyed_at(b, b.len(), k, i));
        } else {
            assert forall|i: int| !#[trigger] keyed_at(b, b.len(), k, i) by {
                if keyed_at(b, b.len(), k, i) {
                    lemma_first_key(b, k, i);
                }
            }
        }
    }
}

/// The pairs of strings as pairs of character sequences.
pub open spec fn entry_views(entries: Seq<(String, String)>) -> AttrSeq {
    entries.map_values(|e: (String, String)| (e.0@, e.1@))
}

/// An attribute set: keys with their values, no key twice, in the order in
/// which the keys first came.
pub struct Attributes {
    entries: Vec<(String, String)>,
}

impl View for Attributes {
    type V = AttrSeq;

    /// The pairs of the set, in order.
    closed spec fn view(&self) -> AttrSeq {
        entry_views(self.entries@)
    }
}

impl Attributes {
    /// No key stands twice: this holds of every attribute set.
    #[verifier::type_invariant]
    pub open spec fn well_formed(&self) -> bool {
        keys_distinct(self@)
    }

    /// The empty set.
    pub fn new() -> (r: Self)
        ensures
            r@ == Seq::<(Seq<char>, Seq<char>)>::empty(),
            keys_distinct(r@),
    {
        let r = Attributes { entries: Vec::new() };
        assert(r@ =~= Seq::<(Seq<char>, Seq<char>)>::empty());
        r
    }

    /// The number of keys.
    pub fn len(&self) -> (n: usize)
        ensures
            n == self@.len(),
    {
        self.entries.len()
    }

    /// The key at index `i`.
    pub fn key(&self, i: usize) -> (k: &String)
        requires
            i < self@.len(),
        ensures
            k@ == self@[i as int].0,
    {
        &self.entries[i].0
    }

    /// The value at index `i`.
    pub fn value(&self, i: usize) -> (v: &String)
        requires
            i < self@.len(),
        ensures
            v@ == self@[i as int].1,
    {
        &self.entries[i].1
    }

    /// The value of a key, if the set has the key.
    pub fn get(&self, key: &str) -> (r: Option<&String>)
        ensures
            match r {
                Some(v) => value_of(self@, key@) == Some(v@),
                None => value_of(self@, key@) is None,
            },
    {
        let mut i: usize = 0;
        while i < self.entries.len()
            invariant
                i <= self.entries.len(),
                forall|j: int| 0 <= j < i ==> self@[j].0 != key@,
            decreases self.entries.len() - i,
        {
            if str_eq(self.entries[i].0.as_str(), key) {
                proof {
                    assert(is_key_index(self@, key@, i as int));
                    lemma_key_index(self@, key@, i as int);
                }
                return Some(&self.entries[i].1);
            }
            i = i + 1;
        }
        proof {
            lemma_no_key(self@, key@);
        }
        None
    }

    /// Gives `key` the value `value`, whether or not the key was there.
    pub fn insert(&mut self, key: String, value: String)
        ensures
            final(self)@ == upsert(old(self)@, key@, value@),
            keys_distinct(final(self)@),
    {
        proof {
            use_type_invariant(&*self);
            lemma_upsert(self@, key@, value@);
        }
        let mut entries: Vec<(String, String)> = Vec::new();
        std::mem::swap(&mut entries, &mut self.entries);
        let ghost before = entry_views(entries@);
        assert(before == old(self)@);
        let mut i: usize = 0;
        while i < entries.len()
            invariant
                i <= entries.len(),
                before == entry_views(entries@),
                before == old(self)@,
                keys_distinct(upsert(before, key@, value@)),
                forall|j: int| 0 <= j < i ==> before[j].0 != key@,
            decreases entries.len() - i,
        {
            if entries[i].0 == key {
                proof {
                    assert(is_key_index(before, key@, i as int));
                    lemma_key_index(before, key@, i as int);
                }
                entries.set(i, (key, value));
                assert(entry_views(entries@) =~= upsert(
                    before,
                    key@,
                    value@,
                ));
                self.entries = entries;
                return ;
            }
            i = i + 1;
        }
        proof {
            lemma_no_key(before, key@);
        }
        entries.push((key, value));
        assert(entry_views(entries@) =~= upsert(
            before,
            key@,
            value@,
        ));
        self.entries = entries;
    }

    /// Puts every pair of `other` into the set, in the order of `other`.
    pub fn extend(&mut self, other: &Attributes)
        ensures
            final(self)@ == merged(old(self)@, other@),
            keys_distinct(final(self)@),
    {
        proof {
            use_type_invariant(&*self);
        }
        let mut i: usize = 0;
        while i < other.entries.len()
            invariant
                i <= other.entries.len(),
                self@ == merged_upto(old(self)@, other@, i as nat),
                keys_distinct(self@),
            decreases other.entries.len() - i,
        {
            let key = other.entries[i].0.clone();
            let value = other.entries[i].1.clone();
            self.insert(key, value);
            i = i + 1;
        }
    }
}

/// The tokens of `v` when reading goes on at index `i`, inside a quoted span
/// or not, with the token `current` begun and `tokens` complete.
///
/// Whitespace outside quotes ends a token. A quote opens or closes a span and
/// is no part of the token; two quotes in a row inside a span stand for one
/// quote character.
pub open spec fn tokens_from(
    v: Seq<char>,
    i: int,
    in_quotes: bool,
    current: Seq<char>,
    tokens: Seq<Seq<char>>,
) -> Seq<Seq<char>>
    decreases v.len() - i,
{
    if i < 0 || i >= v.len() {
        flushed(tokens, current)
    } else if v[i] == '"' {
        if in_quotes && i + 1 < v.len() && v[i + 1] == '"' {
            tokens_from(v, i + 2, in_quotes, current.push('"'), tokens)
        } else {
            tokens_from(v, i + 1, !in_quotes, current, tokens)
        }
    } else if !in_quotes && white_space(v[i]) {
        tokens_from(v, i + 1, in_quotes, Seq::empty(), flushed(tokens, current))
    } else {
        tokens_from(v, i + 1, in_quotes, current.push(v[i]), tokens)
    }
}

/// The tokens of a keyword's value.
pub open spec fn tokens_of(v: Seq<char>) -> Seq<Seq<char>> {
    tokens_from(v, 0, false, Seq::empty(), Seq::empty())
}

/// The key that a token names: the token without its leading colon, ASCII or
/// fullwidth, if it has one.
pub open spec fn key_of(token: Seq<char>) -> Option<Seq<char>> {
    if token.len() > 0 && (token[0] == ':' || token[0] == '\u{FF1A}') {
        Some(token.subrange(1, token.len() as int))
    } else {
        None
    }
}

/// The attributes that the tokens from index `i` on add to `acc`.
///
/// A token that names a key takes the token after it as its value, unless
/// that one names a key too; then, and at the end, its value is empty. A
/// token that names no key and is no value, and an empty key, are passed
/// over.
pub open spec fn attrs_from(tokens: Seq<Seq<char>>, i: int, acc: AttrSeq) -> AttrSeq
    decreases tokens.len() - i,
{
    if i < 0 || i >= tokens.len() {
        acc
    } else {
        match key_of(tokens[i]) {
            None => attrs_from(tokens, i + 1, acc),
            Some(k) => if k.len() == 0 {
                attrs_from(tokens, i + 1, acc)
            } else if i + 1 < tokens.len() && key_of(tokens[i + 1]) is None {
                attrs_from(tokens, i + 2, upsert(acc, k, tokens[i + 1]))
            } else {
                attrs_from(tokens, i + 1, upsert(acc, k, Seq::empty()))
            },
        }
    }
}

/// The attribute set that a keyword's value states.
pub open spec fn parsed_attrs(value: Seq<char>) -> AttrSeq {
    attrs_from(tokens_of(value), 0, Seq::empty())
}

/// Reading tokens into a set without repeated keys repeats none.
pub proof fn lemma_attrs_from_distinct(tokens: Seq<Seq<char>>, i: int, acc: AttrSeq)
    requires
        keys_distinct(acc),
    ensures
        keys_distinct(attrs_from(tokens, i, acc)),
    decreases tokens.len() - i,
{
    if 0 <= i < tokens.len() {
        match key_of(tokens[i]) {
            None => {
                lemma_attrs_from_distinct(tokens, i + 1, acc);
            },
            Some(k) => {
                if k.len() == 0 {
                    lemma_attrs_from_distinct(tokens, i + 1, acc);
                } else if i + 1 < tokens.len() && key_of(tokens[i + 1]) is None {
                    lemma_upsert(acc, k, tokens[i + 1]);
                    lemma_attrs_from_distinct(tokens, i + 2, upsert(acc, k, tokens[i + 1]));
                } else {
                    lemma_upsert(acc, k, Seq::empty());
                    lemma_attrs_from_distinct(tokens, i + 1, upsert(acc, k, Seq::empty()));
                }
            },
        }
    }
}

/// The attribute set that a keyword's value states holds no key twice.
pub proof fn lemma_parsed_attrs_distinct(value: Seq<char>)
    ensures
        keys_distinct(parsed_attrs(value)),
{
    lemma_attrs_from_distinct(tokens_of(value), 0, Seq::empty());
}

/// One attribute as it stands in a tag: a space, the key, and the escaped
/// value in double quotes.
pub open spec fn attr_chars(k: Seq<char>, v: Seq<char>) -> Seq<char> {
    seq![' '] + k + seq!['=', '"'] + escaped(v) + seq!['"']
}

/// An `alt` attribute, in any case of letters, with an empty value.
pub open spec fn is_empty_alt(k: Seq<char>, v: Seq<char>) -> bool {
    same_ignoring_ascii_case(k, "alt"@) && v.len() == 0
}

/// The first `n` attributes as they stand in a tag, one after another,
/// without the empty `alt` attributes where `skip_empty_alt` says so.
pub open spec fn attrs_chars_upto(a: AttrSeq, skip_empty_alt: bool, n: nat) -> Seq<char>
    decreases n,
{
    if n == 0 || n > a.len() {
        Seq::empty()
    } else {
        let (k, v) = a[n - 1];
        attrs_chars_upto(a, skip_empty_alt, (n - 1) as nat) + if skip_empty_alt && is_empty_alt(
            k,
            v,
        ) {
            Seq::empty()
        } else {
            attr_chars(k, v)
        }
    }
}

/// The attributes as they stand in a tag.
pub open spec fn attrs_chars(a: AttrSeq, skip_empty_alt: bool) -> Seq<char> {
    attrs_chars_upto(a, skip_empty_alt, a.len())
}

/// Cuts a keyword's value into tokens.
pub fn tokenize(value: &str) -> (tokens: Vec<String>)
    ensures
        string_views(tokens@) == tokens_of(value@),
{
    let chars = chars_of(value);
    let mut tokens: Vec<String> = Vec::new();
    let mut current: Vec<char> = Vec::new();
    let mut in_quotes = false;
    let mut i: usize = 0;
    assert(string_views(tokens@) =~= Seq::<Seq<char>>::empty());
    while i < chars.len()
        invariant
            i <= chars.len(),
            chars@ == value@,
            tokens_of(value@) == tokens_from(
                chars@,
                i as int,
                in_quotes,
                current@,
                string_views(tokens@),
            ),
        decreases chars.len() - i,
    {
        let c = chars[i];
        if c == '"' {
            if in_quotes && chars.len() - i > 1 && chars[i + 1] == '"' {
                current.push('"');
                i = i + 2;
            } else {
                in_quotes = !in_quotes;
                i = i + 1;
            }
        } else if !in_quotes && c.is_whitespace() {
            if current.len() > 0 {
                let ghost before = string_views(tokens@);
                tokens.push(string_of(current.as_slice()));
                assert(string_views(tokens@) =~= before.push(current@));
            }
            current = Vec::new();
            i = i + 1;
        } else {
            current.push(c);
            i = i + 1;
        }
    }
    if current.len() > 0 {
        let ghost before = string_views(tokens@);
        tokens.push(string_of(current.as_slice()));
        assert(string_views(tokens@) =~= before.push(current@));
    }
    tokens
}

/// The key that a token names, if it names one.
pub fn attr_key(token: &str) -> (key: Option<String>)
    ensures
        match key {
            Some(k) => key_of(token@) == Some(k@),
            None => key_of(token@) is None,
        },
{
    let chars = chars_of(token);
    if chars.len() > 0 && (chars[0] == ':' || chars[0] == '\u{FF1A}') {
        Some(string_of_range(chars.as_slice(), 1, chars.len()))
    } else {
        None
    }
}

impl HtmlExportWithUrls {
    /// Reads the attribute set that the value of an `ATTR_HTML` keyword
    /// states.
    pub fn parse_attr_html(value: &str) -> (attrs: Attributes)
        ensures
            attrs@ == parsed_attrs(value@),
            keys_distinct(attrs@),
    {
        let tokens = tokenize(value);
        let mut attrs = Attributes::new();
        let mut index: usize = 0;
        while index < tokens.len()
            invariant
                index <= tokens.len(),
                keys_distinct(attrs@),
                string_views(tokens@) == tokens_of(value@),
                parsed_attrs(value@) == attrs_from(string_views(tokens@), index as int, attrs@),
            decreases tokens.len() - index,
        {
            assert(string_views(tokens@)[index as int] == tokens@[index as int]@);
            match attr_key(tokens[index].as_str()) {
                None => {
                    index = index + 1;
                },
                Some(key) => {
                    if key.as_str().unicode_len() == 0 {
                        index = index + 1;
                    } else if tokens.len() - index > 1 {
                        assert(string_views(tokens@)[index + 1] == tokens@[index + 1]@);
                        if attr_key(tokens[index + 1].as_str()).is_none() {
                            attrs.insert(key, tokens[index + 1].clone());
                            index = index + 2;
                        } else {
                            attrs.insert(key, String::new());
                            index = index + 1;
                        }
                    } else {
                        attrs.insert(key, String::new());
                        index = index + 1;
                    }
                },
            }
        }
        attrs
    }
}

} // verus!
