//! A tag as the user writes it: a bare label, or a key and a value joined by `:`.

use crate::text::{chars_of, push_char, string_from};
use vstd::prelude::*;
use vstd::string::StringExecFns;

verus! {

/// A tag, either a bare key or a key with a value.
#[derive(Debug)]
pub enum Tag {
    /// A bare label.
    Key(String),
    /// An attribute: a key and its value.
    KeyValue { key: String, value: String },
}

/// What a `Tag` stands for.
pub enum TagView {
    Key(Seq<char>),
    KeyValue { key: Seq<char>, value: Seq<char> },
}

impl View for Tag {
    type V = TagView;

    open spec fn view(&self) -> TagView {
        match self {
            Tag::Key(key) => TagView::Key(key@),
            Tag::KeyValue { key, value } => TagView::KeyValue { key: key@, value: value@ },
        }
    }
}

impl DeepView for Tag {
    type V = TagView;

    open spec fn deep_view(&self) -> TagView {
        self.view()
    }
}

/// The position of the first `:` in `raw`, if it holds one.
pub open spec fn first_colon(raw: Seq<char>) -> Option<int> {
    raw.index_of_first(':')
}

/// The tag that the text `raw` denotes: without a `:` a bare key; else the text
/// before the first `:` is the key and all that follows it, further `:`
/// included, is the value.
pub open spec fn classify(raw: Seq<char>) -> TagView {
    match first_colon(raw) {
        None => TagView::Key(raw),
        Some(i) => TagView::KeyValue {
            key: raw.subrange(0, i),
            value: raw.subrange(i + 1, raw.len() as int),
        },
    }
}

/// The text that denotes `tag`.
pub open spec fn tag_text(tag: TagView) -> Seq<char> {
    match tag {
        TagView::Key(key) => key,
        TagView::KeyValue { key, value } => key + seq![':'] + value,
    }
}

/// Where `first_colon` points: at a `:` that no other `:` precedes.
pub proof fn lemma_first_colon(raw: Seq<char>)
    ensures
        match first_colon(raw) {
            Some(i) => 0 <= i < raw.len() && raw[i] == ':' && forall|j: int|
                0 <= j < i ==> raw[j] != ':',
            None => forall|j: int| 0 <= j < raw.len() ==> raw[j] != ':',
        },
{
    raw.index_of_first_ensures(':');
}

/// Writing a tag out and reading it again gives the same text: `classify`
/// loses nothing.
pub proof fn lemma_classify_keeps_text(raw: Seq<char>)
    ensures
        tag_text(classify(raw)) == raw,
{
    lemma_first_colon(raw);
    match first_colon(raw) {
        Some(i) => {
            assert(raw.subrange(0, i) + seq![':'] + raw.subrange(i + 1, raw.len() as int) =~= raw);
        },
        None => {},
    }
}

impl Tag {
    /// Reads a tag from the text that denotes it.
    pub fn new(s: &str) -> (tag: Tag)
        ensures
            tag@ == classify(s@),
    {
        match parse_attribute(s) {
            None => Tag::Key(s.to_owned()),
            Some((key, value)) => Tag::KeyValue { key, value },
        }
    }

    /// The text that denotes this tag: the key, and for an attribute a `:` and
    /// the value after it.
    pub fn to_string(&self) -> (s: String)
        ensures
            s@ == tag_text(self@),
    {
        match self {
            Tag::Key(key) => key.clone(),
            Tag::KeyValue { key, value } => {
                let mut s = key.clone();
                push_char(&mut s, ':');
                s.append(value.as_str());
                s
            },
        }
    }
}

/// Splits `tag` at its first `:` into key and value, if it holds a `:`.
pub fn parse_attribute(tag: &str) -> (r: Option<(String, String)>)
    ensures
        match first_colon(tag@) {
            None => r.is_none(),
            Some(i) => r matches Some((key, value)) && key@ == tag@.subrange(0, i) && value@
                == tag@.subrange(i + 1, tag@.len() as int),
        },
{
    let chars = chars_of(tag);
    let n: usize = chars.len();
    let mut i: usize = 0;
    while i < n
        invariant
            i <= n,
            n == chars@.len(),
            chars@ == tag@,
            forall|j: int| 0 <= j < i ==> chars@[j] != ':',
        decreases n - i,
    {
        if chars[i] == ':' {
            proof {
                lemma_first_colon(tag@);
            }
            let key = string_from(&chars, 0, i);
            let value = string_from(&chars, i + 1, n);
            return Some((key, value));
        }
        i = i + 1;
    }
    proof {
        lemma_first_colon(tag@);
    }
    None
}

} // verus!
