//! The order of search results.
//!
//! Text is ordered as `str` is: by the bytes of its UTF-8 encoding, a proper
//! prefix before what it is a prefix of. A key that is missing comes before
//! every key that is there. Sorting is stable: files with equal keys keep the
//! order they had.

use super::storage::{SearchResult, SearchResultView};
use crate::text::{lemma_first_index, lemma_no_index, str_eq};
use vstd::prelude::*;
use vstd::utf8::*;

verus! {

/// Whether the bytes `a` come before the bytes `b`, or are the same.
pub open spec fn bytes_le(a: Seq<u8>, b: Seq<u8>) -> bool
    decreases a.len(),
{
    if a.len() == 0 {
        true
    } else if b.len() == 0 {
        false
    } else if a[0] != b[0] {
        a[0] < b[0]
    } else {
        bytes_le(a.drop_first(), b.drop_first())
    }
}

/// Whether the text `a` comes before the text `b`, or is the same.
pub open spec fn text_le(a: Seq<char>, b: Seq<char>) -> bool {
    bytes_le(encode_utf8(a), encode_utf8(b))
}

/// Whether the key `a` comes before the key `b`, or is the same.
pub open spec fn key_le(a: Option<Seq<char>>, b: Option<Seq<char>>) -> bool {
    match (a, b) {
        (None, _) => true,
        (Some(_), None) => false,
        (Some(x), Some(y)) => text_le(x, y),
    }
}

/// The keys of the attributes `attributes`, in their order.
pub open spec fn attribute_keys(attributes: Seq<(Seq<char>, Seq<char>)>) -> Seq<Seq<char>> {
    attributes.map_values(|attribute: (Seq<char>, Seq<char>)| attribute.0)
}

/// The value of the first attribute of `file` with the key `key`.
pub open spec fn first_attribute(file: SearchResultView, key: Seq<char>) -> Option<Seq<char>> {
    match attribute_keys(file.attributes).index_of_first(key) {
        Some(i) => Some(file.attributes[i].1),
        None => None,
    }
}

/// The key by which files are ordered by path.
pub open spec fn path_key() -> spec_fn(SearchResultView) -> Option<Seq<char>> {
    |file: SearchResultView| Some(file.path)
}

/// The key by which files are ordered by the attribute `key`.
pub open spec fn attribute_key(key: Seq<char>) -> spec_fn(SearchResultView) -> Option<Seq<char>> {
    |file: SearchResultView| first_attribute(file, key)
}

/// The key that `by` selects: the attribute of that name, or the path where
/// there is no name.
pub open spec fn sort_key(by: Option<Seq<char>>) -> spec_fn(SearchResultView) -> Option<
    Seq<char>,
> {
    match by {
        Some(key) => attribute_key(key),
        None => path_key(),
    }
}

/// Where `file` goes into the sorted files `sorted`: behind the last file
/// whose key is not greater than its own.
pub open spec fn insert_position(
    sorted: Seq<SearchResultView>,
    file: SearchResultView,
    key: spec_fn(SearchResultView) -> Option<Seq<char>>,
) -> int
    decreases sorted.len(),
{
    if sorted.len() == 0 || key_le(key(sorted.last()), key(file)) {
        sorted.len() as int
    } else {
        insert_position(sorted.drop_last(), file, key)
    }
}

/// The files `files` in the order of their keys, files with equal keys in the
/// order they had.
pub open spec fn sorted_by(
    files: Seq<SearchResultView>,
    key: spec_fn(SearchResultView) -> Option<Seq<char>>,
) -> Seq<SearchResultView>
    decreases files.len(),
{
    if files.len() == 0 {
        files
    } else {
        let rest = sorted_by(files.drop_last(), key);
        rest.insert(insert_position(rest, files.last(), key), files.last())
    }
}

/// Whether the keys of `files` never decrease.
pub open spec fn is_sorted(
    files: Seq<SearchResultView>,
    key: spec_fn(SearchResultView) -> Option<Seq<char>>,
) -> bool {
    forall|i: int, j: int| 0 <= i < j < files.len() ==> key_le(key(files[i]), key(files[j]))
}

/// Of two byte sequences one comes before the other or they are the same.
pub proof fn lemma_bytes_le_total(a: Seq<u8>, b: Seq<u8>)
    ensures
        bytes_le(a, b) || bytes_le(b, a),
    decreases a.len(),
{
    if a.len() > 0 && b.len() > 0 && a[0] == b[0] {
        lemma_bytes_le_total(a.drop_first(), b.drop_first());
    }
}

/// The order of byte sequences is transitive.
pub proof fn lemma_bytes_le_transitive(a: Seq<u8>, b: Seq<u8>, c: Seq<u8>)
    requires
        bytes_le(a, b),
        bytes_le(b, c),
    ensures
        bytes_le(a, c),
    decreases a.len(),
{
    if a.len() > 0 && b.len() > 0 && c.len() > 0 && a[0] == b[0] && b[0] == c[0] {
        lemma_bytes_le_transitive(a.drop_first(), b.drop_first(), c.drop_first());
    }
}

/// Byte sequences that come before each other are the same.
pub proof fn lemma_bytes_le_antisymmetric(a: Seq<u8>, b: Seq<u8>)
    requires
        bytes_le(a, b),
        bytes_le(b, a),
    ensures
        a == b,
    decreases a.len(),
{
    if a.len() > 0 && b.len() > 0 {
        lemma_bytes_le_antisymmetric(a.drop_first(), b.drop_first());
        assert(a =~= seq![a[0]] + a.drop_first());
        assert(b =~= seq![b[0]] + b.drop_first());
    } else {
        assert(a =~= b);
    }
}

/// Keys are totally ordered: any two compare, the order is transitive, and
/// keys that come before each other are the same.
pub proof fn lemma_key_le_order(a: Option<Seq<char>>, b: Option<Seq<char>>, c: Option<Seq<char>>)
    ensures
        key_le(a, b) || key_le(b, a),
        key_le(a, b) && key_le(b, c) ==> key_le(a, c),
        key_le(a, b) && key_le(b, a) ==> a == b,
{
    match (a, b) {
        (Some(x), Some(y)) => {
            lemma_bytes_le_total(encode_utf8(x), encode_utf8(y));
            if key_le(a, b) && key_le(b, a) {
                lemma_bytes_le_antisymmetric(encode_utf8(x), encode_utf8(y));
                crate::text::lemma_encoding_injective(x, y);
            }
            match c {
                Some(z) => {
                    if key_le(a, b) && key_le(b, c) {
                        lemma_bytes_le_transitive(encode_utf8(x), encode_utf8(y), encode_utf8(z));
                    }
                },
                None => {},
            }
        },
        _ => {},
    }
}

/// Where a file is inserted: every file before that position has a key that
/// is not greater, every file from it on a key that is greater.
pub proof fn lemma_insert_position(
    sorted: Seq<SearchResultView>,
    file: SearchResultView,
    key: spec_fn(SearchResultView) -> Option<Seq<char>>,
)
    requires
        is_sorted(sorted, key),
    ensures
        0 <= insert_position(sorted, file, key) <= sorted.len(),
        forall|i: int|
            0 <= i < insert_position(sorted, file, key) ==> key_le(
                key(#[trigger] sorted[i]),
                key(file),
            ),
        forall|i: int|
            insert_position(sorted, file, key) <= i < sorted.len() ==> !key_le(
                key(#[trigger] sorted[i]),
                key(file),
            ),
    decreases sorted.len(),
{
    if sorted.len() == 0 {
    } else if key_le(key(sorted.last()), key(file)) {
        assert forall|i: int| 0 <= i < sorted.len() implies key_le(
            key(#[trigger] sorted[i]),
            key(file),
        ) by {
            if i < sorted.len() - 1 {
                assert(key_le(key(sorted[i]), key(sorted[sorted.len() - 1])));
            }
            lemma_key_le_order(key(sorted[i]), key(sorted.last()), key(file));
        }
    } else {
        let rest = sorted.drop_last();
        assert forall|i: int, j: int| 0 <= i < j < rest.len() implies key_le(
            key(rest[i]),
            key(rest[j]),
        ) by {
            assert(key_le(key(sorted[i]), key(sorted[j])));
        }
        lemma_insert_position(rest, file, key);
        let p = insert_position(rest, file, key);
        assert forall|i: int| 0 <= i < p implies key_le(key(#[trigger] sorted[i]), key(file)) by {
            assert(sorted[i] == rest[i]);
        }
        assert forall|i: int| p <= i < sorted.len() implies !key_le(
            key(#[trigger] sorted[i]),
            key(file),
        ) by {
            if i < rest.len() {
                assert(sorted[i] == rest[i]);
            }
        }
    }
}

/// Sorting gives the same files, each as often as before, and their keys never
/// decrease.
pub proof fn lemma_sorted_by(
    files: Seq<SearchResultView>,
    key: spec_fn(SearchResultView) -> Option<Seq<char>>,
)
    ensures
        sorted_by(files, key).len() == files.len(),
        sorted_by(files, key).to_multiset() == files.to_multiset(),
        is_sorted(sorted_by(files, key), key),
    decreases files.len(),
{
    if files.len() > 0 {
        let rest = sorted_by(files.drop_last(), key);
        let file = files.last();
        lemma_sorted_by(files.drop_last(), key);
        lemma_insert_position(rest, file, key);
        let p = insert_position(rest, file, key);
        let out = rest.insert(p, file);
        vstd::seq_lib::to_multiset_insert(rest, p, file);
        vstd::seq_lib::to_multiset_build(files.drop_last(), file);
        assert(files.drop_last().push(file) =~= files);
        assert forall|i: int, j: int| 0 <= i < j < out.len() implies key_le(
            key(out[i]),
            key(out[j]),
        ) by {
            if j < p {
                assert(out[i] == rest[i] && out[j] == rest[j]);
            } else if j == p {
                assert(out[i] == rest[i]);
            } else if i < p {
                assert(out[i] == rest[i] && out[j] == rest[j - 1]);
            } else if i == p {
                assert(out[j] == rest[j - 1]);
                lemma_key_le_order(key(rest[j - 1]), key(file), None);
            } else {
                assert(out[i] == rest[i - 1] && out[j] == rest[j - 1]);
            }
        }
    }
}

/// Whether the text `a` comes before the text `b`, or is the same.
pub fn text_le_exec(a: &str, b: &str) -> (r: bool)
    ensures
        r == text_le(a@, b@),
{
    let x = a.as_bytes();
    let y = b.as_bytes();
    let mut i: usize = 0;
    assert(x@.skip(0) =~= x@ && y@.skip(0) =~= y@);
    while i < x.len() && i < y.len()
        invariant
            i <= x@.len(),
            i <= y@.len(),
            x@ == encode_utf8(a@),
            y@ == encode_utf8(b@),
            bytes_le(x@, y@) == bytes_le(x@.skip(i as int), y@.skip(i as int)),
        decreases x@.len() - i,
    {
        if x[i] != y[i] {
            return x[i] < y[i];
        }
        assert(x@.skip(i as int).drop_first() =~= x@.skip(i + 1));
        assert(y@.skip(i as int).drop_first() =~= y@.skip(i + 1));
        i = i + 1;
    }
    i == x.len()
}

/// Whether the key `a` comes before the key `b`, or is the same.
pub fn key_le_exec(a: Option<&String>, b: Option<&String>) -> (r: bool)
    ensures
        r == key_le(a.deep_view(), b.deep_view()),
{
    match (a, b) {
        (None, _) => true,
        (Some(_), None) => false,
        (Some(x), Some(y)) => text_le_exec(x.as_str(), y.as_str()),
    }
}

/// The value of the first attribute of `result` with the key `key`.
pub fn get_first_attribute<'a>(result: &'a SearchResult, key: &str) -> (value: Option<&'a String>)
    ensures
        value.deep_view() == first_attribute(result@, key@),
{
    let mut i: usize = 0;
    while i < result.attributes.len()
        invariant
            i <= result.attributes.len(),
            forall|j: int| 0 <= j < i ==> attribute_keys(result@.attributes)[j] != key@,
        decreases result.attributes.len() - i,
    {
        if str_eq(result.attributes[i].0.as_str(), key) {
            proof {
                lemma_first_index(attribute_keys(result@.attributes), key@, i as int);
            }
            return Some(&result.attributes[i].1);
        }
        i = i + 1;
    }
    proof {
        lemma_no_index(attribute_keys(result@.attributes), key@);
    }
    None
}

/// The key of `result` that `by` selects.
fn sort_key_of<'a>(result: &'a SearchResult, by: Option<&str>) -> (key: Option<&'a String>)
    ensures
        key.deep_view() == sort_key(by.deep_view())(result@),
{
    match by {
        Some(name) => get_first_attribute(result, name),
        None => Some(&result.path),
    }
}

/// Sorts `results` by the key that `by` selects, keeping files with equal
/// keys in their order.
fn sort_results(results: &mut Vec<SearchResult>, by: Option<&str>)
    ensures
        final(results).deep_view() == sorted_by(old(results).deep_view(), sort_key(by.deep_view())),
{
    let ghost all = results.deep_view();
    let ghost key = sort_key(by.deep_view());
    let mut i: usize = 0;
    proof {
        assert(all.take(0) =~= Seq::<SearchResultView>::empty());
        assert(results.deep_view() =~= sorted_by(all.take(0), key) + all.skip(0));
    }
    while i < results.len()
        invariant
            all == old(results).deep_view(),
            key == sort_key(by.deep_view()),
            i <= results.len(),
            results.len() == all.len(),
            sorted_by(all.take(i as int), key).len() == i,
            results.deep_view() == sorted_by(all.take(i as int), key) + all.skip(i as int),
        decreases results.len() - i,
    {
        let ghost sorted = sorted_by(all.take(i as int), key);
        let ghost file = all[i as int];
        let ghost before = results.deep_view();
        proof {
            assert(before[i as int] == all.skip(i as int)[0]);
            assert(before.take(i as int) =~= sorted);
            assert(all.take(i + 1).drop_last() =~= all.take(i as int));
            assert(all.take(i + 1).last() == file);
            assert(sorted.take(i as int) =~= sorted);
        }
        let mut p: usize = i;
        while p > 0 && !key_le_exec(sort_key_of(&results[p - 1], by), sort_key_of(&results[i], by))
            invariant
                p <= i < results.len(),
                key == sort_key(by.deep_view()),
                results.deep_view() == before,
                before.take(i as int) == sorted,
                before[i as int] == file,
                insert_position(sorted, file, key) == insert_position(
                    sorted.take(p as int),
                    file,
                    key,
                ),
            decreases p,
        {
            proof {
                assert(sorted.take(p as int).last() == before[p - 1]);
                assert(sorted.take(p as int).drop_last() =~= sorted.take(p - 1));
            }
            p = p - 1;
        }
        proof {
            if p > 0 {
                assert(sorted.take(p as int).last() == before[p - 1]);
            }
            assert(insert_position(sorted, file, key) == p);
        }
        if p < i {
            let moved = results.remove(i);
            assert(results.deep_view() =~= before.remove(i as int));
            results.insert(p, moved);
            assert(results.deep_view() =~= before.remove(i as int).insert(p as int, file));
        }
        proof {
            assert(before =~= sorted + all.skip(i as int));
            assert(results.deep_view() =~= sorted.insert(p as int, file) + all.skip(i + 1));
            lemma_sorted_by(all.take(i + 1), key);
        }
        i = i + 1;
    }
    proof {
        assert(all.take(all.len() as int) =~= all);
        assert(results.deep_view() =~= sorted_by(all, key));
    }
}

/// Sorts `results` by path.
pub fn sort_by_path(results: &mut Vec<SearchResult>)
    ensures
        final(results).deep_view() == sorted_by(old(results).deep_view(), path_key()),
{
    sort_results(results, None)
}

/// Sorts `results` by the value of their first attribute with the key `key`.
/// Files without such an attribute come first; files with equal values keep
/// their order.
pub fn sort_by_attribute(results: &mut Vec<SearchResult>, key: &str)
    ensures
        final(results).deep_view() == sorted_by(old(results).deep_view(), attribute_key(key@)),
{
    sort_results(results, Some(key))
}

} // verus!
