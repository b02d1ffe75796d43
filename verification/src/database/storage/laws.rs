//! What holds of the index whatever is written to it.

use super::{allowed_by, insert_value, not_among, pruned_by, DatabaseStorageView, SearchResultView};
use crate::database::config::DatabaseConfigView;
use crate::database::tag::TagView;
use crate::text::{lemma_first_index, lemma_no_index};
use vstd::prelude::*;

verus! {

/// After a value was inserted the sequence holds it, and besides it what it
/// held before.
pub proof fn lemma_insert_value_contains<A>(s: Seq<A>, x: A, y: A)
    ensures
        insert_value(s, x).contains(y) <==> s.contains(y) || y == x,
{
    let t = insert_value(s, x);
    if !s.contains(x) {
        assert(t[s.len() as int] == x);
        if s.contains(y) {
            let i = choose|i: int| 0 <= i < s.len() && s[i] == y;
            assert(t[i] == y);
        }
    }
}

/// Inserting a value keeps a sequence free of duplicates.
pub proof fn lemma_insert_value_no_duplicates<A>(s: Seq<A>, x: A)
    requires
        s.no_duplicates(),
    ensures
        insert_value(s, x).no_duplicates(),
{
}

/// Removing a value from a sequence without duplicates leaves no occurrence
/// of it, and keeps every other value.
pub proof fn lemma_remove_value_no_duplicates<A>(s: Seq<A>, x: A)
    requires
        s.no_duplicates(),
    ensures
        s.remove_value(x).no_duplicates(),
        !s.remove_value(x).contains(x),
        forall|y: A| y != x && s.contains(y) ==> s.remove_value(x).contains(y),
        forall|y: A| s.remove_value(x).contains(y) ==> s.contains(y),
{
    s.index_of_first_ensures(x);
    match s.index_of_first(x) {
        Some(i) => {
            let t = s.remove(i);
            assert forall|y: A| y != x && s.contains(y) implies t.contains(y) by {
                let j = choose|j: int| 0 <= j < s.len() && s[j] == y;
                if j < i {
                    assert(t[j] == y);
                } else {
                    assert(t[j - 1] == y);
                }
            }
        },
        None => {},
    }
}

/// A file stays well formed when a tag or an attribute is written or removed.
pub proof fn lemma_file_wf(file: SearchResultView, key: Seq<char>, value: Seq<char>)
    requires
        file.wf(),
    ensures
        file.add_tag(key).wf(),
        file.add_attribute(key, value).wf(),
        file.remove_tag(key).wf(),
        file.remove_attribute(key, value).wf(),
{
    lemma_insert_value_no_duplicates(file.tags, key);
    lemma_insert_value_no_duplicates(file.attributes, (key, value));
    lemma_remove_value_no_duplicates(file.tags, key);
    lemma_remove_value_no_duplicates(file.attributes, (key, value));
}

/// Where `find` points: at the first file with that path.
pub proof fn lemma_find(s: DatabaseStorageView, path: Seq<char>)
    ensures
        match s.find(path) {
            Some(i) => 0 <= i < s.files.len() && s.files[i].path == path && forall|j: int|
                0 <= j < i ==> s.files[j].path != path,
            None => forall|j: int| 0 <= j < s.files.len() ==> s.files[j].path != path,
        },
{
    s.paths().index_of_first_ensures(path);
    match s.find(path) {
        Some(i) => {
            assert forall|j: int| 0 <= j < i implies s.files[j].path != path by {
                assert(s.paths()[j] == s.files[j].path);
            }
        },
        None => {
            assert forall|j: int| 0 <= j < s.files.len() implies s.files[j].path != path by {
                assert(s.paths()[j] == s.files[j].path);
            }
        },
    }
}

/// A file that stands at `i` and at no earlier position is what `find` gives.
pub proof fn lemma_find_at(s: DatabaseStorageView, path: Seq<char>, i: int)
    requires
        0 <= i < s.files.len(),
        s.files[i].path == path,
        forall|j: int| 0 <= j < i ==> s.files[j].path != path,
    ensures
        s.find(path) == Some(i),
{
    lemma_first_index(s.paths(), path, i);
}

/// A path that no file has is not found.
pub proof fn lemma_find_none(s: DatabaseStorageView, path: Seq<char>)
    requires
        forall|j: int| 0 <= j < s.files.len() ==> s.files[j].path != path,
    ensures
        s.find(path) is None,
{
    lemma_no_index(s.paths(), path);
}

/// Replacing a file by one with the same path moves no file.
pub proof fn lemma_update_keeps_paths(s: DatabaseStorageView, i: int, file: SearchResultView)
    requires
        0 <= i < s.files.len(),
        file.path == s.files[i].path,
    ensures
        (DatabaseStorageView { files: s.files.update(i, file) }).paths() == s.paths(),
{
    assert((DatabaseStorageView { files: s.files.update(i, file) }).paths() =~= s.paths());
}

/// Making a path known keeps the index well formed, and the path is then
/// found.
pub proof fn lemma_create_file_wf(s: DatabaseStorageView, path: Seq<char>)
    ensures
        s.create_file(path).find(path) is Some,
        s.wf() ==> s.create_file(path).wf(),
        s.find(path) is Some ==> s.create_file(path) == s,
{
    lemma_find(s, path);
    if s.find(path) is None {
        let t = s.create_file(path);
        lemma_find_at(t, path, s.files.len() as int);
        if s.wf() {
            assert(t.paths() =~= s.paths().push(path));
            assert(SearchResultView::empty(path).wf());
        }
    }
}

/// Writing a tag keeps the index well formed.
pub proof fn lemma_add_tag_wf(s: DatabaseStorageView, path: Seq<char>, tag: Seq<char>)
    requires
        s.wf(),
    ensures
        s.add_tag(path, tag).wf(),
{
    lemma_create_file_wf(s, path);
    let known = s.create_file(path);
    lemma_find(known, path);
    let i = known.find(path).unwrap();
    lemma_file_wf(known.files[i], tag, tag);
    lemma_update_keeps_paths(known, i, known.files[i].add_tag(tag));
}

/// Writing an attribute keeps the index well formed.
pub proof fn lemma_add_attribute_wf(
    s: DatabaseStorageView,
    path: Seq<char>,
    key: Seq<char>,
    value: Seq<char>,
)
    requires
        s.wf(),
    ensures
        s.add_attribute(path, key, value).wf(),
{
    lemma_create_file_wf(s, path);
    let known = s.create_file(path);
    lemma_find(known, path);
    let i = known.find(path).unwrap();
    lemma_file_wf(known.files[i], key, value);
    lemma_update_keeps_paths(known, i, known.files[i].add_attribute(key, value));
}

/// Removing a tag or an attribute keeps the index well formed.
pub proof fn lemma_remove_tag_wf(s: DatabaseStorageView, path: Seq<char>, tag: TagView)
    requires
        s.wf(),
    ensures
        s.remove_tag(path, tag).wf(),
{
    lemma_find(s, path);
    match s.find(path) {
        Some(i) => {
            match tag {
                TagView::Key(key) => lemma_file_wf(s.files[i], key, key),
                TagView::KeyValue { key, value } => lemma_file_wf(s.files[i], key, value),
            }
            lemma_update_keeps_paths(s, i, s.files[i].remove(tag));
        },
        None => {},
    }
}

/// Removing a file keeps the index well formed, and the file is then unknown.
pub proof fn lemma_remove_file_wf(s: DatabaseStorageView, path: Seq<char>)
    requires
        s.wf(),
    ensures
        s.remove_file(path).wf(),
        s.remove_file(path).find(path) is None,
{
    lemma_find(s, path);
    let t = s.remove_file(path);
    match s.find(path) {
        Some(i) => {
            assert(t.paths() =~= s.paths().remove(i));
            assert forall|j: int| 0 <= j < t.files.len() implies t.files[j].path != path by {
                if j < i {
                } else {
                    assert(s.paths()[j + 1] == t.files[j].path);
                    assert(s.paths()[i] == path);
                }
            }
            lemma_find_none(t, path);
        },
        None => {},
    }
}

/// Removing one file leaves every other file known.
pub proof fn lemma_remove_file_keeps(s: DatabaseStorageView, removed: Seq<char>, kept: Seq<char>)
    requires
        removed != kept,
    ensures
        s.remove_file(removed).get_file(kept) == s.get_file(kept),
{
    lemma_find(s, removed);
    lemma_find(s, kept);
    let t = s.remove_file(removed);
    match s.find(removed) {
        Some(i) => {
            match s.find(kept) {
                Some(k) => {
                    if k < i {
                        lemma_find_at(t, kept, k);
                    } else {
                        lemma_find_at(t, kept, k - 1);
                    }
                },
                None => {
                    lemma_find_none(t, kept);
                },
            }
        },
        None => {},
    }
}

/// Renaming a file keeps the index well formed.
pub proof fn lemma_move_file_wf(s: DatabaseStorageView, old_path: Seq<char>, new: Seq<char>)
    requires
        s.wf(),
    ensures
        s.move_file(old_path, new).wf(),
{
    if s.find(old_path) is Some && old_path != new {
        lemma_remove_file_wf(s, new);
        lemma_remove_file_keeps(s, new, old_path);
        let rest = s.remove_file(new);
        lemma_find(rest, old_path);
        lemma_find(rest, new);
        let i = rest.find(old_path).unwrap();
        let t = s.move_file(old_path, new);
        assert(t.paths() =~= rest.paths().update(i, new));
        assert forall|a: int, b: int| 0 <= a < b < t.paths().len() implies t.paths()[a]
            != t.paths()[b] by {
            assert(rest.paths()[a] == rest.files[a].path);
            assert(rest.paths()[b] == rest.files[b].path);
        }
    }
}

/// What filtering keeps of a sequence: each value that is kept stood in the
/// sequence and passes the test, values keep their order, and where the keys
/// of the values were all different they still are.
pub proof fn lemma_filter_keys<A, B>(s: Seq<A>, keep: spec_fn(A) -> bool, key: spec_fn(A) -> B)
    ensures
        forall|i: int| 0 <= i < s.filter(keep).len() ==> keep(#[trigger] s.filter(keep)[i]),
        forall|i: int|
            0 <= i < s.filter(keep).len() ==> s.contains(#[trigger] s.filter(keep)[i]),
        forall|i: int| 0 <= i < s.len() && keep(s[i]) ==> s.filter(keep).contains(#[trigger] s[i]),
        s.map_values(key).no_duplicates() ==> s.filter(keep).map_values(key).no_duplicates(),
    decreases s.len(),
{
    reveal(Seq::filter);
    let out = s.filter(keep);
    if s.len() > 0 {
        let rest = s.drop_last();
        let sub = rest.filter(keep);
        lemma_filter_keys(rest, keep, key);
        assert forall|i: int| 0 <= i < out.len() implies keep(#[trigger] out[i]) && s.contains(
            out[i],
        ) by {
            if i < sub.len() {
                assert(out[i] == sub[i]);
                assert(rest.contains(sub[i]));
                let j = choose|j: int| 0 <= j < rest.len() && rest[j] == sub[i];
                assert(s[j] == out[i]);
            } else {
                assert(out[i] == s[s.len() - 1]);
            }
        }
        assert forall|i: int| 0 <= i < s.len() && keep(s[i]) implies out.contains(
            #[trigger] s[i],
        ) by {
            if i < s.len() - 1 {
                assert(rest[i] == s[i]);
                assert(sub.contains(rest[i]));
                let j = choose|j: int| 0 <= j < sub.len() && sub[j] == s[i];
                assert(out[j] == s[i]);
            } else {
                assert(out[out.len() - 1] == s[i]);
            }
        }
        if s.map_values(key).no_duplicates() {
            assert forall|a: int, b: int| 0 <= a < b < rest.len() implies rest.map_values(key)[a]
                != rest.map_values(key)[b] by {
                assert(s.map_values(key)[a] != s.map_values(key)[b]);
            }
            assert forall|a: int, b: int| 0 <= a < b < out.len() implies out.map_values(key)[a]
                != out.map_values(key)[b] by {
                if b < sub.len() {
                    assert(sub.map_values(key)[a] != sub.map_values(key)[b]);
                } else {
                    assert(out[a] == sub[a]);
                    assert(rest.contains(sub[a]));
                    let j = choose|j: int| 0 <= j < rest.len() && rest[j] == sub[a];
                    assert(s.map_values(key)[j] != s.map_values(key)[s.len() - 1]);
                }
            }
        }
    }
}

/// Filtering keeps a sequence free of duplicates.
pub proof fn lemma_filter_no_duplicates<A>(s: Seq<A>, keep: spec_fn(A) -> bool)
    requires
        s.no_duplicates(),
    ensures
        s.filter(keep).no_duplicates(),
{
    let same = |x: A| x;
    assert(s.map_values(same) =~= s);
    lemma_filter_keys(s, keep, same);
    assert(s.filter(keep).map_values(same) =~= s.filter(keep));
}

/// Removing the files of some paths keeps the index well formed.
pub proof fn lemma_without_wf(s: DatabaseStorageView, missing: Seq<Seq<char>>)
    requires
        s.wf(),
    ensures
        s.without(missing).wf(),
{
    let path_of = |file: SearchResultView| file.path;
    lemma_filter_keys(s.files, not_among(missing), path_of);
    let t = s.without(missing);
    assert forall|i: int| 0 <= i < t.files.len() implies (#[trigger] t.files[i]).wf() by {
        assert(s.files.contains(t.files[i]));
    }
}

/// Taking the tags that are not allowed keeps the index well formed.
pub proof fn lemma_retain_tags_wf(s: DatabaseStorageView, config: DatabaseConfigView)
    requires
        s.wf(),
    ensures
        s.retain_tags(config).wf(),
{
    let t = s.retain_tags(config);
    assert(t.paths() =~= s.paths());
    assert forall|i: int| 0 <= i < t.files.len() implies (#[trigger] t.files[i]).wf() by {
        assert(s.files[i].wf());
        lemma_filter_no_duplicates(s.files[i].tags, allowed_by(config));
    }
}

/// Writing a tag that was written before changes nothing: once is as good as
/// twice.
pub proof fn lemma_add_tag_idempotent(s: DatabaseStorageView, path: Seq<char>, tag: Seq<char>)
    ensures
        s.add_tag(path, tag).add_tag(path, tag) == s.add_tag(path, tag),
{
    lemma_create_file_wf(s, path);
    let known = s.create_file(path);
    lemma_find(known, path);
    let i = known.find(path).unwrap();
    let once = s.add_tag(path, tag);
    lemma_update_keeps_paths(known, i, known.files[i].add_tag(tag));
    assert(once.find(path) == Some(i));
    assert(once.create_file(path) == once);
    if !known.files[i].tags.contains(tag) {
        assert(once.files[i].tags[known.files[i].tags.len() as int] == tag);
    }
    assert(once.files[i].add_tag(tag) == once.files[i]);
    assert(once.files.update(i, once.files[i]) =~= once.files);
}

/// Writing an attribute that was written before, with the same key and the
/// same value, changes nothing.
pub proof fn lemma_add_attribute_idempotent(
    s: DatabaseStorageView,
    path: Seq<char>,
    key: Seq<char>,
    value: Seq<char>,
)
    ensures
        s.add_attribute(path, key, value).add_attribute(path, key, value) == s.add_attribute(
            path,
            key,
            value,
        ),
{
    lemma_create_file_wf(s, path);
    let known = s.create_file(path);
    lemma_find(known, path);
    let i = known.find(path).unwrap();
    let once = s.add_attribute(path, key, value);
    lemma_update_keeps_paths(known, i, known.files[i].add_attribute(key, value));
    assert(once.find(path) == Some(i));
    assert(once.create_file(path) == once);
    if !known.files[i].attributes.contains((key, value)) {
        assert(once.files[i].attributes[known.files[i].attributes.len() as int] == (key, value));
    }
    assert(once.files[i].add_attribute(key, value) == once.files[i]);
    assert(once.files.update(i, once.files[i]) =~= once.files);
}

/// After a tag was written for a path, the file of that path is known and
/// carries the tag.
pub proof fn lemma_add_tag_then_get(s: DatabaseStorageView, path: Seq<char>, tag: Seq<char>)
    ensures
        s.add_tag(path, tag).get_file(path) matches Some(file) && file.path == path
            && file.tags.contains(tag),
{
    lemma_create_file_wf(s, path);
    let known = s.create_file(path);
    lemma_find(known, path);
    let i = known.find(path).unwrap();
    lemma_update_keeps_paths(known, i, known.files[i].add_tag(tag));
    let file = known.files[i].add_tag(tag);
    if !known.files[i].tags.contains(tag) {
        assert(file.tags[known.files[i].tags.len() as int] == tag);
    }
}

/// After an attribute was written for a path, the file of that path is known
/// and carries the attribute.
pub proof fn lemma_add_attribute_then_get(
    s: DatabaseStorageView,
    path: Seq<char>,
    key: Seq<char>,
    value: Seq<char>,
)
    ensures
        s.add_attribute(path, key, value).get_file(path) matches Some(file) && file.path == path
            && file.attributes.contains((key, value)),
{
    lemma_create_file_wf(s, path);
    let known = s.create_file(path);
    lemma_find(known, path);
    let i = known.find(path).unwrap();
    lemma_update_keeps_paths(known, i, known.files[i].add_attribute(key, value));
    let file = known.files[i].add_attribute(key, value);
    if !known.files[i].attributes.contains((key, value)) {
        assert(file.attributes[known.files[i].attributes.len() as int] == (key, value));
    }
}

/// After a tag was taken from a path, the file of that path, which is known
/// exactly if it was known before, does not carry the tag.
pub proof fn lemma_remove_tag_then_get(s: DatabaseStorageView, path: Seq<char>, tag: Seq<char>)
    requires
        s.wf(),
    ensures
        s.remove_tag(path, TagView::Key(tag)).get_file(path) is Some == s.get_file(path) is Some,
        s.remove_tag(path, TagView::Key(tag)).get_file(path) matches Some(file)
            ==> !file.tags.contains(tag),
{
    lemma_find(s, path);
    match s.find(path) {
        Some(i) => {
            lemma_update_keeps_paths(s, i, s.files[i].remove(TagView::Key(tag)));
            lemma_remove_value_no_duplicates(s.files[i].tags, tag);
        },
        None => {},
    }
}

/// After an attribute was taken from a path, the file of that path, which is
/// known exactly if it was known before, does not carry the attribute.
pub proof fn lemma_remove_attribute_then_get(
    s: DatabaseStorageView,
    path: Seq<char>,
    key: Seq<char>,
    value: Seq<char>,
)
    requires
        s.wf(),
    ensures
        s.remove_tag(path, TagView::KeyValue { key, value }).get_file(path) is Some == s.get_file(
            path,
        ) is Some,
        s.remove_tag(path, TagView::KeyValue { key, value }).get_file(path) matches Some(file)
            ==> !file.attributes.contains((key, value)),
{
    lemma_find(s, path);
    match s.find(path) {
        Some(i) => {
            lemma_update_keeps_paths(s, i, s.files[i].remove(TagView::KeyValue { key, value }));
            lemma_remove_value_no_duplicates(s.files[i].attributes, (key, value));
        },
        None => {},
    }
}

/// After a known file was renamed, it is no longer known under its old path,
/// and under its new path it has the tags and attributes it had before.
pub proof fn lemma_move_file_then_get(s: DatabaseStorageView, old_path: Seq<char>, new: Seq<char>)
    requires
        s.wf(),
        s.find(old_path) is Some,
        old_path != new,
    ensures
        s.move_file(old_path, new).get_file(old_path) is None,
        s.move_file(old_path, new).get_file(new) == Some(
            s.get_file(old_path).unwrap().renamed(new),
        ),
{
    lemma_remove_file_wf(s, new);
    lemma_remove_file_keeps(s, new, old_path);
    let rest = s.remove_file(new);
    lemma_find(rest, old_path);
    lemma_find(rest, new);
    let i = rest.find(old_path).unwrap();
    let moved = s.move_file(old_path, new);
    assert forall|j: int| 0 <= j < moved.files.len() implies moved.files[j].path != old_path by {
        if j != i {
            assert(rest.paths()[j] == rest.files[j].path);
            assert(rest.paths()[i] == rest.files[i].path);
        }
    }
    lemma_find_none(moved, old_path);
    lemma_find_at(moved, new, i);
}

/// What writing a tag does to the files: the file of that path has the tag
/// besides all it had, and no other file has changed.
pub proof fn lemma_add_tag_get(
    s: DatabaseStorageView,
    path: Seq<char>,
    tag: Seq<char>,
    other: Seq<char>,
)
    ensures
        s.add_tag(path, tag).get_file(path) == Some(s.file_or_empty(path).add_tag(tag)),
        other != path ==> s.add_tag(path, tag).get_file(other) == s.get_file(other),
{
    lemma_create_file_get(s, path, other);
    let known = s.create_file(path);
    lemma_find(known, path);
    lemma_find(known, other);
    let i = known.find(path).unwrap();
    lemma_update_keeps_paths(known, i, known.files[i].add_tag(tag));
}

/// What writing an attribute does to the files: the file of that path has
/// the attribute besides all it had, and no other file has changed.
pub proof fn lemma_add_attribute_get(
    s: DatabaseStorageView,
    path: Seq<char>,
    key: Seq<char>,
    value: Seq<char>,
    other: Seq<char>,
)
    ensures
        s.add_attribute(path, key, value).get_file(path) == Some(
            s.file_or_empty(path).add_attribute(key, value),
        ),
        other != path ==> s.add_attribute(path, key, value).get_file(other) == s.get_file(other),
{
    lemma_create_file_get(s, path, other);
    let known = s.create_file(path);
    lemma_find(known, path);
    lemma_find(known, other);
    let i = known.find(path).unwrap();
    lemma_update_keeps_paths(known, i, known.files[i].add_attribute(key, value));
}

/// What making a path known does to the files: the file of that path is as
/// it was, or new and empty, and no other file has changed.
pub proof fn lemma_create_file_get(s: DatabaseStorageView, path: Seq<char>, other: Seq<char>)
    ensures
        s.create_file(path).get_file(path) == Some(s.file_or_empty(path)),
        other != path ==> s.create_file(path).get_file(other) == s.get_file(other),
{
    lemma_find(s, path);
    lemma_find(s, other);
    let known = s.create_file(path);
    if s.find(path) is None {
        lemma_find_at(known, path, s.files.len() as int);
        match s.find(other) {
            Some(k) => {
                if other != path {
                    lemma_find_at(known, other, k);
                }
            },
            None => {
                if other != path {
                    lemma_find_none(known, other);
                }
            },
        }
    }
}

/// What removing a tag or an attribute does to the files: the file of that
/// path, if it is known, has lost it, and no other file has changed.
pub proof fn lemma_remove_tag_get(
    s: DatabaseStorageView,
    path: Seq<char>,
    tag: TagView,
    other: Seq<char>,
)
    ensures
        s.remove_tag(path, tag).get_file(path) == match s.get_file(path) {
            Some(file) => Some(file.remove(tag)),
            None => None,
        },
        other != path ==> s.remove_tag(path, tag).get_file(other) == s.get_file(other),
{
    lemma_find(s, path);
    lemma_find(s, other);
    match s.find(path) {
        Some(i) => {
            lemma_update_keeps_paths(s, i, s.files[i].remove(tag));
        },
        None => {},
    }
}

/// Writing tags that a file does not carry yet, each once, puts them behind
/// the tags it has, in their order, and changes nothing else.
pub proof fn lemma_add_fresh_tags(s: DatabaseStorageView, path: Seq<char>, tags: Seq<Seq<char>>)
    requires
        s.find(path) is Some,
        (s.files[s.find(path).unwrap()].tags + tags).no_duplicates(),
    ensures
        s.add_tags(path, tags).files == s.files.update(
            s.find(path).unwrap(),
            SearchResultView {
                tags: s.files[s.find(path).unwrap()].tags + tags,
                ..s.files[s.find(path).unwrap()]
            },
        ),
        s.add_tags(path, tags).find(path) == s.find(path),
    decreases tags.len(),
{
    lemma_find(s, path);
    let i = s.find(path).unwrap();
    let had = s.files[i].tags;
    if tags.len() == 0 {
        assert(had + tags =~= had);
        assert(s.files.update(i, s.files[i]) =~= s.files);
    } else {
        let rest = tags.drop_last();
        let whole = had + tags;
        assert forall|a: int, b: int| 0 <= a < b < (had + rest).len() implies (had + rest)[a] != (
        had + rest)[b] by {
            assert((had + rest)[a] == whole[a] && (had + rest)[b] == whole[b]);
        }
        lemma_add_fresh_tags(s, path, rest);
        let before = s.add_tags(path, rest);
        lemma_create_file_wf(before, path);
        assert(before.files[i].tags == had + rest);
        assert(!(had + rest).contains(tags.last())) by {
            if (had + rest).contains(tags.last()) {
                let a = choose|a: int| 0 <= a < (had + rest).len() && (had + rest)[a] == tags.last();
                assert(whole[a] == whole[whole.len() - 1]);
            }
        }
        assert((had + rest).push(tags.last()) =~= whole);
        lemma_update_keeps_paths(before, i, before.files[i].add_tag(tags.last()));
        assert(s.add_tags(path, tags).files =~= s.files.update(
            i,
            SearchResultView { tags: whole, ..s.files[i] },
        ));
    }
}

/// Writing attributes that a file does not carry yet, each once, puts them
/// behind the attributes it has, in their order, and changes nothing else.
pub proof fn lemma_add_fresh_attributes(
    s: DatabaseStorageView,
    path: Seq<char>,
    attributes: Seq<(Seq<char>, Seq<char>)>,
)
    requires
        s.find(path) is Some,
        (s.files[s.find(path).unwrap()].attributes + attributes).no_duplicates(),
    ensures
        s.add_attributes(path, attributes).files == s.files.update(
            s.find(path).unwrap(),
            SearchResultView {
                attributes: s.files[s.find(path).unwrap()].attributes + attributes,
                ..s.files[s.find(path).unwrap()]
            },
        ),
        s.add_attributes(path, attributes).find(path) == s.find(path),
    decreases attributes.len(),
{
    lemma_find(s, path);
    let i = s.find(path).unwrap();
    let had = s.files[i].attributes;
    if attributes.len() == 0 {
        assert(had + attributes =~= had);
        assert(s.files.update(i, s.files[i]) =~= s.files);
    } else {
        let rest = attributes.drop_last();
        let whole = had + attributes;
        assert forall|a: int, b: int| 0 <= a < b < (had + rest).len() implies (had + rest)[a] != (
        had + rest)[b] by {
            assert((had + rest)[a] == whole[a] && (had + rest)[b] == whole[b]);
        }
        lemma_add_fresh_attributes(s, path, rest);
        let before = s.add_attributes(path, rest);
        lemma_create_file_wf(before, path);
        assert(before.files[i].attributes == had + rest);
        assert(!(had + rest).contains(attributes.last())) by {
            if (had + rest).contains(attributes.last()) {
                let a = choose|a: int|
                    0 <= a < (had + rest).len() && (had + rest)[a] == attributes.last();
                assert(whole[a] == whole[whole.len() - 1]);
            }
        }
        assert((had + rest).push(attributes.last()) =~= whole);
        lemma_update_keeps_paths(
            before,
            i,
            before.files[i].add_attribute(attributes.last().0, attributes.last().1),
        );
        assert(s.add_attributes(path, attributes).files =~= s.files.update(
            i,
            SearchResultView { attributes: whole, ..s.files[i] },
        ));
    }
}

/// Loading the files of a well formed index gives that index again: what
/// `get_all_files` hands out is all it takes to restore the index.
pub proof fn lemma_load_restores(s: DatabaseStorageView)
    requires
        s.wf(),
    ensures
        DatabaseStorageView::loaded(s.files) == s,
    decreases s.files.len(),
{
    if s.files.len() == 0 {
        assert(s.files =~= Seq::<SearchResultView>::empty());
    } else {
        let rest = DatabaseStorageView { files: s.files.drop_last() };
        let file = s.files.last();
        let n = rest.files.len() as int;
        assert(rest.paths() =~= s.paths().drop_last());
        assert(rest.wf()) by {
            assert forall|i: int| 0 <= i < rest.files.len() implies (#[trigger] rest.files[i]).wf() by {
                assert(rest.files[i] == s.files[i]);
            }
        }
        lemma_load_restores(rest);
        assert forall|j: int| 0 <= j < rest.files.len() implies rest.files[j].path
            != file.path by {
            assert(s.paths()[j] == rest.files[j].path);
            assert(s.paths()[n] == file.path);
        }
        lemma_find_none(rest, file.path);
        let known = rest.create_file(file.path);
        lemma_find_at(known, file.path, n);
        assert(file.wf());
        assert(known.files[n].tags + file.tags =~= file.tags);
        lemma_add_fresh_tags(known, file.path, file.tags);
        let tagged = known.add_tags(file.path, file.tags);
        assert(tagged.files[n].attributes + file.attributes =~= file.attributes);
        lemma_add_fresh_attributes(tagged, file.path, file.attributes);
        assert(rest.add_file(file).files =~= s.files);
    }
}

} // verus!
