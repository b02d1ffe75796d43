//! What holds of a database whatever is done with it.

use super::config::DatabaseConfigView;
use super::storage::laws::{
    lemma_add_attribute_get, lemma_add_tag_get, lemma_filter_keys, lemma_find, lemma_find_at,
    lemma_find_none, lemma_insert_value_contains, lemma_remove_tag_get, lemma_remove_tag_wf,
    lemma_remove_value_no_duplicates, lemma_retain_tags_wf, lemma_without_wf,
};
use super::sorting::{is_sorted, lemma_sorted_by, path_key};
use super::storage::{allowed_by, matching, not_among, DatabaseStorageView, SearchResultView};
use crate::search::parser::ExpressionView;
use super::tag::{classify, first_colon, TagView};
use super::{erase_tags, write_tag, write_tags, DatabaseView};
use vstd::prelude::*;

verus! {

/// Whether the policy `config` lets the text `raw` be written as a tag: it
/// allows it, and the text holds no `:`.
pub open spec fn writes_tag(config: DatabaseConfigView, raw: Seq<char>) -> bool {
    config.allows(raw) && first_colon(raw) is None
}

/// What writing one text does to the tags of the file: the file carries a tag
/// afterwards exactly if it carried it before or the tag was written now.
pub proof fn lemma_write_tag_effect(
    s: DatabaseStorageView,
    config: DatabaseConfigView,
    path: Seq<char>,
    raw: Seq<char>,
    tag: Seq<char>,
)
    ensures
        write_tag(s, config, path, raw).has_tag(path, tag) <==> s.has_tag(path, tag) || (tag == raw
            && writes_tag(config, raw)),
{
    if config.allows(raw) {
        match classify(raw) {
            TagView::Key(key) => {
                lemma_add_tag_get(s, path, key, path);
                lemma_insert_value_contains(s.file_or_empty(path).tags, key, tag);
            },
            TagView::KeyValue { key, value } => {
                lemma_add_attribute_get(s, path, key, value, path);
            },
        }
    }
}

/// Writing for one file changes no other file.
pub proof fn lemma_write_tags_frame(
    s: DatabaseStorageView,
    config: DatabaseConfigView,
    path: Seq<char>,
    raws: Seq<Seq<char>>,
    other: Seq<char>,
)
    requires
        other != path,
    ensures
        write_tags(s, config, path, raws).get_file(other) == s.get_file(other),
    decreases raws.len(),
{
    if raws.len() > 0 {
        lemma_write_tags_frame(s, config, path, raws.drop_last(), other);
        let before = write_tags(s, config, path, raws.drop_last());
        let raw = raws.last();
        if config.allows(raw) {
            match classify(raw) {
                TagView::Key(key) => {
                    lemma_add_tag_get(before, path, key, other);
                },
                TagView::KeyValue { key, value } => {
                    lemma_add_attribute_get(before, path, key, value, other);
                },
            }
        }
    }
}

/// What writing a list of texts does to the tags of the file: the file
/// carries a tag afterwards exactly if it carried it before or the tag is in
/// the list and the policy lets it be written.
pub proof fn lemma_write_tags_effect(
    s: DatabaseStorageView,
    config: DatabaseConfigView,
    path: Seq<char>,
    raws: Seq<Seq<char>>,
    tag: Seq<char>,
)
    ensures
        write_tags(s, config, path, raws).has_tag(path, tag) <==> s.has_tag(path, tag) || (
        raws.contains(tag) && writes_tag(config, tag)),
    decreases raws.len(),
{
    if raws.len() > 0 {
        let rest = raws.drop_last();
        lemma_write_tags_effect(s, config, path, rest, tag);
        lemma_write_tag_effect(write_tags(s, config, path, rest), config, path, raws.last(), tag);
        if rest.contains(tag) {
            let i = choose|i: int| 0 <= i < rest.len() && rest[i] == tag;
            assert(raws[i] == tag);
        }
        if raws.contains(tag) {
            let i = choose|i: int| 0 <= i < raws.len() && raws[i] == tag;
            if i < rest.len() {
                assert(rest[i] == tag);
            }
        }
        assert(raws[raws.len() - 1] == raws.last());
    }
}

/// What writing one text does to the attributes of the file: the file
/// carries an attribute afterwards exactly if it carried it before or the
/// attribute was written now.
pub proof fn lemma_write_tag_attribute_effect(
    s: DatabaseStorageView,
    config: DatabaseConfigView,
    path: Seq<char>,
    raw: Seq<char>,
    key: Seq<char>,
    value: Seq<char>,
)
    ensures
        write_tag(s, config, path, raw).has_attribute(path, key, value) <==> s.has_attribute(
            path,
            key,
            value,
        ) || (config.allows(raw) && classify(raw) == (TagView::KeyValue { key, value })),
{
    if config.allows(raw) {
        match classify(raw) {
            TagView::Key(tag) => {
                lemma_add_tag_get(s, path, tag, path);
            },
            TagView::KeyValue { key: k, value: v } => {
                lemma_add_attribute_get(s, path, k, v, path);
                lemma_insert_value_contains(s.file_or_empty(path).attributes, (k, v), (key, value));
            },
        }
    }
}

/// Writing a text that the file carries already changes nothing.
pub proof fn lemma_write_tag_absorbed(
    s: DatabaseStorageView,
    config: DatabaseConfigView,
    path: Seq<char>,
    raw: Seq<char>,
)
    requires
        config.allows(raw) ==> match classify(raw) {
            TagView::Key(tag) => s.has_tag(path, tag),
            TagView::KeyValue { key, value } => s.has_attribute(path, key, value),
        },
    ensures
        write_tag(s, config, path, raw) == s,
{
    if config.allows(raw) {
        lemma_find(s, path);
        let i = s.find(path).unwrap();
        assert(s.files.update(i, s.files[i]) =~= s.files);
    }
}

/// After a list of texts was written for a file, the file carries each of
/// them that the policy allows, whatever else is written for it later.
pub proof fn lemma_write_tags_carried(
    s: DatabaseStorageView,
    config: DatabaseConfigView,
    path: Seq<char>,
    raws: Seq<Seq<char>>,
    i: int,
)
    requires
        0 <= i < raws.len(),
        config.allows(raws[i]),
    ensures
        match classify(raws[i]) {
            TagView::Key(tag) => write_tags(s, config, path, raws).has_tag(path, tag),
            TagView::KeyValue { key, value } => write_tags(s, config, path, raws).has_attribute(
                path,
                key,
                value,
            ),
        },
    decreases raws.len(),
{
    let rest = raws.drop_last();
    let before = write_tags(s, config, path, rest);
    if i < raws.len() - 1 {
        lemma_write_tags_carried(s, config, path, rest, i);
    }
    match classify(raws[i]) {
        TagView::Key(tag) => {
            lemma_write_tag_effect(before, config, path, raws.last(), tag);
            super::tag::lemma_classify_keeps_text(raws[i]);
        },
        TagView::KeyValue { key, value } => {
            lemma_write_tag_attribute_effect(before, config, path, raws.last(), key, value);
        },
    }
}

/// Writing a list of texts that the file carries already, as far as the
/// policy allows them, changes nothing.
pub proof fn lemma_write_tags_absorbed(
    s: DatabaseStorageView,
    config: DatabaseConfigView,
    path: Seq<char>,
    raws: Seq<Seq<char>>,
)
    requires
        forall|i: int|
            0 <= i < raws.len() && config.allows(#[trigger] raws[i]) ==> match classify(raws[i]) {
                TagView::Key(tag) => s.has_tag(path, tag),
                TagView::KeyValue { key, value } => s.has_attribute(path, key, value),
            },
    ensures
        write_tags(s, config, path, raws) == s,
    decreases raws.len(),
{
    if raws.len() > 0 {
        let rest = raws.drop_last();
        assert forall|i: int| 0 <= i < rest.len() && config.allows(#[trigger] rest[i]) implies match classify(
            rest[i],
        ) {
            TagView::Key(tag) => s.has_tag(path, tag),
            TagView::KeyValue { key, value } => s.has_attribute(path, key, value),
        } by {
            assert(rest[i] == raws[i]);
        }
        lemma_write_tags_absorbed(s, config, path, rest);
        assert(raws.last() == raws[raws.len() - 1]);
        lemma_write_tag_absorbed(s, config, path, raws.last());
    }
}

/// Adding a tag to a file a second time changes nothing: once is as good as
/// twice, for a plain tag, an attribute and an alias alike.
pub proof fn lemma_add_tag_idempotent(db: DatabaseView, path: Seq<char>, tag: Seq<char>)
    ensures
        db.add_tag(path, tag).add_tag(path, tag) == db.add_tag(path, tag),
{
    let raws = db.config.expand(tag);
    let once = write_tags(db.storage, db.config, path, raws);
    assert forall|i: int| 0 <= i < raws.len() && db.config.allows(#[trigger] raws[i]) implies match classify(
        raws[i],
    ) {
        TagView::Key(tag) => once.has_tag(path, tag),
        TagView::KeyValue { key, value } => once.has_attribute(path, key, value),
    } by {
        lemma_write_tags_carried(db.storage, db.config, path, raws, i);
    }
    lemma_write_tags_absorbed(once, db.config, path, raws);
}

/// What a search finds: the files of the index that match the query, each
/// once for each time it is known, in the order of their paths.
pub proof fn lemma_search(db: DatabaseView, query: ExpressionView, file: SearchResultView)
    ensures
        is_sorted(db.search(query), path_key()),
        db.search(query).contains(file) <==> db.storage.files.contains(file) && file.matches(query),
{
    let found = db.storage.search(query);
    let same = |f: SearchResultView| f;
    lemma_sorted_by(found, path_key());
    lemma_filter_keys(db.storage.files, matching(query), same);
    vstd::seq_lib::to_multiset_contains(found, file);
    vstd::seq_lib::to_multiset_contains(db.search(query), file);
    if found.contains(file) {
        let i = choose|i: int| 0 <= i < found.len() && found[i] == file;
        assert(db.storage.files.contains(found[i]));
        assert(matching(query)(found[i]));
    }
    if db.storage.files.contains(file) && file.matches(query) {
        let i = choose|i: int| 0 <= i < db.storage.files.len() && db.storage.files[i] == file;
        assert(matching(query)(db.storage.files[i]));
        assert(found.contains(db.storage.files[i]));
    }
}

/// An alias is written as the tags it stands for: after `alias` was added to
/// a file, the file carries, besides the tags it had, those tags of the alias
/// that the policy lets be written, and no other. The name of the alias is
/// among them only if it is one of its own tags.
pub proof fn lemma_add_alias(
    db: DatabaseView,
    path: Seq<char>,
    alias: Seq<char>,
    tags: Seq<Seq<char>>,
    tag: Seq<char>,
)
    requires
        db.config.alias(alias) == Some(tags),
    ensures
        db.add_tag(path, alias).storage.has_tag(path, tag) <==> db.storage.has_tag(path, tag) || (
        tags.contains(tag) && writes_tag(db.config, tag)),
{
    lemma_write_tags_effect(db.storage, db.config, path, tags, tag);
}

/// A text that is no alias is written as it stands: after it was added to a
/// file, the file carries it as a tag if the policy lets it be written, and
/// besides it the tags it had.
pub proof fn lemma_add_plain_tag(db: DatabaseView, path: Seq<char>, raw: Seq<char>, tag: Seq<char>)
    requires
        db.config.alias(raw) is None,
    ensures
        db.add_tag(path, raw).storage.has_tag(path, tag) <==> db.storage.has_tag(path, tag) || (tag
            == raw && writes_tag(db.config, raw)),
{
    lemma_write_tags_effect(db.storage, db.config, path, seq![raw], tag);
    assert(seq![raw][0] == raw);
}

/// A tag that the policy does not allow is never written: whatever is added
/// to a file, the file carries such a tag afterwards only if it carried it
/// before.
pub proof fn lemma_disallowed_tag_never_written(
    db: DatabaseView,
    path: Seq<char>,
    added: Seq<char>,
    tag: Seq<char>,
)
    requires
        !db.config.allows(tag),
    ensures
        db.add_tag(path, added).storage.has_tag(path, tag) == db.storage.has_tag(path, tag),
{
    lemma_write_tags_effect(db.storage, db.config, path, db.config.expand(added), tag);
}

/// Adding a text that is no alias and that the policy does not allow changes
/// nothing at all.
pub proof fn lemma_disallowed_tag_rejected(db: DatabaseView, path: Seq<char>, raw: Seq<char>)
    requires
        db.config.alias(raw) is None,
        !db.config.allows(raw),
    ensures
        db.add_tag(path, raw) == db,
{
    let raws = seq![raw];
    assert(raws.drop_last() =~= Seq::<Seq<char>>::empty());
    assert(raws.last() == raw);
    assert(write_tags(db.storage, db.config, path, raws.drop_last()) == db.storage);
}

/// What removing a list of texts does to the tags of the file: the file
/// carries a tag afterwards exactly if it carried it before and the tag is
/// not in the list. Whether the file is known does not change.
pub proof fn lemma_erase_tags_effect(
    s: DatabaseStorageView,
    path: Seq<char>,
    raws: Seq<Seq<char>>,
    tag: Seq<char>,
)
    requires
        s.wf(),
    ensures
        erase_tags(s, path, raws).wf(),
        erase_tags(s, path, raws).get_file(path) is Some == s.get_file(path) is Some,
        erase_tags(s, path, raws).has_tag(path, tag) <==> s.has_tag(path, tag) && !(raws.contains(
            tag,
        ) && first_colon(tag) is None),
    decreases raws.len(),
{
    if raws.len() > 0 {
        let rest = raws.drop_last();
        let raw = raws.last();
        let before = erase_tags(s, path, rest);
        lemma_erase_tags_effect(s, path, rest, tag);
        lemma_remove_tag_wf(before, path, classify(raw));
        lemma_remove_tag_get(before, path, classify(raw), path);
        lemma_find(before, path);
        if before.find(path) is Some {
            let file = before.files[before.find(path).unwrap()];
            assert(file.wf());
            match classify(raw) {
                TagView::Key(key) => {
                    super::tag::lemma_classify_keeps_text(raw);
                    lemma_remove_value_no_duplicates(file.tags, key);
                },
                TagView::KeyValue { key, value } => {},
            }
        }
        if rest.contains(tag) {
            let i = choose|i: int| 0 <= i < rest.len() && rest[i] == tag;
            assert(raws[i] == tag);
        }
        if raws.contains(tag) {
            let i = choose|i: int| 0 <= i < raws.len() && raws[i] == tag;
            if i < rest.len() {
                assert(rest[i] == tag);
            }
        }
        assert(raws[raws.len() - 1] == raw);
    }
}

/// After a tag was removed from a file, the file does not carry it, and it
/// does not carry any tag of the alias where the tag names one; every other
/// tag it had it still has.
pub proof fn lemma_remove_tag(db: DatabaseView, path: Seq<char>, removed: Seq<char>, tag: Seq<char>)
    requires
        db.wf(),
    ensures
        db.remove_tag(path, removed).wf(),
        db.remove_tag(path, removed).storage.has_tag(path, tag) <==> db.storage.has_tag(path, tag)
            && !(db.config.expand(removed).contains(tag) && first_colon(tag) is None),
{
    lemma_erase_tags_effect(db.storage, path, db.config.expand(removed), tag);
}

/// After a cleanup no file is left whose path was reported missing, and every
/// other file is known as before, with its attributes and with those of its
/// tags that the policy allows.
pub proof fn lemma_cleanup(db: DatabaseView, missing: Seq<Seq<char>>, path: Seq<char>)
    requires
        db.wf(),
    ensures
        db.cleanup(missing).wf(),
        missing.contains(path) ==> db.cleanup(missing).storage.get_file(path) is None,
        !missing.contains(path) ==> db.cleanup(missing).storage.get_file(path) == match db.storage.get_file(
            path,
        ) {
            Some(file) => Some(file.retain_tags(db.config)),
            None => None,
        },
{
    let s = db.storage;
    let kept = s.without(missing);
    let after = db.cleanup(missing).storage;
    let path_of = |file: SearchResultView| file.path;
    lemma_without_wf(s, missing);
    lemma_retain_tags_wf(kept, db.config);
    lemma_filter_keys(s.files, not_among(missing), path_of);
    lemma_find(s, path);
    assert(after.paths() =~= kept.paths());
    if s.find(path) is Some && !missing.contains(path) {
        let i = s.find(path).unwrap();
        assert(kept.files.contains(s.files[i]));
        let j = choose|j: int| 0 <= j < kept.files.len() && kept.files[j] == s.files[i];
        assert forall|k: int| 0 <= k < j implies after.files[k].path != path by {
            assert(kept.paths()[k] == kept.files[k].path);
            assert(kept.paths()[j] == kept.files[j].path);
        }
        lemma_find_at(after, path, j);
    } else {
        assert forall|k: int| 0 <= k < after.files.len() implies after.files[k].path != path by {
            assert(s.files.contains(kept.files[k]));
            let i = choose|i: int| 0 <= i < s.files.len() && s.files[i] == kept.files[k];
            assert(not_among(missing)(kept.files[k]));
        }
        lemma_find_none(after, path);
    }
}

/// What a cleanup leaves of the tags of a file: those that the policy allows,
/// in their order.
pub proof fn lemma_retained_tags(file: SearchResultView, config: DatabaseConfigView, tag: Seq<char>)
    ensures
        file.retain_tags(config).path == file.path,
        file.retain_tags(config).attributes == file.attributes,
        file.retain_tags(config).tags.contains(tag) <==> file.tags.contains(tag) && config.allows(
            tag,
        ),
{
    let same = |t: Seq<char>| t;
    lemma_filter_keys(file.tags, allowed_by(config), same);
    let kept = file.tags.filter(allowed_by(config));
    if kept.contains(tag) {
        let i = choose|i: int| 0 <= i < kept.len() && kept[i] == tag;
        assert(file.tags.contains(kept[i]));
        assert(allowed_by(config)(kept[i]));
    }
    if file.tags.contains(tag) && config.allows(tag) {
        let i = choose|i: int| 0 <= i < file.tags.len() && file.tags[i] == tag;
        assert(allowed_by(config)(file.tags[i]));
        assert(kept.contains(file.tags[i]));
    }
}

} // verus!
