//! The index: which files are known, and the tags and attributes of each.
//!
//! A file is known from the first tag or attribute that is written for it
//! until it is removed. Tags and attributes of a file are sets: writing one
//! twice changes nothing. Files keep the order in which they became known.

pub mod laws;

use super::config::{DatabaseConfig, DatabaseConfigView};
use super::error::{DatabaseError, DatabaseErrorView};
use super::tag::{Tag, TagView};
use laws::{
    lemma_add_attribute_wf, lemma_add_tag_wf, lemma_move_file_wf, lemma_remove_file_wf,
    lemma_remove_tag_wf, lemma_retain_tags_wf, lemma_without_wf,
};
use crate::search::parser::{BinaryOp, Expression, ExpressionView, UnaryOp};
use crate::text::{find_string, lemma_first_index, lemma_no_index, str_eq};
use vstd::prelude::*;

verus! {

/// A file of the index with all that is known of it.
#[derive(Debug)]
pub struct SearchResult {
    /// The path of the file, relative to the root of the database.
    pub path: String,
    /// The tags of the file.
    pub tags: Vec<String>,
    /// The attributes of the file, each a key and a value.
    pub attributes: Vec<(String, String)>,
}

/// What a `SearchResult` stands for.
pub struct SearchResultView {
    pub path: Seq<char>,
    pub tags: Seq<Seq<char>>,
    pub attributes: Seq<(Seq<char>, Seq<char>)>,
}

impl View for SearchResult {
    type V = SearchResultView;

    open spec fn view(&self) -> SearchResultView {
        SearchResultView {
            path: self.path@,
            tags: self.tags.deep_view(),
            attributes: self.attributes.deep_view(),
        }
    }
}

impl DeepView for SearchResult {
    type V = SearchResultView;

    open spec fn deep_view(&self) -> SearchResultView {
        self.view()
    }
}

/// The test whether `config` allows a tag.
pub open spec fn allowed_by(config: DatabaseConfigView) -> spec_fn(Seq<char>) -> bool {
    |tag: Seq<char>| config.allows(tag)
}

/// The test whether the path of a file is none of `missing`.
pub open spec fn not_among(missing: Seq<Seq<char>>) -> spec_fn(SearchResultView) -> bool {
    |file: SearchResultView| !missing.contains(file.path)
}

/// The test whether a file matches `query`.
pub open spec fn matching(query: ExpressionView) -> spec_fn(SearchResultView) -> bool {
    |file: SearchResultView| file.matches(query)
}

/// What becomes of a file when the tags that `config` does not allow are
/// taken from it.
pub open spec fn pruned_by(config: DatabaseConfigView) -> spec_fn(SearchResultView) -> SearchResultView {
    |file: SearchResultView| file.retain_tags(config)
}

/// `s` with `x` at its end, unless `s` holds `x` already.
pub open spec fn insert_value<A>(s: Seq<A>, x: A) -> Seq<A> {
    if s.contains(x) {
        s
    } else {
        s.push(x)
    }
}

impl SearchResultView {
    /// A file without tags or attributes.
    pub open spec fn empty(path: Seq<char>) -> SearchResultView {
        SearchResultView { path, tags: Seq::empty(), attributes: Seq::empty() }
    }

    /// Neither a tag nor an attribute occurs twice.
    pub open spec fn wf(self) -> bool {
        self.tags.no_duplicates() && self.attributes.no_duplicates()
    }

    /// The file with the tag `tag`.
    pub open spec fn add_tag(self, tag: Seq<char>) -> SearchResultView {
        SearchResultView { tags: insert_value(self.tags, tag), ..self }
    }

    /// The file with the attribute `key`, `value`.
    pub open spec fn add_attribute(self, key: Seq<char>, value: Seq<char>) -> SearchResultView {
        SearchResultView { attributes: insert_value(self.attributes, (key, value)), ..self }
    }

    /// The file without the tag `tag`.
    pub open spec fn remove_tag(self, tag: Seq<char>) -> SearchResultView {
        SearchResultView { tags: self.tags.remove_value(tag), ..self }
    }

    /// The file without the attribute `key`, `value`.
    pub open spec fn remove_attribute(self, key: Seq<char>, value: Seq<char>) -> SearchResultView {
        SearchResultView { attributes: self.attributes.remove_value((key, value)), ..self }
    }

    /// The file without `tag`, be it a tag or an attribute.
    pub open spec fn remove(self, tag: TagView) -> SearchResultView {
        match tag {
            TagView::Key(key) => self.remove_tag(key),
            TagView::KeyValue { key, value } => self.remove_attribute(key, value),
        }
    }

    /// The file with only those of its tags that `config` allows.
    pub open spec fn retain_tags(self, config: DatabaseConfigView) -> SearchResultView {
        SearchResultView { tags: self.tags.filter(allowed_by(config)), ..self }
    }

    /// The file under another path.
    pub open spec fn renamed(self, path: Seq<char>) -> SearchResultView {
        SearchResultView { path, ..self }
    }

    /// Whether the file has some attribute with the key `key`.
    pub open spec fn has_key(self, key: Seq<char>) -> bool {
        exists|i: int| 0 <= i < self.attributes.len() && (#[trigger] self.attributes[i]).0 == key
    }

    /// Whether the file has some attribute with the value `value`.
    pub open spec fn has_value(self, value: Seq<char>) -> bool {
        exists|i: int|
            0 <= i < self.attributes.len() && (#[trigger] self.attributes[i]).1 == value
    }

    /// Whether the file has an attribute that fits: with both key and value
    /// given, that very attribute; with one of them, any attribute that has
    /// it; with neither, every file fits.
    pub open spec fn has_attribute(self, key: Option<Seq<char>>, value: Option<Seq<char>>) -> bool {
        match (key, value) {
            (Some(key), None) => self.has_key(key),
            (Some(key), Some(value)) => self.attributes.contains((key, value)),
            (None, Some(value)) => self.has_value(value),
            (None, None) => true,
        }
    }

    /// Whether the file matches the query `query`.
    pub open spec fn matches(self, query: ExpressionView) -> bool
        decreases query,
    {
        match query {
            ExpressionView::Empty => true,
            ExpressionView::Tag(name) => self.tags.contains(name),
            ExpressionView::Attribute { key, value } => self.has_attribute(key, value),
            ExpressionView::BinaryOp { left, right, op_type } => match op_type {
                BinaryOp::And => self.matches(*left) && self.matches(*right),
                BinaryOp::Or => self.matches(*left) || self.matches(*right),
            },
            ExpressionView::UnaryOp { expr, op_type } => match op_type {
                UnaryOp::Not => !self.matches(*expr),
            },
        }
    }
}

/// The index of the first attribute of `list` with this key and this value.
pub fn find_attribute(list: &Vec<(String, String)>, key: &str, value: &str) -> (r: Option<usize>)
    ensures
        match list.deep_view().index_of_first((key@, value@)) {
            Some(i) => r == Some(i as usize) && 0 <= i < list.len(),
            None => r.is_none(),
        },
        r.is_some() == list.deep_view().contains((key@, value@)),
{
    let n: usize = list.len();
    let mut i: usize = 0;
    while i < n
        invariant
            i <= n,
            n == list.len(),
            forall|j: int| 0 <= j < i ==> list.deep_view()[j] != (key@, value@),
        decreases n - i,
    {
        if str_eq(list[i].0.as_str(), key) && str_eq(list[i].1.as_str(), value) {
            proof {
                lemma_first_index(list.deep_view(), (key@, value@), i as int);
            }
            return Some(i);
        }
        i = i + 1;
    }
    proof {
        lemma_no_index(list.deep_view(), (key@, value@));
    }
    None
}

/// A copy of `list`.
pub fn clone_strings(list: &Vec<String>) -> (copy: Vec<String>)
    ensures
        copy.deep_view() == list.deep_view(),
{
    let mut copy: Vec<String> = Vec::new();
    let mut i: usize = 0;
    while i < list.len()
        invariant
            i <= list.len(),
            copy.deep_view() == list.deep_view().take(i as int),
        decreases list.len() - i,
    {
        let ghost before = copy.deep_view();
        copy.push(list[i].clone());
        assert(copy.deep_view() =~= before.push(list.deep_view()[i as int]));
        assert(list.deep_view().take(i + 1) =~= before.push(list.deep_view()[i as int]));
        i = i + 1;
    }
    assert(list.deep_view().take(list.len() as int) =~= list.deep_view());
    copy
}

/// A copy of `list`.
pub fn clone_attributes(list: &Vec<(String, String)>) -> (copy: Vec<(String, String)>)
    ensures
        copy.deep_view() == list.deep_view(),
{
    let mut copy: Vec<(String, String)> = Vec::new();
    let mut i: usize = 0;
    while i < list.len()
        invariant
            i <= list.len(),
            copy.deep_view() == list.deep_view().take(i as int),
        decreases list.len() - i,
    {
        let ghost before = copy.deep_view();
        copy.push((list[i].0.clone(), list[i].1.clone()));
        assert(copy.deep_view() =~= before.push(list.deep_view()[i as int]));
        assert(list.deep_view().take(i + 1) =~= before.push(list.deep_view()[i as int]));
        i = i + 1;
    }
    assert(list.deep_view().take(list.len() as int) =~= list.deep_view());
    copy
}

impl Clone for SearchResult {
    fn clone(&self) -> (copy: SearchResult)
        ensures
            copy@ == self@,
    {
        SearchResult {
            path: self.path.clone(),
            tags: clone_strings(&self.tags),
            attributes: clone_attributes(&self.attributes),
        }
    }
}

impl SearchResult {
    /// Whether the file has some attribute with the key `key`.
    pub fn has_key(&self, key: &str) -> (r: bool)
        ensures
            r == self@.has_key(key@),
    {
        let mut i: usize = 0;
        while i < self.attributes.len()
            invariant
                i <= self.attributes.len(),
                forall|j: int| 0 <= j < i ==> (#[trigger] self@.attributes[j]).0 != key@,
            decreases self.attributes.len() - i,
        {
            if str_eq(self.attributes[i].0.as_str(), key) {
                assert(self@.attributes[i as int].0 == key@);
                return true;
            }
            i = i + 1;
        }
        false
    }

    /// Whether the file has some attribute with the value `value`.
    pub fn has_value(&self, value: &str) -> (r: bool)
        ensures
            r == self@.has_value(value@),
    {
        let mut i: usize = 0;
        while i < self.attributes.len()
            invariant
                i <= self.attributes.len(),
                forall|j: int| 0 <= j < i ==> (#[trigger] self@.attributes[j]).1 != value@,
            decreases self.attributes.len() - i,
        {
            if str_eq(self.attributes[i].1.as_str(), value) {
                assert(self@.attributes[i as int].1 == value@);
                return true;
            }
            i = i + 1;
        }
        false
    }

    /// Whether the file has an attribute that fits `key` and `value`, where
    /// `None` stands for any key or any value.
    pub fn has_attribute(&self, key: &Option<String>, value: &Option<String>) -> (r: bool)
        ensures
            r == self@.has_attribute(key.deep_view(), value.deep_view()),
    {
        match (key, value) {
            (Some(key), None) => self.has_key(key.as_str()),
            (Some(key), Some(value)) => find_attribute(
                &self.attributes,
                key.as_str(),
                value.as_str(),
            ).is_some(),
            (None, Some(value)) => self.has_value(value.as_str()),
            (None, None) => true,
        }
    }
}

/// Whether the file `result` matches the query `search_term`.
///
/// The empty query matches every file; a tag matches the files that carry it;
/// an attribute matches as `has_attribute` says; `And`, `Or` and `Not` combine
/// what their operands match.
pub fn match_search_query(result: &SearchResult, search_term: &Expression) -> (r: bool)
    ensures
        r == result@.matches(search_term@),
    decreases search_term,
{
    match search_term {
        Expression::Tag(tag) => find_string(&result.tags, tag.as_str()).is_some(),
        Expression::Attribute { key, value } => result.has_attribute(key, value),
        Expression::BinaryOp { left, right, op_type } => {
            match op_type {
                BinaryOp::And => match_search_query(result, left) && match_search_query(
                    result,
                    right,
                ),
                BinaryOp::Or => match_search_query(result, left) || match_search_query(
                    result,
                    right,
                ),
            }
        },
        Expression::UnaryOp { expr, op_type } => {
            match op_type {
                UnaryOp::Not => !match_search_query(result, expr),
            }
        },
        Expression::Empty => true,
    }
}

/// What a `DatabaseStorage` stands for: its files, in the order in which they
/// became known.
pub struct DatabaseStorageView {
    pub files: Seq<SearchResultView>,
}

impl DatabaseStorageView {
    /// The paths of the files, in their order.
    pub open spec fn paths(self) -> Seq<Seq<char>> {
        self.files.map_values(|file: SearchResultView| file.path)
    }

    /// No path occurs twice, and no file holds a tag or an attribute twice.
    pub open spec fn wf(self) -> bool {
        &&& self.paths().no_duplicates()
        &&& forall|i: int| 0 <= i < self.files.len() ==> (#[trigger] self.files[i]).wf()
    }

    /// The position of the file with the path `path`, if it is known.
    pub open spec fn find(self, path: Seq<char>) -> Option<int> {
        self.paths().index_of_first(path)
    }

    /// The file with the path `path`, if it is known.
    pub open spec fn get_file(self, path: Seq<char>) -> Option<SearchResultView> {
        match self.find(path) {
            Some(i) => Some(self.files[i]),
            None => None,
        }
    }

    /// The file with the path `path` as it is known, or as it would become
    /// known: without tags or attributes.
    pub open spec fn file_or_empty(self, path: Seq<char>) -> SearchResultView {
        match self.get_file(path) {
            Some(file) => file,
            None => SearchResultView::empty(path),
        }
    }

    /// Whether the file `path` is known and carries the tag `tag`.
    pub open spec fn has_tag(self, path: Seq<char>, tag: Seq<char>) -> bool {
        self.get_file(path) matches Some(file) && file.tags.contains(tag)
    }

    /// Whether the file `path` is known and carries the attribute `key`,
    /// `value`.
    pub open spec fn has_attribute(self, path: Seq<char>, key: Seq<char>, value: Seq<char>) -> bool {
        self.get_file(path) matches Some(file) && file.attributes.contains((key, value))
    }

    /// The index in which `path` is known: a file that was not known before
    /// comes last and has neither tags nor attributes.
    pub open spec fn create_file(self, path: Seq<char>) -> DatabaseStorageView {
        if self.find(path) is Some {
            self
        } else {
            DatabaseStorageView { files: self.files.push(SearchResultView::empty(path)) }
        }
    }

    /// The index after the tag `tag` was written for `path`.
    pub open spec fn add_tag(self, path: Seq<char>, tag: Seq<char>) -> DatabaseStorageView {
        let known = self.create_file(path);
        let i = known.find(path).unwrap();
        DatabaseStorageView { files: known.files.update(i, known.files[i].add_tag(tag)) }
    }

    /// The index after the attribute `key`, `value` was written for `path`.
    pub open spec fn add_attribute(
        self,
        path: Seq<char>,
        key: Seq<char>,
        value: Seq<char>,
    ) -> DatabaseStorageView {
        let known = self.create_file(path);
        let i = known.find(path).unwrap();
        DatabaseStorageView {
            files: known.files.update(i, known.files[i].add_attribute(key, value)),
        }
    }

    /// The index after each of `tags` was written for `path`, first to last.
    pub open spec fn add_tags(self, path: Seq<char>, tags: Seq<Seq<char>>) -> DatabaseStorageView
        decreases tags.len(),
    {
        if tags.len() == 0 {
            self
        } else {
            self.add_tags(path, tags.drop_last()).add_tag(path, tags.last())
        }
    }

    /// The index after each of `attributes` was written for `path`, first to
    /// last.
    pub open spec fn add_attributes(
        self,
        path: Seq<char>,
        attributes: Seq<(Seq<char>, Seq<char>)>,
    ) -> DatabaseStorageView
        decreases attributes.len(),
    {
        if attributes.len() == 0 {
            self
        } else {
            self.add_attributes(path, attributes.drop_last()).add_attribute(
                path,
                attributes.last().0,
                attributes.last().1,
            )
        }
    }

    /// The index after the file `file` was made known with its tags and
    /// attributes, besides what was known of its path before.
    pub open spec fn add_file(self, file: SearchResultView) -> DatabaseStorageView {
        self.create_file(file.path).add_tags(file.path, file.tags).add_attributes(
            file.path,
            file.attributes,
        )
    }

    /// The index after each of `files` was made known, first to last.
    pub open spec fn add_files(self, files: Seq<SearchResultView>) -> DatabaseStorageView
        decreases files.len(),
    {
        if files.len() == 0 {
            self
        } else {
            self.add_files(files.drop_last()).add_file(files.last())
        }
    }

    /// The index that holds the files `files` and nothing else.
    pub open spec fn loaded(files: Seq<SearchResultView>) -> DatabaseStorageView {
        (DatabaseStorageView { files: Seq::empty() }).add_files(files)
    }

    /// The index after `tag` was taken from `path`: unchanged if `path` is not
    /// known; the file itself stays.
    pub open spec fn remove_tag(self, path: Seq<char>, tag: TagView) -> DatabaseStorageView {
        match self.find(path) {
            Some(i) => DatabaseStorageView { files: self.files.update(i, self.files[i].remove(tag)) },
            None => self,
        }
    }

    /// The index without the file `path`.
    pub open spec fn remove_file(self, path: Seq<char>) -> DatabaseStorageView {
        match self.find(path) {
            Some(i) => DatabaseStorageView { files: self.files.remove(i) },
            None => self,
        }
    }

    /// The files that match `query`, in their order.
    pub open spec fn search(self, query: ExpressionView) -> Seq<SearchResultView> {
        self.files.filter(matching(query))
    }

    /// The index without the files whose path is one of `missing`.
    pub open spec fn without(self, missing: Seq<Seq<char>>) -> DatabaseStorageView {
        DatabaseStorageView { files: self.files.filter(not_among(missing)) }
    }

    /// The index in which every file has lost the tags that `config` does not
    /// allow. No file is lost, and attributes stay as they are.
    pub open spec fn retain_tags(self, config: DatabaseConfigView) -> DatabaseStorageView {
        DatabaseStorageView { files: self.files.map_values(pruned_by(config)) }
    }

    /// The index after the file `old_path` got the path `new`: the file keeps
    /// its place, its tags and its attributes, and a file that was known as
    /// `new` before gives way to it. Unchanged if `old_path` is not known.
    pub open spec fn move_file(self, old_path: Seq<char>, new: Seq<char>) -> DatabaseStorageView {
        if self.find(old_path) is None || old_path == new {
            self
        } else {
            let rest = self.remove_file(new);
            let i = rest.find(old_path).unwrap();
            DatabaseStorageView { files: rest.files.update(i, rest.files[i].renamed(new)) }
        }
    }
}

/// The index of tagged files.
pub struct DatabaseStorage {
    files: Vec<SearchResult>,
}

impl View for DatabaseStorage {
    type V = DatabaseStorageView;

    closed spec fn view(&self) -> DatabaseStorageView {
        DatabaseStorageView { files: self.files.deep_view() }
    }
}

impl Default for DatabaseStorage {
    /// An index without files.
    fn default() -> (storage: DatabaseStorage)
        ensures
            storage@.files == Seq::<SearchResultView>::empty(),
            storage@.wf(),
    {
        DatabaseStorage::new()
    }
}

impl DatabaseStorage {
    /// An index without files.
    pub fn new() -> (storage: DatabaseStorage)
        ensures
            storage@.files == Seq::<SearchResultView>::empty(),
            storage@.wf(),
    {
        let storage = DatabaseStorage { files: Vec::new() };
        assert(storage@.files =~= Seq::<SearchResultView>::empty());
        storage
    }

    /// The index that holds the files `files`: each is known with its tags
    /// and attributes, a file without any as well. Where a path, a tag or an
    /// attribute comes twice, once is kept.
    pub fn load(files: &Vec<SearchResult>) -> (storage: DatabaseStorage)
        ensures
            storage@ == DatabaseStorageView::loaded(files.deep_view()),
            storage@.wf(),
    {
        let ghost all = files.deep_view();
        let mut storage = DatabaseStorage::new();
        let mut i: usize = 0;
        assert(all.take(0) =~= Seq::<SearchResultView>::empty());
        while i < files.len()
            invariant
                i <= files.len(),
                all == files.deep_view(),
                storage@ == (DatabaseStorageView { files: Seq::empty() }).add_files(
                    all.take(i as int),
                ),
                storage@.wf(),
            decreases files.len() - i,
        {
            proof {
                assert(all.take(i + 1).drop_last() =~= all.take(i as int));
                assert(all.take(i + 1).last() == all[i as int]);
            }
            storage.add_file(&files[i]);
            i = i + 1;
        }
        assert(all.take(files.len() as int) =~= all);
        storage
    }

    /// Makes `file` known with its tags and attributes, besides what is known
    /// of its path already.
    pub fn add_file(&mut self, file: &SearchResult)
        ensures
            final(self)@ == old(self)@.add_file(file@),
            old(self)@.wf() ==> final(self)@.wf(),
    {
        let path = file.path.as_str();
        self.create_file(path);
        proof {
            laws::lemma_create_file_wf(old(self)@, path@);
        }
        let ghost tags = file@.tags;
        let ghost known = self@;
        let mut i: usize = 0;
        assert(tags.take(0) =~= Seq::<Seq<char>>::empty());
        while i < file.tags.len()
            invariant
                i <= file.tags.len(),
                tags == file@.tags,
                path@ == file@.path,
                self@ == known.add_tags(path@, tags.take(i as int)),
                known.wf() ==> self@.wf(),
            decreases file.tags.len() - i,
        {
            proof {
                assert(tags.take(i + 1).drop_last() =~= tags.take(i as int));
                assert(tags.take(i + 1).last() == tags[i as int]);
            }
            self.add_tag(path, &file.tags[i]);
            i = i + 1;
        }
        assert(tags.take(file.tags.len() as int) =~= tags);
        let ghost attributes = file@.attributes;
        let ghost tagged = self@;
        let mut k: usize = 0;
        assert(attributes.take(0) =~= Seq::<(Seq<char>, Seq<char>)>::empty());
        while k < file.attributes.len()
            invariant
                k <= file.attributes.len(),
                attributes == file@.attributes,
                path@ == file@.path,
                self@ == tagged.add_attributes(path@, attributes.take(k as int)),
                tagged.wf() ==> self@.wf(),
            decreases file.attributes.len() - k,
        {
            proof {
                assert(attributes.take(k + 1).drop_last() =~= attributes.take(k as int));
                assert(attributes.take(k + 1).last() == attributes[k as int]);
            }
            self.add_attribute(
                path,
                file.attributes[k].0.clone(),
                file.attributes[k].1.clone(),
            );
            k = k + 1;
        }
        assert(attributes.take(file.attributes.len() as int) =~= attributes);
    }

    /// The position of the file `file`.
    fn get_file_id(&self, file: &str) -> (r: Result<usize, DatabaseError>)
        ensures
            match self@.find(file@) {
                Some(i) => r matches Ok(id) && id == i && i < self.files.len(),
                None => r matches Err(e) && e@ == DatabaseErrorView::FileNotFound(file@),
            },
    {
        let n: usize = self.files.len();
        let mut i: usize = 0;
        while i < n
            invariant
                i <= n,
                n == self.files.len(),
                forall|j: int| 0 <= j < i ==> self@.paths()[j] != file@,
            decreases n - i,
        {
            if str_eq(self.files[i].path.as_str(), file) {
                proof {
                    lemma_first_index(self@.paths(), file@, i as int);
                }
                return Ok(i);
            }
            i = i + 1;
        }
        proof {
            lemma_no_index(self@.paths(), file@);
        }
        Err(DatabaseError::FileNotFound(file.to_owned()))
    }

    /// Makes `file` known if it is not, and returns its position.
    fn create_file(&mut self, file: &str) -> (id: usize)
        ensures
            final(self)@ == old(self)@.create_file(file@),
            final(self)@.find(file@) == Some(id as int),
            id < final(self).files.len(),
    {
        match self.get_file_id(file) {
            Ok(id) => id,
            Err(_) => {
                let id: usize = self.files.len();
                self.files.push(
                    SearchResult { path: file.to_owned(), tags: Vec::new(), attributes: Vec::new() },
                );
                proof {
                    assert(self.files[id as int]@.tags =~= Seq::<Seq<char>>::empty());
                    assert(self.files[id as int]@.attributes =~= Seq::<
                        (Seq<char>, Seq<char>),
                    >::empty());
                    assert(self.files[id as int]@ == SearchResultView::empty(file@));
                    assert(self@.files =~= old(self)@.files.push(SearchResultView::empty(file@)));
                    old(self)@.paths().index_of_first_ensures(file@);
                    assert forall|j: int| 0 <= j < id implies self@.paths()[j] != file@ by {
                        assert(self@.paths()[j] == old(self)@.paths()[j]);
                    }
                    lemma_first_index(self@.paths(), file@, id as int);
                }
                id
            },
        }
    }

    /// Writes the tag `tag` for `file`. A file that was not known becomes
    /// known; a tag that the file has already changes nothing.
    pub fn add_tag(&mut self, file: &str, tag: &String)
        ensures
            final(self)@ == old(self)@.add_tag(file@, tag@),
            old(self)@.wf() ==> final(self)@.wf(),
    {
        let id = self.create_file(file);
        let ghost known = self@;
        if find_string(&self.files[id].tags, tag.as_str()).is_none() {
            self.files[id].tags.push(tag.clone());
            assert(self.files[id as int]@.tags =~= known.files[id as int].tags.push(tag@));
        }
        proof {
            assert(self.files[id as int]@ == known.files[id as int].add_tag(tag@));
            assert(self@.files =~= known.files.update(
                id as int,
                known.files[id as int].add_tag(tag@),
            ));
            if old(self)@.wf() {
                lemma_add_tag_wf(old(self)@, file@, tag@);
            }
        }
    }

    /// Writes the attribute `key`, `value` for `file`. A file that was not
    /// known becomes known; an attribute that the file has already changes
    /// nothing.
    pub fn add_attribute(&mut self, file: &str, key: String, value: String)
        ensures
            final(self)@ == old(self)@.add_attribute(file@, key@, value@),
            old(self)@.wf() ==> final(self)@.wf(),
    {
        let id = self.create_file(file);
        let ghost known = self@;
        if find_attribute(&self.files[id].attributes, key.as_str(), value.as_str()).is_none() {
            self.files[id].attributes.push((key, value));
            assert(self.files[id as int]@.attributes =~= known.files[id as int].attributes.push(
                (key@, value@),
            ));
        }
        proof {
            assert(self.files[id as int]@ == known.files[id as int].add_attribute(key@, value@));
            assert(self@.files =~= known.files.update(
                id as int,
                known.files[id as int].add_attribute(key@, value@),
            ));
            if old(self)@.wf() {
                lemma_add_attribute_wf(old(self)@, file@, key@, value@);
            }
        }
    }

    /// Takes `tag` from `file`, be it a tag or an attribute. Nothing changes
    /// if the file is not known or does not have it.
    pub fn remove_tag(&mut self, file: &str, tag: &Tag)
        ensures
            final(self)@ == old(self)@.remove_tag(file@, tag@),
            old(self)@.wf() ==> final(self)@.wf(),
    {
        let id = match self.get_file_id(file) {
            Ok(id) => id,
            Err(_) => {
                return ;
            },
        };
        match tag {
            Tag::Key(key) => {
                match find_string(&self.files[id].tags, key.as_str()) {
                    Some(i) => {
                        self.files[id].tags.remove(i);
                        assert(self.files[id as int]@.tags =~= old(
                            self,
                        )@.files[id as int].tags.remove(i as int));
                    },
                    None => {},
                }
            },
            Tag::KeyValue { key, value } => {
                match find_attribute(&self.files[id].attributes, key.as_str(), value.as_str()) {
                    Some(i) => {
                        self.files[id].attributes.remove(i);
                        assert(self.files[id as int]@.attributes =~= old(
                            self,
                        )@.files[id as int].attributes.remove(i as int));
                    },
                    None => {},
                }
            },
        }
        proof {
            assert(self.files[id as int]@ == old(self)@.files[id as int].remove(tag@));
            assert(self@.files =~= old(self)@.files.update(
                id as int,
                old(self)@.files[id as int].remove(tag@),
            ));
            if old(self)@.wf() {
                lemma_remove_tag_wf(old(self)@, file@, tag@);
            }
        }
    }

    /// Takes the attribute `key`, `value` from `file`. Nothing changes if the
    /// file is not known or does not have it.
    pub fn remove_attribute(&mut self, file: &str, key: String, value: String)
        ensures
            final(self)@ == old(self)@.remove_tag(
                file@,
                TagView::KeyValue { key: key@, value: value@ },
            ),
            old(self)@.wf() ==> final(self)@.wf(),
    {
        let tag = Tag::KeyValue { key, value };
        self.remove_tag(file, &tag)
    }

    /// Removes `file` with all its tags and attributes. Nothing changes if it
    /// is not known.
    pub fn remove_file(&mut self, file: &str)
        ensures
            final(self)@ == old(self)@.remove_file(file@),
            old(self)@.wf() ==> final(self)@.wf(),
    {
        match self.get_file_id(file) {
            Ok(id) => {
                self.files.remove(id);
                proof {
                    assert(self@.files =~= old(self)@.files.remove(id as int));
                    if old(self)@.wf() {
                        lemma_remove_file_wf(old(self)@, file@);
                    }
                }
            },
            Err(_) => {},
        }
    }

    /// All files of the index, in the order in which they became known.
    pub fn get_all_files(&self) -> (files: Vec<SearchResult>)
        ensures
            files.deep_view() == self@.files,
    {
        let mut files: Vec<SearchResult> = Vec::new();
        let mut i: usize = 0;
        while i < self.files.len()
            invariant
                i <= self.files.len(),
                files.deep_view() == self@.files.take(i as int),
            decreases self.files.len() - i,
        {
            let ghost before = files.deep_view();
            files.push(self.files[i].clone());
            assert(files.deep_view() =~= before.push(self@.files[i as int]));
            assert(self@.files.take(i + 1) =~= before.push(self@.files[i as int]));
            i = i + 1;
        }
        assert(self@.files.take(self.files.len() as int) =~= self@.files);
        files
    }

    /// The file `file` as the index holds it, if it is known.
    pub fn get_file(&self, file: &str) -> (r: Option<&SearchResult>)
        ensures
            r.deep_view() == self@.get_file(file@),
    {
        match self.get_file_id(file) {
            Ok(id) => Some(&self.files[id]),
            Err(_) => None,
        }
    }

    /// The file `file_path` with its tags and attributes, or `FileNotFound`
    /// with that path if it is not known.
    pub fn get_file_from_path(&self, file_path: &str) -> (r: Result<SearchResult, DatabaseError>)
        ensures
            match self@.get_file(file_path@) {
                Some(file) => r matches Ok(found) && found@ == file,
                None => r matches Err(e) && e@ == DatabaseErrorView::FileNotFound(file_path@),
            },
    {
        match self.get_file_id(file_path) {
            Ok(id) => Ok(self.files[id].clone()),
            Err(e) => Err(e),
        }
    }

    /// The files that match `search_term`, in the order in which they became
    /// known.
    pub fn search(&self, search_term: Expression) -> (results: Vec<SearchResult>)
        ensures
            results.deep_view() == self@.search(search_term@),
    {
        let mut results: Vec<SearchResult> = Vec::new();
        let mut i: usize = 0;
        assert(self@.files.take(0).filter(matching(search_term@)) =~= Seq::<
            SearchResultView,
        >::empty()) by {
            assert(self@.files.take(0) =~= Seq::<SearchResultView>::empty());
            reveal(Seq::filter);
        }
        while i < self.files.len()
            invariant
                i <= self.files.len(),
                results.deep_view() == self@.files.take(i as int).filter(matching(search_term@)),
            decreases self.files.len() - i,
        {
            proof {
                assert(self@.files.take(i + 1) =~= self@.files.take(i as int).push(
                    self@.files[i as int],
                ));
                Seq::lemma_filter_push(
                    self@.files.take(i as int),
                    self@.files[i as int],
                    matching(search_term@),
                );
            }
            if match_search_query(&self.files[i], &search_term) {
                files_push(&mut results, self.files[i].clone());
            }
            i = i + 1;
        }
        assert(self@.files.take(self.files.len() as int) =~= self@.files);
        results
    }

    /// Removes every file whose path is one of `missing`, with all its tags
    /// and attributes. The other files stay as they are, in their order.
    pub fn remove_missing(&mut self, missing: &Vec<String>)
        ensures
            final(self)@ == old(self)@.without(missing.deep_view()),
            old(self)@.wf() ==> final(self)@.wf(),
    {
        let ghost all = self@.files;
        let ghost keep = not_among(missing.deep_view());
        let ghost mut seen: int = 0;
        let mut i: usize = 0;
        proof {
            reveal(Seq::filter);
            assert(all.take(0) =~= Seq::<SearchResultView>::empty());
            assert(self@.files =~= all.take(0).filter(keep) + all.skip(0));
        }
        while i < self.files.len()
            invariant
                all == old(self)@.files,
                keep == not_among(missing.deep_view()),
                0 <= seen <= all.len(),
                i == all.take(seen).filter(keep).len(),
                self@.files == all.take(seen).filter(keep) + all.skip(seen),
            decreases all.len() - seen,
        {
            proof {
                assert(self@.files[i as int] == all.skip(seen)[0]);
                assert(all.take(seen + 1) =~= all.take(seen).push(all[seen]));
                Seq::lemma_filter_push(all.take(seen), all[seen], keep);
            }
            let ghost before = self@.files;
            if find_string(missing, self.files[i].path.as_str()).is_some() {
                self.files.remove(i);
                proof {
                    assert(self@.files =~= before.remove(i as int));
                    assert(before.remove(i as int) =~= all.take(seen + 1).filter(keep) + all.skip(
                        seen + 1,
                    ));
                }
            } else {
                proof {
                    assert(self@.files =~= all.take(seen + 1).filter(keep) + all.skip(seen + 1));
                }
                i = i + 1;
            }
            proof {
                seen = seen + 1;
            }
        }
        proof {
            assert(all.take(seen) =~= all);
            assert(self@.files =~= all.filter(keep));
            if old(self)@.wf() {
                lemma_without_wf(old(self)@, missing.deep_view());
            }
        }
    }

    /// Takes from every file the tags that `config` does not allow. No file is
    /// removed, not even one that is left without tags, and attributes stay.
    pub fn retain_allowed_tags(&mut self, config: &DatabaseConfig)
        ensures
            final(self)@ == old(self)@.retain_tags(config@),
            old(self)@.wf() ==> final(self)@.wf(),
    {
        let ghost all = self@.files;
        let mut i: usize = 0;
        while i < self.files.len()
            invariant
                all == old(self)@.files,
                i <= self.files.len(),
                self.files.len() == all.len(),
                forall|j: int|
                    0 <= j < i ==> (#[trigger] self@.files[j]) == all[j].retain_tags(config@),
                forall|j: int| i <= j < all.len() ==> (#[trigger] self@.files[j]) == all[j],
            decreases self.files.len() - i,
        {
            let ghost before = self@.files;
            retain_allowed(&mut self.files[i].tags, config);
            proof {
                assert(before[i as int] == all[i as int]);
                assert(self@.files[i as int] == all[i as int].retain_tags(config@));
                assert forall|j: int| 0 <= j < i + 1 implies (#[trigger] self@.files[j])
                    == all[j].retain_tags(config@) by {
                    if j < i {
                        assert(self@.files[j] == before[j]);
                    }
                }
                assert forall|j: int| i + 1 <= j < all.len() implies (#[trigger] self@.files[j])
                    == all[j] by {
                    assert(self@.files[j] == before[j]);
                }
            }
            i = i + 1;
        }
        proof {
            assert(self@.files =~= all.map_values(pruned_by(config@)));
            if old(self)@.wf() {
                lemma_retain_tags_wf(old(self)@, config@);
            }
        }
    }

    /// Gives the file `old_path` the path `new_path`. It keeps its tags
    /// and attributes; a file that was known as `new_path` is replaced. Fails
    /// with `FileNotFound`, and changes nothing, if `old_path` is not
    /// known.
    pub fn move_file(&mut self, old_path: &str, new_path: String) -> (r: Result<
        (),
        DatabaseError,
    >)
        ensures
            final(self)@ == old(self)@.move_file(old_path@, new_path@),
            match old(self)@.find(old_path@) {
                Some(_) => r is Ok,
                None => r matches Err(e) && e@ == DatabaseErrorView::FileNotFound(old_path@),
            },
            old(self)@.wf() ==> final(self)@.wf(),
    {
        match self.get_file_id(old_path) {
            Err(e) => {
                return Err(e);
            },
            Ok(_) => {},
        }
        if str_eq(old_path, new_path.as_str()) {
            return Ok(());
        }
        self.remove_file(new_path.as_str());
        let ghost rest = self@;
        proof {
            laws::lemma_remove_file_keeps(old(self)@, new_path@, old_path@);
        }
        match self.get_file_id(old_path) {
            Ok(id) => {
                self.files[id].path = new_path;
                proof {
                    assert(self.files[id as int]@ == rest.files[id as int].renamed(new_path@));
                    assert(self@.files =~= rest.files.update(
                        id as int,
                        rest.files[id as int].renamed(new_path@),
                    ));
                    if old(self)@.wf() {
                        lemma_move_file_wf(old(self)@, old_path@, new_path@);
                    }
                }
                Ok(())
            },
            Err(e) => Err(e),
        }
    }
}

/// Takes from `tags` those that `config` does not allow.
fn retain_allowed(tags: &mut Vec<String>, config: &DatabaseConfig)
    ensures
        final(tags).deep_view() == old(tags).deep_view().filter(allowed_by(config@)),
{
    let ghost all = tags.deep_view();
    let ghost keep = allowed_by(config@);
    let ghost mut seen: int = 0;
    let mut i: usize = 0;
    proof {
        reveal(Seq::filter);
        assert(all.take(0) =~= Seq::<Seq<char>>::empty());
        assert(tags.deep_view() =~= all.take(0).filter(keep) + all.skip(0));
    }
    while i < tags.len()
        invariant
            all == old(tags).deep_view(),
            keep == allowed_by(config@),
            0 <= seen <= all.len(),
            i == all.take(seen).filter(keep).len(),
            tags.deep_view() == all.take(seen).filter(keep) + all.skip(seen),
        decreases all.len() - seen,
    {
        proof {
            assert(tags.deep_view()[i as int] == all.skip(seen)[0]);
            assert(all.take(seen + 1) =~= all.take(seen).push(all[seen]));
            Seq::lemma_filter_push(all.take(seen), all[seen], keep);
        }
        let ghost before = tags.deep_view();
        if config.tag_allowed(&tags[i]) {
            proof {
                assert(tags.deep_view() =~= all.take(seen + 1).filter(keep) + all.skip(seen + 1));
            }
            i = i + 1;
        } else {
            tags.remove(i);
            proof {
                assert(tags.deep_view() =~= before.remove(i as int));
                assert(before.remove(i as int) =~= all.take(seen + 1).filter(keep) + all.skip(
                    seen + 1,
                ));
            }
        }
        proof {
            seen = seen + 1;
        }
    }
    proof {
        assert(all.take(seen) =~= all);
        assert(tags.deep_view() =~= all.filter(keep));
    }
}

/// Appends `file` to `files`.
fn files_push(files: &mut Vec<SearchResult>, file: SearchResult)
    ensures
        final(files).deep_view() == old(files).deep_view().push(file@),
{
    files.push(file);
    assert(files.deep_view() =~= old(files).deep_view().push(file@));
}

} // verus!
