//! The database: the index of tagged files, the tag policy, and the
//! operations that combine them.
//!
//! Files are named by path. The index holds paths relative to the root of
//! the database, the directory that contains the database directory. The
//! operations that take a file from outside take its full path and fail with
//! `FileNotFound` where it does not lie under the root; those whose name ends
//! in `_at` take the relative path itself.

pub mod config;
pub mod error;
pub mod find;
pub mod laws;
pub mod sorting;
pub mod storage;
pub mod tag;

pub use error::DatabaseError;
pub use sorting::sort_by_attribute;
pub use storage::SearchResult;
pub use tag::Tag;

use crate::search::parser::Expression;
use config::{DatabaseConfig, DatabaseConfigView};
use error::DatabaseErrorView;
use find::{path_join, path_parent, path_strip_prefix};
use sorting::{path_key, sorted_by};
use storage::{DatabaseStorage, DatabaseStorageView, SearchResultView};
use tag::{classify, TagView};
use vstd::prelude::*;

verus! {

/// The index after the text `raw` was written for `path` under the policy
/// `config`: as a tag or, where it holds a `:`, as an attribute; not at all
/// where the policy does not allow it.
pub open spec fn write_tag(
    s: DatabaseStorageView,
    config: DatabaseConfigView,
    path: Seq<char>,
    raw: Seq<char>,
) -> DatabaseStorageView {
    if config.allows(raw) {
        match classify(raw) {
            TagView::Key(key) => s.add_tag(path, key),
            TagView::KeyValue { key, value } => s.add_attribute(path, key, value),
        }
    } else {
        s
    }
}

/// The index after each of `raws` was written for `path`, first to last.
pub open spec fn write_tags(
    s: DatabaseStorageView,
    config: DatabaseConfigView,
    path: Seq<char>,
    raws: Seq<Seq<char>>,
) -> DatabaseStorageView
    decreases raws.len(),
{
    if raws.len() == 0 {
        s
    } else {
        write_tag(write_tags(s, config, path, raws.drop_last()), config, path, raws.last())
    }
}

/// The index after each of `raws` was taken from `path`, first to last.
pub open spec fn erase_tags(
    s: DatabaseStorageView,
    path: Seq<char>,
    raws: Seq<Seq<char>>,
) -> DatabaseStorageView
    decreases raws.len(),
{
    if raws.len() == 0 {
        s
    } else {
        erase_tags(s, path, raws.drop_last()).remove_tag(path, classify(raws.last()))
    }
}

/// A database: where it lies, its tag policy and its index.
pub struct Database {
    path: String,
    config: DatabaseConfig,
    storage: DatabaseStorage,
}

/// What a `Database` stands for.
pub struct DatabaseView {
    /// The database directory.
    pub path: Seq<char>,
    pub config: DatabaseConfigView,
    pub storage: DatabaseStorageView,
}

impl View for Database {
    type V = DatabaseView;

    closed spec fn view(&self) -> DatabaseView {
        DatabaseView { path: self.path@, config: self.config@, storage: self.storage@ }
    }
}

impl DatabaseView {
    /// The index is well formed.
    pub open spec fn wf(self) -> bool {
        self.storage.wf()
    }

    /// The root of the database: the parent of the database directory.
    pub open spec fn root_dir(self) -> Result<Seq<char>, DatabaseErrorView> {
        match path_parent(self.path) {
            Some(root) => Ok(root),
            None => Err(DatabaseErrorView::RootDirNotFound),
        }
    }

    /// The full path of the file that the index knows as `file_path`.
    pub open spec fn absolute_path(self, file_path: Seq<char>) -> Result<
        Seq<char>,
        DatabaseErrorView,
    > {
        match self.root_dir() {
            Ok(root) => Ok(path_join(root, file_path)),
            Err(e) => Err(e),
        }
    }

    /// The path under which the index knows the file `file`.
    pub open spec fn relative_path(self, file: Seq<char>) -> Result<Seq<char>, DatabaseErrorView> {
        match self.root_dir() {
            Ok(root) => match path_strip_prefix(file, root) {
                Some(relative) => Ok(relative),
                None => Err(DatabaseErrorView::FileNotFound(file)),
            },
            Err(e) => Err(e),
        }
    }

    /// The database with another index.
    pub open spec fn with_storage(self, storage: DatabaseStorageView) -> DatabaseView {
        DatabaseView { storage, ..self }
    }

    /// The database after `tag` was written for the relative path `path`:
    /// the tags of the alias if `tag` names one, else `tag` itself, and of
    /// these only what the policy allows.
    pub open spec fn add_tag(self, path: Seq<char>, tag: Seq<char>) -> DatabaseView {
        self.with_storage(write_tags(self.storage, self.config, path, self.config.expand(tag)))
    }

    /// The database after `tag` was taken from the relative path `path`: the
    /// tags of the alias if `tag` names one, else `tag` itself, allowed or
    /// not.
    pub open spec fn remove_tag(self, path: Seq<char>, tag: Seq<char>) -> DatabaseView {
        self.with_storage(erase_tags(self.storage, path, self.config.expand(tag)))
    }

    /// The database after a cleanup: without the files whose path is one of
    /// `missing`, and without the tags that the policy does not allow.
    pub open spec fn cleanup(self, missing: Seq<Seq<char>>) -> DatabaseView {
        self.with_storage(self.storage.without(missing).retain_tags(self.config))
    }

    /// The files that match `query`, ordered by path.
    pub open spec fn search(self, query: crate::search::parser::ExpressionView) -> Seq<
        SearchResultView,
    > {
        sorted_by(self.storage.search(query), path_key())
    }

    /// The database after the file with the relative path `old_path` got
    /// the relative path `new`.
    pub open spec fn move_file(self, old_path: Seq<char>, new: Seq<char>) -> DatabaseView {
        self.with_storage(self.storage.move_file(old_path, new))
    }
}

impl Database {
    /// The database that lies in the directory `path`, with the policy
    /// `config` and the index `storage`.
    pub fn load(path: String, config: DatabaseConfig, storage: DatabaseStorage) -> (database:
        Database)
        ensures
            database@ == (DatabaseView { path: path@, config: config@, storage: storage@ }),
    {
        Database { path, config, storage }
    }

    /// The tag policy of the database.
    pub fn config(&self) -> (config: &DatabaseConfig)
        ensures
            config@ == self@.config,
    {
        &self.config
    }

    /// The index of the database.
    pub fn storage(&self) -> (storage: &DatabaseStorage)
        ensures
            storage@ == self@.storage,
    {
        &self.storage
    }

    /// The root directory of the database, or `RootDirNotFound` where the
    /// database directory has no parent.
    pub fn root_dir(&self) -> (r: Result<String, DatabaseError>)
        ensures
            match self@.root_dir() {
                Ok(root) => r matches Ok(found) && found@ == root,
                Err(e) => r matches Err(error) && error@ == e,
            },
    {
        match find::parent_of(self.path.as_str()) {
            Some(root) => Ok(root),
            None => Err(DatabaseError::RootDirNotFound),
        }
    }

    /// The full path of the file that the index knows as `file_path`.
    pub fn get_absolute_path(&self, file_path: &str) -> (r: Result<String, DatabaseError>)
        ensures
            match self@.absolute_path(file_path@) {
                Ok(path) => r matches Ok(found) && found@ == path,
                Err(e) => r matches Err(error) && error@ == e,
            },
    {
        match self.root_dir() {
            Ok(root) => Ok(find::join(root.as_str(), file_path)),
            Err(e) => Err(e),
        }
    }

    /// The path under which the index knows the file `file`: `file` relative
    /// to the root. Fails with `FileNotFound` where `file` does not lie under
    /// the root.
    pub fn get_relative_path(&self, file: &str) -> (r: Result<String, DatabaseError>)
        ensures
            match self@.relative_path(file@) {
                Ok(path) => r matches Ok(found) && found@ == path,
                Err(e) => r matches Err(error) && error@ == e,
            },
    {
        match self.root_dir() {
            Ok(root) => find::path_relative_to_db_root(file, root.as_str()),
            Err(e) => Err(e),
        }
    }

    /// Adds `tag` to `file`. See `add_tag_at` for what is written. Where
    /// `file` does not lie under the root nothing changes.
    pub fn add_tag(&mut self, file: &str, tag: &String) -> (r: Result<(), DatabaseError>)
        ensures
            match old(self)@.relative_path(file@) {
                Ok(relative) => r is Ok && final(self)@ == old(self)@.add_tag(relative, tag@),
                Err(e) => r matches Err(error) && error@ == e && final(self)@ == old(self)@,
            },
            old(self)@.wf() ==> final(self)@.wf(),
    {
        match self.get_relative_path(file) {
            Ok(relative_path) => {
                self.add_tag_at(relative_path.as_str(), tag);
                Ok(())
            },
            Err(e) => Err(e),
        }
    }

    /// Adds `tag` to the file with the relative path `relative_path`.
    ///
    /// If `tag` names an alias, the tags of the alias are written in its
    /// place. What the policy does not allow is left out. A text with a `:`
    /// is written as an attribute, any other as a tag.
    pub fn add_tag_at(&mut self, relative_path: &str, tag: &String)
        ensures
            final(self)@ == old(self)@.add_tag(relative_path@, tag@),
            old(self)@.wf() ==> final(self)@.wf(),
    {
        let tags = self.config.expand(tag);
        let ghost raws = tags.deep_view();
        let mut i: usize = 0;
        while i < tags.len()
            invariant
                i <= tags.len(),
                raws == tags.deep_view(),
                self.path == old(self).path,
                self.config == old(self).config,
                self.storage@ == write_tags(
                    old(self).storage@,
                    old(self).config@,
                    relative_path@,
                    raws.take(i as int),
                ),
                old(self)@.wf() ==> self.storage@.wf(),
            decreases tags.len() - i,
        {
            proof {
                assert(raws.take(i + 1).drop_last() =~= raws.take(i as int));
                assert(raws.take(i + 1).last() == raws[i as int]);
            }
            let raw: &String = tags[i];
            if self.config.tag_allowed(raw) {
                match Tag::new(raw.as_str()) {
                    Tag::Key(key) => self.storage.add_tag(relative_path, &key),
                    Tag::KeyValue { key, value } => self.storage.add_attribute(
                        relative_path,
                        key,
                        value,
                    ),
                }
            }
            i = i + 1;
        }
        assert(raws.take(tags.len() as int) =~= raws);
    }

    /// Removes `tag` from `file`. See `remove_tag_at` for what is removed.
    /// Where `file` does not lie under the root nothing changes.
    pub fn remove_tag(&mut self, file: &str, tag: &String) -> (r: Result<(), DatabaseError>)
        ensures
            match old(self)@.relative_path(file@) {
                Ok(relative) => r is Ok && final(self)@ == old(self)@.remove_tag(relative, tag@),
                Err(e) => r matches Err(error) && error@ == e && final(self)@ == old(self)@,
            },
            old(self)@.wf() ==> final(self)@.wf(),
    {
        match self.get_relative_path(file) {
            Ok(relative_path) => {
                self.remove_tag_at(relative_path.as_str(), tag);
                Ok(())
            },
            Err(e) => Err(e),
        }
    }

    /// Removes `tag` from the file with the relative path `relative_path`.
    ///
    /// If `tag` names an alias, the tags of the alias are removed. The policy
    /// is not asked. A text with a `:` names an attribute, any other a tag.
    /// Nothing is an error: what is not there is not removed, and the file
    /// stays known even without tags.
    pub fn remove_tag_at(&mut self, relative_path: &str, tag: &String)
        ensures
            final(self)@ == old(self)@.remove_tag(relative_path@, tag@),
            old(self)@.wf() ==> final(self)@.wf(),
    {
        let tags = self.config.expand(tag);
        let ghost raws = tags.deep_view();
        let mut i: usize = 0;
        while i < tags.len()
            invariant
                i <= tags.len(),
                raws == tags.deep_view(),
                self.path == old(self).path,
                self.config == old(self).config,
                self.storage@ == erase_tags(old(self).storage@, relative_path@, raws.take(i as int)),
                old(self)@.wf() ==> self.storage@.wf(),
            decreases tags.len() - i,
        {
            proof {
                assert(raws.take(i + 1).drop_last() =~= raws.take(i as int));
                assert(raws.take(i + 1).last() == raws[i as int]);
            }
            let parsed_tag = Tag::new(tags[i].as_str());
            self.storage.remove_tag(relative_path, &parsed_tag);
            i = i + 1;
        }
        assert(raws.take(tags.len() as int) =~= raws);
    }

    /// Cleans the database up:
    /// - removes the files whose relative path is one of `missing`, which are
    ///   the files that no longer exist;
    /// - removes from the files that are left the tags that the policy does
    ///   not allow. Attributes stay, and so do files without tags.
    pub fn cleanup(&mut self, missing: &Vec<String>)
        ensures
            final(self)@ == old(self)@.cleanup(missing.deep_view()),
            old(self)@.wf() ==> final(self)@.wf(),
    {
        self.storage.remove_missing(missing);
        self.storage.retain_allowed_tags(&self.config);
    }

    /// The files that match `search_term`, ordered by path.
    pub fn search(&self, search_term: Expression) -> (results: Vec<SearchResult>)
        ensures
            results.deep_view() == self@.search(search_term@),
    {
        let mut results = self.storage.search(search_term);
        sorting::sort_by_path(&mut results);
        results
    }

    /// Moves all that is known of the file `old_path` to `new` in the index.
    /// Fails, and changes nothing, where one of the two does not lie under
    /// the root or `old_path` is not known.
    pub fn move_file(&mut self, old_path: &str, new: &str) -> (r: Result<(), DatabaseError>)
        ensures
            match old(self)@.relative_path(old_path@) {
                Err(e) => r matches Err(error) && error@ == e && final(self)@ == old(self)@,
                Ok(from) => match old(self)@.relative_path(new@) {
                    Err(e) => r matches Err(error) && error@ == e && final(self)@ == old(self)@,
                    Ok(to) => match old(self)@.storage.find(from) {
                        None => r matches Err(error) && error@ == DatabaseErrorView::FileNotFound(
                            from,
                        ) && final(self)@ == old(self)@,
                        Some(_) => r is Ok && final(self)@ == old(self)@.move_file(from, to),
                    },
                },
            },
            old(self)@.wf() ==> final(self)@.wf(),
    {
        let old_relative = match self.get_relative_path(old_path) {
            Ok(path) => path,
            Err(e) => {
                return Err(e);
            },
        };
        let new_relative = match self.get_relative_path(new) {
            Ok(path) => path,
            Err(e) => {
                return Err(e);
            },
        };
        self.move_file_at(old_relative.as_str(), new_relative)
    }

    /// Moves all that is known of the file with the relative path
    /// `old_path` to the relative path `new`. The file keeps its tags and
    /// attributes; what was known of `new` is lost. Fails with
    /// `FileNotFound`, and changes nothing, where `old_path` is not known.
    pub fn move_file_at(&mut self, old_path: &str, new: String) -> (r: Result<(), DatabaseError>)
        ensures
            match old(self)@.storage.find(old_path@) {
                None => r matches Err(error) && error@ == DatabaseErrorView::FileNotFound(
                    old_path@,
                ) && final(self)@ == old(self)@,
                Some(_) => r is Ok && final(self)@ == old(self)@.move_file(old_path@, new@),
            },
            old(self)@.wf() ==> final(self)@.wf(),
    {
        self.storage.move_file(old_path, new)
    }

    /// The tags and attributes of `file`. Fails with `FileNotFound` and the
    /// path `file` where the file does not lie under the root or is not known.
    pub fn get_file_info(&self, file: &str) -> (r: Result<SearchResult, DatabaseError>)
        ensures
            match self@.relative_path(file@) {
                Err(e) => r matches Err(error) && error@ == e,
                Ok(relative) => match self@.storage.get_file(relative) {
                    Some(info) => r matches Ok(found) && found@ == info,
                    None => r matches Err(error) && error@ == DatabaseErrorView::FileNotFound(
                        file@,
                    ),
                },
            },
    {
        match self.get_relative_path(file) {
            Err(e) => Err(e),
            Ok(relative_path) => match self.storage.get_file_from_path(relative_path.as_str()) {
                Ok(info) => Ok(info),
                Err(_) => Err(DatabaseError::FileNotFound(file.to_owned())),
            },
        }
    }
}

} // verus!
