//! Paths: where the database of a file lies, and how a file is named
//! relative to it.
//!
//! Paths are handled as text. What a path's parent is, how two paths join
//! and whether one lies under another is left to `std::path`, for the
//! platform the crate is built for.

use super::error::{DatabaseError, DatabaseErrorView};
use vstd::prelude::*;

verus! {

/// The name of the directory that holds a database. The directory that
/// contains it is the root of the database.
pub const DATABASE_DIR: &'static str = ".sea-serpent";

/// The parent of the path `path`, as `std::path::Path::parent` gives it.
pub uninterp spec fn path_parent(path: Seq<char>) -> Option<Seq<char>>;

/// The path `path` joined onto `base`, as `std::path::Path::join` gives it.
pub uninterp spec fn path_join(base: Seq<char>, path: Seq<char>) -> Seq<char>;

/// The path `path` relative to `base`, as `std::path::Path::strip_prefix`
/// gives it: `None` where `path` does not lie under `base`.
pub uninterp spec fn path_strip_prefix(path: Seq<char>, base: Seq<char>) -> Option<Seq<char>>;

/// The parent of `path`, by `std::path::Path::parent`.
///
/// Trusted: the contract only names the result. `Path::parent` depends on
/// nothing but its argument; `None` comes for a root and for the empty path.
/// The parent is a part of `path` and so is text again.
#[verifier::external_body]
pub(crate) fn parent_of(path: &str) -> (parent: Option<String>)
    ensures
        parent.deep_view() == path_parent(path@),
{
    match std::path::Path::new(path).parent() {
        Some(parent) => Some(parent.to_string_lossy().into_owned()),
        None => None,
    }
}

/// `path` joined onto `base`, by `std::path::Path::join`.
///
/// Trusted: the contract only names the result, which depends on nothing but
/// the two arguments and, made of them, is text again.
#[verifier::external_body]
pub(crate) fn join(base: &str, path: &str) -> (joined: String)
    ensures
        joined@ == path_join(base@, path@),
{
    std::path::Path::new(base).join(path).to_string_lossy().into_owned()
}

/// `path` without the prefix `base`, by `std::path::Path::strip_prefix`.
///
/// Trusted: the contract only names the result, which depends on nothing but
/// the two arguments. `strip_prefix` fails where `base` is not a prefix of
/// `path`; that is the `None` here. What is left is a part of `path` and so
/// is text again.
#[verifier::external_body]
pub(crate) fn strip_prefix(path: &str, base: &str) -> (rest: Option<String>)
    ensures
        rest.deep_view() == path_strip_prefix(path@, base@),
{
    match std::path::Path::new(path).strip_prefix(base) {
        Ok(rest) => Some(rest.to_string_lossy().into_owned()),
        Err(_) => None,
    }
}

/// The path of `path` relative to the root directory `database_root`, or
/// `FileNotFound` with `path` where it does not lie under the root.
///
/// Both paths are taken as they are: to find a file whatever way it was
/// named, hand in absolute paths with all links resolved.
pub fn path_relative_to_db_root(path: &str, database_root: &str) -> (r: Result<
    String,
    DatabaseError,
>)
    ensures
        match path_strip_prefix(path@, database_root@) {
            Some(relative) => r matches Ok(found) && found@ == relative,
            None => r matches Err(e) && e@ == DatabaseErrorView::FileNotFound(path@),
        },
{
    match strip_prefix(path, database_root) {
        Some(relative) => Ok(relative),
        None => Err(DatabaseError::FileNotFound(path.to_owned())),
    }
}

/// What to do next when looking for the database of a directory.
#[derive(Debug)]
pub enum FindStep {
    /// The database directory is this one.
    Found(String),
    /// Look into this directory, the parent of the last.
    Continue(String),
    /// No directory is left: there is no database.
    NotFound,
}

/// What a `FindStep` stands for.
pub enum FindStepView {
    Found(Seq<char>),
    Continue(Seq<char>),
    NotFound,
}

impl View for FindStep {
    type V = FindStepView;

    open spec fn view(&self) -> FindStepView {
        match self {
            FindStep::Found(path) => FindStepView::Found(path@),
            FindStep::Continue(path) => FindStepView::Continue(path@),
            FindStep::NotFound => FindStepView::NotFound,
        }
    }
}

/// One step of the search for a database from a directory upwards.
///
/// `contains_database_dir` says whether the directory `path` holds a
/// directory named `DATABASE_DIR`. If so, that directory is the database.
/// Else the search goes on in the parent of `path`, and ends without a
/// database where `path` has no parent.
pub fn find_database_dir(path: &str, contains_database_dir: bool) -> (step: FindStep)
    ensures
        step@ == if contains_database_dir {
            FindStepView::Found(path_join(path@, DATABASE_DIR@))
        } else {
            match path_parent(path@) {
                Some(parent) => FindStepView::Continue(parent),
                None => FindStepView::NotFound,
            }
        },
{
    if contains_database_dir {
        FindStep::Found(join(path, DATABASE_DIR))
    } else {
        match parent_of(path) {
            Some(parent) => FindStep::Continue(parent),
            None => FindStep::NotFound,
        }
    }
}

} // verus!
