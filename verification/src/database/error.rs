//! What can go wrong in the database.

use vstd::prelude::*;

verus! {

/// An error of the database. Where a variant names a path, it holds that path.
#[derive(Debug)]
pub enum DatabaseError {
    /// The current directory cannot be retrieved.
    CurrentDirNotFound,
    /// No database was found from the current directory upwards.
    DatabaseNotFound,
    /// A file cannot be read from disk.
    ReadFromDisk(String),
    /// A file cannot be written.
    WriteToDisk(String),
    /// The stored database is not formatted correctly.
    DatabaseNotFormattedCorrect,
    /// The database directory has no parent to be the root.
    RootDirNotFound,
    /// The file is not known, or does not lie under the root.
    FileNotFound(String),
    /// The directory cannot be the root of a new database.
    InvalidRootDir,
    /// The database could not be set up.
    DBSetup,
}

/// What a `DatabaseError` stands for.
pub enum DatabaseErrorView {
    CurrentDirNotFound,
    DatabaseNotFound,
    ReadFromDisk(Seq<char>),
    WriteToDisk(Seq<char>),
    DatabaseNotFormattedCorrect,
    RootDirNotFound,
    FileNotFound(Seq<char>),
    InvalidRootDir,
    DBSetup,
}

impl View for DatabaseError {
    type V = DatabaseErrorView;

    open spec fn view(&self) -> DatabaseErrorView {
        match self {
            DatabaseError::CurrentDirNotFound => DatabaseErrorView::CurrentDirNotFound,
            DatabaseError::DatabaseNotFound => DatabaseErrorView::DatabaseNotFound,
            DatabaseError::ReadFromDisk(path) => DatabaseErrorView::ReadFromDisk(path@),
            DatabaseError::WriteToDisk(path) => DatabaseErrorView::WriteToDisk(path@),
            DatabaseError::DatabaseNotFormattedCorrect => {
                DatabaseErrorView::DatabaseNotFormattedCorrect
            },
            DatabaseError::RootDirNotFound => DatabaseErrorView::RootDirNotFound,
            DatabaseError::FileNotFound(path) => DatabaseErrorView::FileNotFound(path@),
            DatabaseError::InvalidRootDir => DatabaseErrorView::InvalidRootDir,
            DatabaseError::DBSetup => DatabaseErrorView::DBSetup,
        }
    }
}

impl DatabaseErrorView {
    /// The message of this error.
    pub open spec fn message(self) -> Seq<char> {
        match self {
            DatabaseErrorView::CurrentDirNotFound => "Can't retrieve current directory"@,
            DatabaseErrorView::DatabaseNotFound => {
                "Could not find any database from current directory"@
            },
            DatabaseErrorView::ReadFromDisk(path) => "Can't read "@ + path + " from disk"@,
            DatabaseErrorView::WriteToDisk(path) => "Can't write to file: "@ + path + ""@,
            DatabaseErrorView::DatabaseNotFormattedCorrect => {
                "Database is not formatted correctly"@
            },
            DatabaseErrorView::RootDirNotFound => "Can't find root directory of database"@,
            DatabaseErrorView::FileNotFound(path) => "Can't find file "@ + path + ""@,
            DatabaseErrorView::InvalidRootDir => "Invalid database dir"@,
            DatabaseErrorView::DBSetup => "Failed to setup database"@,
        }
    }
}

impl DatabaseError {
    /// The message of this error.
    pub fn to_string(&self) -> (message: String)
        ensures
            message@ == self@.message(),
    {
        match self {
            DatabaseError::CurrentDirNotFound => "Can't retrieve current directory".to_owned(),
            DatabaseError::DatabaseNotFound => {
                "Could not find any database from current directory".to_owned()
            },
            DatabaseError::ReadFromDisk(path) => describe("Can't read ", path, " from disk"),
            DatabaseError::WriteToDisk(path) => describe("Can't write to file: ", path, ""),
            DatabaseError::DatabaseNotFormattedCorrect => {
                "Database is not formatted correctly".to_owned()
            },
            DatabaseError::RootDirNotFound => "Can't find root directory of database".to_owned(),
            DatabaseError::FileNotFound(path) => describe("Can't find file ", path, ""),
            DatabaseError::InvalidRootDir => "Invalid database dir".to_owned(),
            DatabaseError::DBSetup => "Failed to setup database".to_owned(),
        }
    }
}

/// `before`, `path` and `after` in a row.
fn describe(before: &str, path: &String, after: &str) -> (message: String)
    ensures
        message@ == before@ + path@ + after@,
{
    let mut message = before.to_owned();
    vstd::string::StringExecFns::append(&mut message, path.as_str());
    vstd::string::StringExecFns::append(&mut message, after);
    message
}

} // verus!
