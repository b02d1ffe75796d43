//! What the commands are asked to do, as plain values.

use crate::logging::SearchPrintOptions;
use crate::utils::files::{FileSearchSettings, FiletypeFilter};
use vstd::prelude::*;

verus! {

/// Which files a command works on.
#[derive(Debug)]
pub struct FileSelection {
    /// Select files recursively through folders.
    pub recursive: bool,
    /// Select directories.
    pub include_dirs: bool,
    /// Don't select files.
    pub exclude_files: bool,
    /// Select files from standard input.
    pub stdin: bool,
    /// The files that were named.
    pub files: Vec<String>,
}

/// What to search for and how to show it.
#[derive(Debug)]
pub struct SearchArgs {
    /// Print results as json.
    pub json: bool,
    /// Attribute to sort output by.
    pub sort_by: Option<String>,
    /// Print absolute path instead of relative.
    pub absolute_path: bool,
    /// Print more information about a file.
    pub info: bool,
    /// Limit the number of results.
    pub limit: Option<usize>,
    /// The words of the search query.
    pub search_terms: Vec<String>,
}

/// The kinds of entries that a selection takes: files unless they are
/// excluded, and directories only if they are included.
pub open spec fn selected_kinds(include_dirs: bool, exclude_files: bool) -> FiletypeFilter {
    match (include_dirs, exclude_files) {
        (false, false) => FiletypeFilter::FilesOnly,
        (false, true) => FiletypeFilter::Nothing,
        (true, false) => FiletypeFilter::All,
        (true, true) => FiletypeFilter::FoldersOnly,
    }
}

impl FileSelection {
    /// How to look for the files of this selection.
    pub fn search_settings(&self) -> (settings: FileSearchSettings)
        ensures
            settings == (FileSearchSettings {
                recursive: self.recursive,
                stdin: self.stdin,
                filetype_filter: selected_kinds(self.include_dirs, self.exclude_files),
            }),
    {
        FileSearchSettings {
            recursive: self.recursive,
            stdin: self.stdin,
            filetype_filter: match (self.include_dirs, self.exclude_files) {
                (false, false) => FiletypeFilter::FilesOnly,
                (false, true) => FiletypeFilter::Nothing,
                (true, false) => FiletypeFilter::All,
                (true, true) => FiletypeFilter::FoldersOnly,
            },
        }
    }
}

impl SearchArgs {
    /// How to print the results of this search.
    pub fn print_options(&self) -> (options: SearchPrintOptions)
        ensures
            options == (SearchPrintOptions { json: self.json, info: self.info }),
    {
        SearchPrintOptions { json: self.json, info: self.info }
    }
}

} // verus!
