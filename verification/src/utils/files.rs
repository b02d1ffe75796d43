//! Which of the entries that were found a command works on.

use vstd::prelude::*;

verus! {

/// How the files of a command are looked for.
#[derive(Debug, PartialEq, Eq, Clone, Copy, Structural)]
pub struct FileSearchSettings {
    /// Whether directories are searched through.
    pub recursive: bool,
    /// Whether paths are read from standard input as well.
    pub stdin: bool,
    /// Which kinds of entries are taken.
    pub filetype_filter: FiletypeFilter,
}

/// Which kinds of entries are taken.
#[derive(Debug, PartialEq, Eq, Clone, Copy, Structural)]
pub enum FiletypeFilter {
    All,
    FilesOnly,
    FoldersOnly,
    Nothing,
}

/// An entry that was found, with what is known of its kind. An entry that
/// does not exist is neither a file nor a directory.
#[derive(Debug)]
pub struct Candidate {
    pub path: String,
    pub is_file: bool,
    pub is_dir: bool,
}

/// What a `Candidate` stands for.
pub struct CandidateView {
    pub path: Seq<char>,
    pub is_file: bool,
    pub is_dir: bool,
}

impl View for Candidate {
    type V = CandidateView;

    open spec fn view(&self) -> CandidateView {
        CandidateView { path: self.path@, is_file: self.is_file, is_dir: self.is_dir }
    }
}

impl DeepView for Candidate {
    type V = CandidateView;

    open spec fn deep_view(&self) -> CandidateView {
        self.view()
    }
}

impl FiletypeFilter {
    /// Whether the filter takes an entry of this kind.
    pub open spec fn takes(self, is_file: bool, is_dir: bool) -> bool {
        match self {
            FiletypeFilter::All => true,
            FiletypeFilter::FilesOnly => is_file,
            FiletypeFilter::FoldersOnly => is_dir,
            FiletypeFilter::Nothing => false,
        }
    }

    /// Whether the filter takes an entry of this kind.
    pub fn accepts(&self, is_file: bool, is_dir: bool) -> (r: bool)
        ensures
            r == self.takes(is_file, is_dir),
    {
        match self {
            FiletypeFilter::All => true,
            FiletypeFilter::FilesOnly => is_file,
            FiletypeFilter::FoldersOnly => is_dir,
            FiletypeFilter::Nothing => false,
        }
    }
}

/// The test whether `filter` takes a candidate.
pub open spec fn taken_by(filter: FiletypeFilter) -> spec_fn(CandidateView) -> bool {
    |candidate: CandidateView| filter.takes(candidate.is_file, candidate.is_dir)
}

/// The paths of the candidates that `filter` takes, in their order.
pub open spec fn selected_paths(candidates: Seq<CandidateView>, filter: FiletypeFilter) -> Seq<
    Seq<char>,
> {
    candidates.filter(taken_by(filter)).map_values(|candidate: CandidateView| candidate.path)
}

/// The files that a command works on: of the entries that were found, those
/// of the kind that the settings ask for, in the order in which they were
/// found.
pub fn get_files(candidates: &Vec<Candidate>, settings: FileSearchSettings) -> (files: Vec<String>)
    ensures
        files.deep_view() == selected_paths(candidates.deep_view(), settings.filetype_filter),
{
    let ghost all = candidates.deep_view();
    let ghost keep = taken_by(settings.filetype_filter);
    let ghost path_of = |candidate: CandidateView| candidate.path;
    let mut files: Vec<String> = Vec::new();
    let mut i: usize = 0;
    proof {
        reveal(Seq::filter);
        assert(all.take(0) =~= Seq::<CandidateView>::empty());
        assert(files.deep_view() =~= all.take(0).filter(keep).map_values(path_of));
    }
    while i < candidates.len()
        invariant
            i <= candidates.len(),
            all == candidates.deep_view(),
            keep == taken_by(settings.filetype_filter),
            path_of == |candidate: CandidateView| candidate.path,
            files.deep_view() == all.take(i as int).filter(keep).map_values(path_of),
        decreases candidates.len() - i,
    {
        let ghost before = files.deep_view();
        proof {
            assert(all.take(i + 1) =~= all.take(i as int).push(all[i as int]));
            Seq::lemma_filter_push(all.take(i as int), all[i as int], keep);
        }
        let candidate = &candidates[i];
        if settings.filetype_filter.accepts(candidate.is_file, candidate.is_dir) {
            files.push(candidate.path.clone());
            proof {
                assert(files.deep_view() =~= before.push(all[i as int].path));
                assert(all.take(i + 1).filter(keep).map_values(path_of) =~= before.push(
                    all[i as int].path,
                ));
            }
        }
        i = i + 1;
    }
    proof {
        assert(all.take(candidates.len() as int) =~= all);
    }
    files
}

} // verus!
