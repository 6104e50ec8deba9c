//! Setting a run up from what the operator chose and typed.

use vstd::prelude::*;

use crate::paths::FilePath;
use crate::scan::{CasePolicy, Keyword};
use crate::search::SearchRequest;
use crate::text::{trim, trimmed};

verus! {

/// Why a run could not be set up.
#[derive(Clone, Copy, Debug, PartialEq, Eq, Structural)]
pub enum SetupError {
    /// The operator closed the directory picker without choosing.
    NoDirectorySelected,
}

impl SetupError {
    /// What the operator is told.
    pub fn message(&self) -> (text: String)
        ensures
            text@ == "No directory selected!"@,
    {
        "No directory selected!".to_owned()
    }
}

/// The directory that the operator chose. Fails where none was chosen, so that
/// no run starts on a path that nobody picked.
pub fn chosen_directory(selection: Option<FilePath>) -> (chosen: Result<FilePath, SetupError>)
    ensures
        match chosen {
            Ok(directory) => selection == Some(directory),
            Err(why) => why == SetupError::NoDirectorySelected && selection is None,
        },
{
    match selection {
        Some(directory) => Ok(directory),
        None => Err(SetupError::NoDirectorySelected),
    }
}

/// The request for a search of `source_root` into `destination_root`. The
/// keyword is the line that the operator typed, without the whitespace around
/// it; it may be empty.
pub fn request_from_input(
    source_root: FilePath,
    destination_root: FilePath,
    keyword_line: &str,
    policy: CasePolicy,
) -> (request: SearchRequest)
    ensures
        request.source_root == source_root,
        request.destination_root == destination_root,
        request.keyword.keyword() == trimmed(keyword_line@),
        request.keyword.case_policy() == policy,
{
    let keyword = trim(keyword_line);
    SearchRequest { source_root, destination_root, keyword: Keyword::new(keyword.as_str(), policy) }
}

} // verus!
