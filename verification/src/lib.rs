//! Searching a tree of exported e-mail files for a keyword and mirroring the
//! files that hold it into another tree.
//!
//! The library decides; reading directories and files, copying and printing
//! are left to the caller, who hands it paths, bytes and outcomes.
//!
//! - `paths`: paths as lists of names, extensions, and where a file goes in
//!   the destination tree;
//! - `text`: decoding, case folding, trimming and substring search;
//! - `scan`: the test of a file's content for the keyword;
//! - `search`: the decision on each listed file, and the match set;
//! - `plan`: the steps that copy a file or mirror a directory;
//! - `report`: the lines for the console and the log, the summary, the exit
//!   code;
//! - `setup`: the request for a run, from what the operator chose and typed;
//! - `trees`: a model of the files, and what a run does to them.

pub mod paths;
pub mod plan;
pub mod report;
pub mod scan;
pub mod search;
pub mod setup;
pub mod text;
pub mod trees;
