use vstd::prelude::*;

verus! {

/// The options a run is configured with, built once at startup and passed
/// to whatever needs them: the repository to read, the two branch names to
/// diff, where to write the report, and whether to skip tracker lookups.
#[derive(Debug)]
pub struct CliOptions {
    pub repo: String,
    pub base_branch: String,
    pub release_branch: String,
    pub output_file: Option<String>,
    pub offline: bool,
}

} // verus!
