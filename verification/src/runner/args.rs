use vstd::prelude::*;

verus! {

/// What the runner is called with.
#[derive(Debug)]
pub struct Args {
    pub config_files_path: String,
    pub log_files_path: String,
    pub log_level: String,
    pub log_refresh_rate: u64,
}

} // verus!
