//! The operator's settings, as plain values.

use vstd::prelude::*;

verus! {

/// One destination volume: where it is mounted and how many bytes it may hold.
#[derive(Debug)]
pub struct FinalDir {
    pub path: String,
    pub size: u64,
}

/// The settings of a run: the staging directory, the throughput ceiling of a
/// single transfer in bytes per second, and the destination volumes in the
/// order in which they were declared.
#[derive(Debug)]
pub struct UserSet {
    pub source_dir_path: String,
    pub hdd_limit_rate: u64,
    pub final_dirs: Vec<FinalDir>,
}

} // verus!
