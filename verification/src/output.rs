//! Where a download goes.
use vstd::prelude::*;

verus! {

/// Output destination for downloads.
#[derive(Debug)]
pub enum Output {
    /// Download to memory
    Memory,
    /// Download to file
    File(std::path::PathBuf),
}

} // verus!
