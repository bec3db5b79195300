//! The options that the command line gives.
use vstd::prelude::*;

use crate::path::FilePath;

verus! {

/// Command-line options: the two roots to keep in step, and the configuration file.
#[derive(Debug)]
pub struct Opt {
    /// Source sync directory, the local folder.
    pub source: Option<FilePath>,
    /// Destination directory, the e-ink device folder.
    pub destination: Option<FilePath>,
    /// Configuration file that records the source and destination folders.
    pub config: Option<FilePath>,
    /// Record the given source and destination in the configuration file.
    pub write: bool,
}

} // verus!
