//! Where the configuration lies, and the two roots that it records.
use vstd::prelude::*;

use crate::path::{FilePath, PathView};

verus! {

/// The configuration file of the program.
pub struct Config {
    path: FilePath,
}

impl View for Config {
    type V = PathView;

    closed spec fn view(&self) -> PathView {
        self.path@
    }
}

impl Config {
    pub fn new(path: FilePath) -> (r: Config)
        ensures
            r@ == path@,
    {
        Config { path }
    }

    pub fn get_path(&self) -> (r: &FilePath)
        ensures
            r@ == self@,
    {
        &self.path
    }
}

/// What the configuration file holds: the local (source) and foreign (destination) roots.
#[derive(Debug)]
pub struct ConfigStorage {
    pub source: FilePath,
    pub destination: FilePath,
}

impl ConfigStorage {
    pub fn new(source: FilePath, destination: FilePath) -> (r: ConfigStorage)
        ensures
            r.source@ == source@,
            r.destination@ == destination@,
    {
        ConfigStorage { source, destination }
    }

    /// The two roots, source first.
    pub fn into_paths(self) -> (r: (FilePath, FilePath))
        ensures
            r.0@ == self.source@,
            r.1@ == self.destination@,
    {
        (self.source, self.destination)
    }
}

} // verus!
