//! The persisted configuration record and its discovery error. Reading the
//! configuration file and discovering the game client's install path are
//! the caller's concern; the library only defines the shapes they exchange.

use vstd::prelude::*;

verus! {

/// The serving configuration: the launcher executable's file name, the
/// game client's install directory, and the port served on.
#[derive(Debug, Clone)]
pub struct Setting {
    pub launcher_name: String,
    pub base_path: String,
    pub port: u16,
}

impl Setting {
    pub fn new(launcher_name: String, base_path: String, port: u16) -> (r: Setting)
        ensures
            r.launcher_name == launcher_name,
            r.base_path == base_path,
            r.port == port,
    {
        Setting { launcher_name, base_path, port }
    }
}

/// Why the install path could not be derived.
#[derive(Debug, Clone, Copy, PartialEq, Eq, Structural)]
pub enum GetPathError {
    ProcessNotFound,
}

} // verus!
