use vstd::prelude::*;
use std::collections::HashMap;

verus! {

/// One watched directory: the directory to watch recursively and the shell
/// command template to run for each event under it.
#[derive(Debug)]
pub struct DirectoryConfig {
    pub path: String,
    pub command: String,
}

/// The whole configuration: each watched directory under its label (the
/// `<name>` of a `[directories.<name>]` block).
#[derive(Debug)]
pub struct Config {
    pub directories: HashMap<String, DirectoryConfig>,
}

} // verus!
