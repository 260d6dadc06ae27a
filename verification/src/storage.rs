//! Block persistence parameters. The library serializes blocks with its
//! own canonical codec; the file reads and writes themselves live in the
//! surrounding program.

use vstd::prelude::*;

verus! {

/// Where block files are kept.
#[derive(Clone, Debug)]
pub struct Storage {
    pub dest: String,
    pub blocks_dir: String,
}

impl Storage {
    /// The default storage layout.
    pub fn new() -> (r: Storage)
        ensures
            r.dest@ == "data"@,
            r.blocks_dir@ == "./data/blocks"@,
    {
        Storage { dest: "data".to_string(), blocks_dir: "./data/blocks".to_string() }
    }
}

} // verus!
