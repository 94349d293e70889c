//! Startup configuration handed in by the surrounding program.

use vstd::prelude::*;

verus! {

/// The server's configuration: the directory that `/files/` routes read from
/// and write to. `None` means the current directory.
pub struct Args {
    pub directory: Option<String>,
}

} // verus!
