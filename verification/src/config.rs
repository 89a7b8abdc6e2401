//! The settings of the server, as far as the event log and the engine's
//! resources go.

use vstd::prelude::*;

verus! {

/// Where the event log lives and how it starts.
#[derive(Debug)]
pub struct Database {
    /// The directory of the store.
    pub path: String,
    /// Whether every partition is dropped when the server starts.
    pub drop_on_start_up: bool,
}

/// Where the engine finds its resources.
#[derive(Debug)]
pub struct Resource {
    /// The directory of the resources.
    pub path: String,
}

} // verus!
