use vstd::prelude::*;

verus! {

/// What a run is asked to do.
pub struct Args {
    /// Top level directory to create shortcuts within; it may start with
    /// `~`, `$HOME` or `${HOME}`.
    pub root: String,
    /// How many levels of directories below the root get shortcuts.
    pub depth: usize,
    /// Where the script is written.
    pub dest: String,
    /// Accepted and kept, but no directory is left out because of it.
    pub excludes: Option<Vec<String>>,
}

} // verus!
