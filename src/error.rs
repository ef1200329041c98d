use vstd::prelude::*;

verus! {

/// Why a run stops. Every one of them ends the run.
#[derive(Debug, Clone, Copy, PartialEq, Eq, Structural)]
pub enum ShortcutError {
    /// No home directory is known for the current user.
    HomeUnavailable,
    /// The root directory, once expanded, is not on disk.
    RootNotFound,
    /// A prefix was to be replaced in a path that does not start with it.
    PrefixSubstitutionFailed,
    /// The script could not be created or written.
    WriteFailed,
    /// A path that a shortcut is made from has no directory name where one is needed.
    NoDirectoryName,
}

} // verus!
