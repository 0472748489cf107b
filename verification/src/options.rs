use vstd::prelude::*;

verus! {

/// The command-line switches that change how paths are removed.
#[derive(Debug, Clone, Copy)]
pub struct Options {
    /// Remove directories and their contents.
    pub recursive: bool,
    /// Treat a path that does not exist as already removed.
    pub force: bool,
    /// Report every path that was removed.
    pub verbose: bool,
}

impl Default for Options {
    fn default() -> (r: Self)
        ensures
            !r.recursive,
            !r.force,
            !r.verbose,
    {
        Options { recursive: false, force: false, verbose: false }
    }
}

} // verus!
