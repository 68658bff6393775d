use vstd::prelude::*;

verus! {

/// Default number of bytes per page when no explicit configuration is given.
pub const PAGE_SIZE: usize = 4096;

/// Runtime configuration for a heap file: the page size in bytes.
///
/// The page size is chosen once, at startup, and must stay fixed for the
/// lifetime of a given heap file: every page offset is computed from it.
pub struct Config {
    pub page_size: usize,
}

impl Config {
    /// A configuration is well formed when pages are non-empty.
    pub open spec fn wf(self) -> bool {
        self.page_size > 0
    }

    /// Builds a configuration with an explicit page size.
    pub fn new(page_size: usize) -> (r: Config)
        requires
            page_size > 0,
        ensures
            r.page_size == page_size,
            r.wf(),
    {
        Config { page_size }
    }
}

impl Default for Config {
    /// The default configuration uses 4096-byte pages.
    fn default() -> (r: Config)
        ensures
            r.page_size == PAGE_SIZE,
            r.wf(),
    {
        Config { page_size: PAGE_SIZE }
    }
}

} // verus!
