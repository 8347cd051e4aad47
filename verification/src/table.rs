use vstd::prelude::*;

pub mod cache;
pub mod tablefmt;

verus! {

/// Identity of one immutable on-disk table file. The cache manager keys its
/// index by this identity; how an identity maps to a path on disk is the I/O
/// layer's business.
#[derive(Clone, Copy, PartialEq, Eq, Hash, Structural)]
pub struct ScTableFile {
    pub file_id: u64,
}

impl ScTableFile {
    /// The handle for the table file with the given identity.
    pub fn new(file_id: u64) -> (r: ScTableFile)
        ensures
            r == (ScTableFile { file_id }),
    {
        ScTableFile { file_id }
    }
}

} // verus!
