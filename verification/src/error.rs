use vstd::prelude::*;

verus! {

/// Failure taxonomy of the storage core. Corruption of an on-disk table is
/// fatal for that file, is never silently repaired, and carries a
/// human-readable reason for the caller to report.
#[derive(Debug)]
pub enum Error {
    ScTableCorrupt(String),
}

impl Error {
    /// A corruption error for one on-disk table, with its reason.
    pub fn sc_table_corrupt(reason: String) -> (r: Error)
        ensures
            r == Error::ScTableCorrupt(reason),
    {
        Error::ScTableCorrupt(reason)
    }

    /// The human-readable reason carried by the error.
    pub open spec fn reason_spec(&self) -> Seq<char> {
        match self {
            Error::ScTableCorrupt(s) => s@,
        }
    }

    /// Read access to the reason text.
    pub fn reason(&self) -> (r: &String)
        ensures
            r@ == self.reason_spec(),
    {
        match self {
            Error::ScTableCorrupt(s) => s,
        }
    }
}

} // verus!
