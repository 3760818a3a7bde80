//! The ways in which discovery, resolution and pinning can fail.

use vstd::prelude::*;

verus! {

/// Why an operation of this crate did not succeed.
#[derive(Clone, Copy, Debug, PartialEq, Eq, Structural)]
pub enum Error {
    /// A topology or process source could not be read.
    Io,
    /// A topology source held something other than what its format allows.
    Parse,
    /// The caller may not query or change the affinity of the process.
    Permission,
    /// The process was gone by the time it was queried or changed.
    Race,
    /// A selection does not fit the discovered complexes.
    Config,
}

impl Error {
    /// Whether the failure concerns one process only, so that a loop over many
    /// processes goes on after it.
    pub open spec fn recoverable(self) -> bool {
        self is Permission || self is Race
    }

    /// Tells a failure that ends one attempt from one that ends the run.
    pub fn is_recoverable(&self) -> (r: bool)
        ensures
            r == self.recoverable(),
    {
        match self {
            Error::Permission | Error::Race => true,
            Error::Io | Error::Parse | Error::Config => false,
        }
    }
}

} // verus!
