use vstd::prelude::*;

verus! {

/// Errors reported before any search work starts.
#[derive(Clone, Copy, Debug, PartialEq, Eq, Structural)]
pub enum CrackError {
    /// The target digest has a length that matches no supported algorithm.
    InvalidDigestLength { len: usize },
    /// The requested number of workers lies outside `1..=MAX_WORKERS`.
    ConfigurationOutOfRange { workers: usize },
}

} // verus!
