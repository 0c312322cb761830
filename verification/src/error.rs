//! The two ways in which reading a value can fail.

use vstd::prelude::*;

verus! {

/// Why a value could not be read.
#[derive(Debug, PartialEq, Eq, Clone)]
pub enum BitcoinError {
    /// The buffer ends before a field is complete.
    InsufficientBytes,
    /// The content is present but is not what the format allows.
    InvalidFormat,
}

} // verus!
