//! The ways in which an operation of the marketplace can fail.

use vstd::prelude::*;

verus! {

/// Why an operation was refused. A refused operation changes nothing.
#[derive(Clone, Copy, Debug, PartialEq, Eq, Structural)]
pub enum GeocabError {
    /// A cell string is not five characters of the geohash alphabet.
    InvalidGeohash,
    /// A value is outside the range that a conversion accepts: a latitude
    /// beyond 90 degrees, a longitude beyond 180 degrees, or a neighbour cell
    /// that would lie off the map.
    GenericError,
    /// No driver is published in the passenger's cell or its neighbours.
    NoDriversAvailable,
    /// The caller is not the owner of the platform.
    NotOwner,
    /// The escrow cannot cover the payout.
    TransferFailure,
}

impl GeocabError {
    /// The name of the error, for a caller that reports it.
    pub fn name(&self) -> (name: &'static str)
        ensures
            name@ == match *self {
                GeocabError::InvalidGeohash => "InvalidGeohash"@,
                GeocabError::GenericError => "GenericError"@,
                GeocabError::NoDriversAvailable => "NoDriversAvailable"@,
                GeocabError::NotOwner => "NotOwner"@,
                GeocabError::TransferFailure => "TransferFailure"@,
            },
    {
        match self {
            GeocabError::InvalidGeohash => "InvalidGeohash",
            GeocabError::GenericError => "GenericError",
            GeocabError::NoDriversAvailable => "NoDriversAvailable",
            GeocabError::NotOwner => "NotOwner",
            GeocabError::TransferFailure => "TransferFailure",
        }
    }
}

} // verus!
