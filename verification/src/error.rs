use vstd::prelude::*;

verus! {

/// What can go wrong while keys are made.
#[derive(Copy, Clone, Debug, PartialEq, Eq, Structural)]
pub enum ExposurelibError {
    /// The random number generator did not deliver.
    RandomKeyGenerationError,
    /// A key could not be derived from its key material.
    KeyDerivationError,
}

impl ExposurelibError {
    /// A short description of the error.
    pub fn message(&self) -> (text: &'static str)
        ensures
            text@ == (match *self {
                ExposurelibError::RandomKeyGenerationError => "CSRNG error"@,
                ExposurelibError::KeyDerivationError => "HKDF error"@,
            }),
    {
        match self {
            ExposurelibError::RandomKeyGenerationError => "CSRNG error",
            ExposurelibError::KeyDerivationError => "HKDF error",
        }
    }
}

/// What a message or a contact history can hold that the protocol rules out. Whatever
/// shows one is dropped; none is passed on to a peer.
#[derive(Copy, Clone, Debug, PartialEq, Eq, Structural)]
pub enum ProtocolViolation {
    /// The sightings of one temporary exposure key name more than one endpoint.
    InconsistentEndpoint,
    /// A forward names a computation that this participant has not joined.
    UnknownComputation,
    /// A forward comes from a predecessor that was never admitted.
    MissingPredecessor,
    /// A forward names no time at which it was seen with high risk by both sides.
    NoSharedEncounter,
    /// A forward comes from a predecessor that this participant never met.
    NeverMet,
    /// This participant has no key of its own for the rolling period of a match.
    MissingOwnKey,
}

} // verus!
