use vstd::prelude::*;

verus! {

/// The failures that the engine reports.
#[derive(Debug, Clone, Copy, PartialEq, Eq, Structural)]
pub enum ErrorKind {
    /// A required configuration field is missing or invalid.
    Config,
    /// A hash string has the wrong decoded length or is not valid hex.
    HashFormat,
    /// A referenced configuration or history entry is absent from state.
    StateLookup,
    /// The completion service failed, gave no result, or reported no usage.
    ExternalService,
    /// A stored payload could not be decoded into its expected type.
    Serialization,
    /// Encryption or decryption failed: a wrong key, or damaged or malformed input.
    Crypto,
}

} // verus!
