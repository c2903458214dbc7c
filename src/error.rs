use vstd::prelude::*;

verus! {

/// Why a link conditioner configuration was refused.
#[derive(Clone, Copy, Debug, PartialEq, Eq, Structural)]
pub enum ConfigError {
    /// The loss probability lies above one.
    LossProbabilityOutOfRange,
    /// The duplication probability lies above one.
    DuplicationProbabilityOutOfRange,
}

/// What a transport operation can report.
#[derive(Clone, Debug, PartialEq, Eq)]
pub enum ClientSocketError {
    /// A datagram came from an address other than the configured remote.
    UnexpectedSender,
    /// The underlying socket or host bridge failed; the text describes the cause.
    Io(String),
    /// The conditioner configuration was invalid.
    Configuration(ConfigError),
}

} // verus!
