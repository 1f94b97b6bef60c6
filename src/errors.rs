use vstd::prelude::*;

verus! {

/// Why a reading could not be obtained. Both kinds make the relay skip a tick.
#[derive(Clone, Copy, Debug, PartialEq, Eq, Structural)]
pub enum FetchError {
    /// Transport failure or a non-success status: worth trying again.
    Transient,
    /// The provider answered in an unexpected shape.
    Malformed,
}

/// Why a publication did not reach confirmation.
#[derive(Clone, Copy, Debug, PartialEq, Eq, Structural)]
pub enum PublishError {
    /// The ledger refused the transaction.
    Rejected,
    /// The transaction was sent but not confirmed in time.
    ConfirmationTimeout,
    /// The value does not fit the ledger's fixed-point word.
    EncodingOverflow,
}

/// Why the relay could not start.
#[derive(Clone, Copy, Debug, PartialEq, Eq, Structural)]
pub enum ConfigError {
    Missing,
    Invalid,
}

/// Why decimal text could not be turned into a fixed-point value.
#[derive(Clone, Copy, Debug, PartialEq, Eq, Structural)]
pub enum EncodeError {
    /// The text is not a plain decimal number.
    NotDecimal,
    /// The value does not fit in 128 bits at the fixed-point scale.
    Overflow,
}

/// Every failure the relay can meet, by stage.
#[derive(Clone, Copy, Debug, PartialEq, Eq, Structural)]
pub enum ApiError {
    Fetch(FetchError),
    Publish(PublishError),
    Config(ConfigError),
}

} // verus!
