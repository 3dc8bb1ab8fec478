use vstd::prelude::*;

verus! {

/// Why a chain operation did not complete.
#[derive(Debug, Clone, Copy, PartialEq, Eq, Structural)]
pub enum ChainError {
    /// A node URL or signing key is missing, or the node URL is malformed.
    Configuration,
    /// The signing key does not parse as a key.
    Credential,
    /// A contract address is not an optional `0x` and forty hexadecimal digits.
    InvalidAddress,
    /// The contract call reverted, found no contract, or returned no amount.
    ContractCall,
    /// The deployment transaction could not be built, signed or sent.
    Submission,
    /// The deployment transaction was not confirmed with a contract address.
    Confirmation,
}

} // verus!
