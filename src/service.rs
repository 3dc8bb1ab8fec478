use vstd::prelude::*;

use crate::address::{address_text, address_text_ok, hex_body, hex_decode, ContractAddress};
use crate::amount::{be_value, supply_text, TokenAmount};
use crate::error::ChainError;

verus! {

/// The 4-byte selector of a contract function, from its signature.
pub uninterp spec fn function_selector(signature: Seq<char>) -> Seq<u8>;

/// Relies on `ethers::utils::id`: the first four bytes of the Keccak-256 hash
/// of the signature, which depend on the signature alone.
#[verifier::external_body]
fn selector(signature: &str) -> (r: [u8; 4])
    ensures
        r@ == function_selector(signature@),
{
    ethers::utils::id(signature)
}

/// The reply to a total-supply query.
pub struct TotalSupplyResponse {
    pub message: String,
    pub total_supply: String,
}

/// The reply to a deployment.
pub struct CreatedContractResponse {
    pub message: String,
    pub contract_address: String,
}

/// A read-only contract call: the contract and the call data.
pub struct ContractCall {
    pub to: ContractAddress,
    pub data: Vec<u8>,
}

/// How a deployment transaction ended, as the node reported it.
pub enum DeploymentOutcome {
    /// The transaction could not be built, signed or sent.
    Rejected,
    /// It was sent but no receipt came back.
    Unconfirmed,
    /// It was mined; the receipt names the created contract, if any.
    Confirmed { contract: Option<[u8; 20]> },
}

/// The total-supply call for the contract whose address is given as text.
/// A malformed address is refused here, before anything reaches the network.
pub fn total_supply_call(address: &str) -> (r: Result<ContractCall, ChainError>)
    ensures
        r is Err <==> !address_text_ok(address@),
        r is Err ==> r == Err::<ContractCall, ChainError>(ChainError::InvalidAddress),
        r matches Ok(call) ==> call.to@ == hex_decode(hex_body(address@)) && call.data@
            == function_selector("totalSupply()"@),
{
    match ContractAddress::parse(address) {
        None => Err(ChainError::InvalidAddress),
        Some(to) => {
            let sel = selector("totalSupply()");
            let mut data: Vec<u8> = Vec::new();
            let mut i: usize = 0;
            while i < 4
                invariant
                    i <= 4,
                    data@ == sel@.subrange(0, i as int),
                decreases 4 - i,
            {
                data.push(sel[i]);
                i = i + 1;
            }
            assert(data@ =~= sel@);
            Ok(ContractCall { to, data })
        },
    }
}

/// The reply to a total-supply query from what the call returned (`None`
/// when it failed or reverted). A failed call, or one that returned fewer
/// than 32 bytes (as when no contract lives at the address), is a
/// contract-call error.
pub fn total_supply_response(returned: Option<Vec<u8>>) -> (r: Result<
    TotalSupplyResponse,
    ChainError,
>)
    ensures
        r is Ok <==> (returned matches Some(d) && d@.len() >= 32),
        r is Err ==> r == Err::<TotalSupplyResponse, ChainError>(ChainError::ContractCall),
        r matches Ok(resp) ==> resp.message@ == "OK"@ && resp.total_supply@ == supply_text(
            be_value(returned.unwrap()@.subrange(0, 32)),
        ),
{
    match returned {
        None => Err(ChainError::ContractCall),
        Some(data) => match TokenAmount::from_return_data(&data) {
            None => Err(ChainError::ContractCall),
            Some(amount) => Ok(
                TotalSupplyResponse {
                    message: "OK".to_owned(),
                    total_supply: amount.to_decimal_text(),
                },
            ),
        },
    }
}

/// The reply to a deployment: the new contract's address once the
/// transaction is confirmed with one; a submission error when it could not
/// be sent; a confirmation error when it was not confirmed with an address.
pub fn deployment_response(outcome: DeploymentOutcome) -> (r: Result<
    CreatedContractResponse,
    ChainError,
>)
    ensures
        r is Ok <==> (outcome matches DeploymentOutcome::Confirmed { contract: Some(_) }),
        outcome is Rejected ==> r == Err::<CreatedContractResponse, ChainError>(
            ChainError::Submission,
        ),
        (outcome is Unconfirmed || outcome matches DeploymentOutcome::Confirmed { contract: None })
            ==> r == Err::<CreatedContractResponse, ChainError>(ChainError::Confirmation),
        r matches Ok(resp) ==> resp.message@ == "Contract created"@ && (outcome matches DeploymentOutcome::Confirmed { contract: Some(a) }
            && resp.contract_address@ == address_text(a@)),
{
    match outcome {
        DeploymentOutcome::Rejected => Err(ChainError::Submission),
        DeploymentOutcome::Unconfirmed => Err(ChainError::Confirmation),
        DeploymentOutcome::Confirmed { contract: None } => Err(ChainError::Confirmation),
        DeploymentOutcome::Confirmed { contract: Some(bytes) } => {
            let address = ContractAddress::from_bytes(bytes);
            Ok(
                CreatedContractResponse {
                    message: "Contract created".to_owned(),
                    contract_address: address.to_text(),
                },
            )
        },
    }
}

} // verus!
