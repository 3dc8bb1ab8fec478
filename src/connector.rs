use vstd::prelude::*;

use crate::error::ChainError;

verus! {

/// Whether the HTTP transport accepts the text as a node URL.
pub uninterp spec fn node_url_accepted(url: Seq<char>) -> bool;

/// The account that a private key signs for, if the text is a valid key.
pub uninterp spec fn key_signer(key: Seq<char>) -> Option<Seq<u8>>;

/// Relies on `Chain::Sepolia` as a `u64`: the test network's chain identifier.
#[verifier::external_body]
fn sepolia_chain_id() -> (r: u64)
    ensures
        r == 11155111,
{
    ethers::types::Chain::Sepolia as u64
}

/// Relies on `Provider::<Http>::try_from`: whether the text parses as a URL.
/// It makes no network call.
#[verifier::external_body]
fn provider_accepts(url: &str) -> (r: bool)
    ensures
        r == node_url_accepted(url@),
{
    ethers::providers::Provider::<ethers::providers::Http>::try_from(url).is_ok()
}

/// Relies on `LocalWallet: FromStr` and `Signer::address`: a valid key gives
/// the address of the account it signs for.
#[verifier::external_body]
fn signer_address(key: &str) -> (r: Option<[u8; 20]>)
    ensures
        r.is_some() <==> key_signer(key@).is_some(),
        r.is_some() ==> key_signer(key@) == Some(r.unwrap()@),
{
    key.parse::<ethers::signers::LocalWallet>().ok().map(
        |w| ethers::signers::Signer::address(&w).0,
    )
}

/// What a connection needs: a node URL, a private key (hex, no prefix), and
/// the chain the wallet signs for.
pub struct ChainCredentials {
    pub node_url: String,
    pub private_key: String,
    pub chain_id: u64,
}

/// A client that reads through a node and signs for one account on one chain.
pub struct ConnectedClient {
    pub node_url: String,
    pub private_key: String,
    pub chain_id: u64,
    pub signer: [u8; 20],
}

/// What a client is bound to: node URL, chain and signing account.
pub struct ClientBinding {
    pub node_url: Seq<char>,
    pub chain_id: u64,
    pub signer: Seq<u8>,
}

impl View for ConnectedClient {
    type V = ClientBinding;

    open spec fn view(&self) -> ClientBinding {
        ClientBinding { node_url: self.node_url@, chain_id: self.chain_id, signer: self.signer@ }
    }
}

/// The chain identifier that every wallet is bound to.
pub open spec fn configured_chain_id() -> u64 {
    11155111
}

/// Credentials whose node URL and key are both accepted.
pub open spec fn credentials_valid(c: ChainCredentials) -> bool {
    node_url_accepted(c.node_url@) && key_signer(c.private_key@).is_some()
}

/// `client` is what connecting with `c` gives.
pub open spec fn connected(c: ChainCredentials, client: ConnectedClient) -> bool {
    &&& client.node_url@ == c.node_url@
    &&& client.private_key@ == c.private_key@
    &&& client.chain_id == c.chain_id
    &&& key_signer(c.private_key@) == Some(client.signer@)
}

/// What connecting with `c` gives: a configuration error for a URL the
/// transport refuses, else a credential error for a key that does not parse,
/// else a client.
pub open spec fn connect_result_ok(c: ChainCredentials, r: Result<ConnectedClient, ChainError>) -> bool {
    if !node_url_accepted(c.node_url@) {
        r == Err::<ConnectedClient, ChainError>(ChainError::Configuration)
    } else if key_signer(c.private_key@).is_none() {
        r == Err::<ConnectedClient, ChainError>(ChainError::Credential)
    } else {
        r matches Ok(client) && connected(c, client)
    }
}

impl ChainCredentials {
    /// Gathers the credentials from the configured values; either one missing
    /// is a configuration error. The chain is the test network.
    pub fn load(node_url: Option<String>, private_key: Option<String>) -> (r: Result<ChainCredentials, ChainError>)
        ensures
            r is Err <==> node_url.is_none() || private_key.is_none(),
            r is Err ==> r == Err::<ChainCredentials, ChainError>(ChainError::Configuration),
            r matches Ok(c) ==> c.node_url@ == node_url.unwrap()@ && c.private_key@ == private_key.unwrap()@
                && c.chain_id == configured_chain_id(),
    {
        match (node_url, private_key) {
            (Some(node_url), Some(private_key)) => {
                let chain_id = sepolia_chain_id();
                Ok(ChainCredentials { node_url, private_key, chain_id })
            },
            _ => Err(ChainError::Configuration),
        }
    }

    /// Builds a client for these credentials. Nothing is sent to the node.
    pub fn connect(&self) -> (r: Result<ConnectedClient, ChainError>)
        ensures
            connect_result_ok(*self, r),
    {
        if !provider_accepts(self.node_url.as_str()) {
            return Err(ChainError::Configuration);
        }
        match signer_address(self.private_key.as_str()) {
            None => Err(ChainError::Credential),
            Some(signer) => Ok(
                ConnectedClient {
                    node_url: self.node_url.clone(),
                    private_key: self.private_key.clone(),
                    chain_id: self.chain_id,
                    signer,
                },
            ),
        }
    }
}

/// Connecting with valid credentials gives a client bound to the
/// credentials' chain, and two connections with the same credentials are
/// bound alike: same node, same chain, same signing account.
pub proof fn connections_agree(
    c: ChainCredentials,
    first: Result<ConnectedClient, ChainError>,
    second: Result<ConnectedClient, ChainError>,
)
    requires
        credentials_valid(c),
        connect_result_ok(c, first),
        connect_result_ok(c, second),
    ensures
        first matches Ok(a) && a.chain_id == c.chain_id,
        second matches Ok(b) && b.chain_id == c.chain_id,
        first.unwrap()@ == second.unwrap()@,
{
    let a = first.unwrap();
    let b = second.unwrap();
    assert(a.signer@ == b.signer@);
}

} // verus!
