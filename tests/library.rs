use ahoy_token::address::ContractAddress;
use ahoy_token::amount::TokenAmount;
use ahoy_token::connector::ChainCredentials;
use ahoy_token::error::ChainError;
use ahoy_token::service::{
    deployment_response, total_supply_call, total_supply_response, DeploymentOutcome,
};

const ANVIL_KEY: &str = "ac0974bec39a17e36ba4a6b4d238ff944bacb478cbed5efcae784d7bf4f2ff80";
const ANVIL_ADDRESS: [u8; 20] = [
    0xf3, 0x9f, 0xd6, 0xe5, 0x1a, 0xad, 0x88, 0xf6, 0xf4, 0xce, 0x6a, 0xb8, 0x82, 0x72, 0x79,
    0xcf, 0xff, 0xb9, 0x22, 0x66,
];

fn word(v: u128) -> Vec<u8> {
    let mut out = vec![0u8; 16];
    out.extend_from_slice(&v.to_be_bytes());
    out
}

fn supply_text(v: u128) -> String {
    TokenAmount::from_u128(v).to_decimal_text()
}

#[test]
fn one_unit_reads_as_one_point_zero() {
    assert_eq!(supply_text(1_000_000_000_000_000_000), "1.0");
}

#[test]
fn zero_reads_as_zero_point_zero() {
    assert_eq!(supply_text(0), "0.0");
}

#[test]
fn fractions_keep_significant_digits_only() {
    assert_eq!(supply_text(1_500_000_000_000_000_000), "1.5");
    assert_eq!(supply_text(123), "0.000000000000000123");
    assert_eq!(supply_text(500_000_000_000_000_000_000), "500.0");
    assert_eq!(supply_text(10_000_000_000_000_000_001), "10.000000000000000001");
}

#[test]
fn largest_amount_is_exact() {
    let data = vec![0xffu8; 32];
    let amount = TokenAmount::from_return_data(&data).unwrap();
    assert_eq!(
        amount.to_decimal_text(),
        "115792089237316195423570985008687907853269984665640564039457.584007913129639935"
    );
}

#[test]
fn return_data_needs_a_full_word() {
    assert!(TokenAmount::from_return_data(&vec![]).is_none());
    assert!(TokenAmount::from_return_data(&vec![1u8; 31]).is_none());
    let mut data = word(7);
    data.extend_from_slice(&word(9));
    let amount = TokenAmount::from_return_data(&data).unwrap();
    assert_eq!(amount.to_decimal_text(), "0.000000000000000007");
}

#[test]
fn address_parses_with_or_without_prefix() {
    let a = ContractAddress::parse("0x1111111111111111111111111111111111111111").unwrap();
    assert_eq!(a.as_bytes(), [0x11u8; 20]);
    let b = ContractAddress::parse("F39FD6E51AAD88F6F4CE6AB8827279CFFFB92266").unwrap();
    assert_eq!(b.as_bytes(), ANVIL_ADDRESS);
}

#[test]
fn malformed_addresses_are_refused() {
    assert!(ContractAddress::parse("").is_none());
    assert!(ContractAddress::parse("0x").is_none());
    assert!(ContractAddress::parse("0x11111111111111111111111111111111111111").is_none());
    assert!(ContractAddress::parse("0x111111111111111111111111111111111111111111").is_none());
    assert!(ContractAddress::parse("0x111111111111111111111111111111111111111g").is_none());
    assert!(ContractAddress::parse("0x11111111111111111111 1111111111111111111").is_none());
}

#[test]
fn address_text_is_full_lower_hex() {
    let a = ContractAddress::from_bytes(ANVIL_ADDRESS);
    assert_eq!(a.to_text(), "0xf39fd6e51aad88f6f4ce6ab8827279cfffb92266");
}

#[test]
fn query_refuses_malformed_address_before_any_call() {
    assert_eq!(total_supply_call("0xZZ").err(), Some(ChainError::InvalidAddress));
    assert_eq!(
        total_supply_call("0x1234567890123456789012345678901234567890ab").err(),
        Some(ChainError::InvalidAddress)
    );
}

#[test]
fn query_calls_total_supply_on_the_address() {
    let call = total_supply_call("0xabcdefabcdefabcdefabcdefabcdefabcdefabcd").unwrap();
    assert_eq!(call.to.as_bytes(), [0xab, 0xcd, 0xef, 0xab, 0xcd, 0xef, 0xab, 0xcd, 0xef, 0xab,
        0xcd, 0xef, 0xab, 0xcd, 0xef, 0xab, 0xcd, 0xef, 0xab, 0xcd]);
    assert_eq!(call.data, vec![0x18, 0x16, 0x0d, 0xdd]);
}

#[test]
fn query_without_contract_fails_as_contract_call() {
    assert_eq!(total_supply_response(Some(vec![])).err(), Some(ChainError::ContractCall));
    assert_eq!(total_supply_response(None).err(), Some(ChainError::ContractCall));
}

#[test]
fn query_reports_scaled_supply() {
    let call = total_supply_call("0xAbCdAbCdAbCdAbCdAbCdAbCdAbCdAbCdAbCdAbCd").unwrap();
    assert_eq!(call.to.to_text(), "0xabcdabcdabcdabcdabcdabcdabcdabcdabcdabcd");
    let resp = total_supply_response(Some(word(500_000_000_000_000_000_000))).unwrap();
    assert_eq!(resp.message, "OK");
    assert_eq!(resp.total_supply, "500.0");
}

#[test]
fn deployment_reports_created_address() {
    let resp = deployment_response(DeploymentOutcome::Confirmed { contract: Some([0x11; 20]) })
        .unwrap();
    assert_eq!(resp.message, "Contract created");
    assert_eq!(resp.contract_address, "0x1111111111111111111111111111111111111111");
}

#[test]
fn deployment_failures_are_classified() {
    assert_eq!(
        deployment_response(DeploymentOutcome::Rejected).err(),
        Some(ChainError::Submission)
    );
    assert_eq!(
        deployment_response(DeploymentOutcome::Unconfirmed).err(),
        Some(ChainError::Confirmation)
    );
    assert_eq!(
        deployment_response(DeploymentOutcome::Confirmed { contract: None }).err(),
        Some(ChainError::Confirmation)
    );
}

#[test]
fn missing_configuration_is_refused() {
    let r = ChainCredentials::load(None, Some(ANVIL_KEY.to_string()));
    assert_eq!(r.err(), Some(ChainError::Configuration));
    let r = ChainCredentials::load(Some("http://localhost:8545".to_string()), None);
    assert_eq!(r.err(), Some(ChainError::Configuration));
}

#[test]
fn connect_binds_signer_and_chain() {
    let creds = ChainCredentials::load(
        Some("http://localhost:8545".to_string()),
        Some(ANVIL_KEY.to_string()),
    )
    .unwrap();
    assert_eq!(creds.chain_id, 11155111);
    let first = creds.connect().unwrap();
    let second = creds.connect().unwrap();
    assert_eq!(first.chain_id, 11155111);
    assert_eq!(first.signer, ANVIL_ADDRESS);
    assert_eq!(first.signer, second.signer);
    assert_eq!(first.node_url, second.node_url);
}

#[test]
fn connect_refuses_bad_url_and_bad_key() {
    let bad_url =
        ChainCredentials::load(Some("not a url".to_string()), Some(ANVIL_KEY.to_string()))
            .unwrap();
    assert_eq!(bad_url.connect().err(), Some(ChainError::Configuration));
    let bad_key = ChainCredentials::load(
        Some("http://localhost:8545".to_string()),
        Some("xyz".to_string()),
    )
    .unwrap();
    assert_eq!(bad_key.connect().err(), Some(ChainError::Credential));
}
