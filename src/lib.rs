// Reading a token contract's total supply and deploying new instances of it
// on an Ethereum-compatible chain: address and amount handling, credential
// checks, and the decisions around each chain call.

pub mod address;
pub mod amount;
pub mod connector;
pub mod error;
pub mod service;
pub mod text;
