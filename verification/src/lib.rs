//! Verified state machines of a family of ledger contracts: a DAO, an English
//! auction, a ballot, an NFT marketplace, a staking pool, a token swap desk and
//! a vesting vault. Each contract is a plain value whose methods take the
//! caller, the ledger sequence and the facts read from other contracts, and
//! return the token transfers that the ledger must then perform.
pub mod common;
pub mod dao;
pub mod auction;
pub mod marketplace;
pub mod vesting;
pub mod staking;
pub mod swap;
pub mod ballot;
