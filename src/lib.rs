//! A collectible-token minting library: a pool of unminted identifiers drawn
//! without replacement, a minting coordinator that gates draws behind payment,
//! and an ownership ledger with an optimistic, revertible transfer protocol.
pub mod account;
pub mod contract;
pub mod ledger;
pub mod metadata;
pub mod price;
pub mod raffle;
pub mod random;
