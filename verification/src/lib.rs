//! A fungible-token contract library: an owner-gated mint on top of a
//! verified token ledger, with static metadata, a versioned persisted
//! state layout, and a one-shot migration from the legacy layout.

pub mod account;
pub mod metadata;
pub mod ledger;
pub mod codec;
pub mod contract;
