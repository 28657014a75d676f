//! Verified core of the TrusTrove trade-finance protocol: the registry of
//! verified parties, the invoice lifecycle, the escrow of funded amounts and
//! the share-based liquidity pool, each as a state machine over plain values.

pub mod ledger;
pub mod table;
pub mod registry;
pub mod escrow;
pub mod pool;
pub mod invoice;
pub mod token;
pub mod protocol;
