//! A two-service digital-collectible marketplace, verified with Verus.
//!
//! The registry side ([`nft::ContratoNft`]) mints tokens out of limited-supply
//! collectibles, tracks ownership and manages the single-active-approval
//! workflow.  The marketplace side ([`market::ContratoMercado`]) mirrors
//! active approvals as sale listings, kept consistent across four secondary
//! indexes, and drives purchase settlement.  The two services communicate
//! through asynchronous one-shot calls; every function here is a local,
//! atomically-observed state transition that returns the outbound request or
//! notification as a value, so a runtime adapter can deliver it.

pub mod core_nft;
pub mod fraction;
pub mod gate;
pub mod market;
pub mod nft;
pub mod store;

use vstd::prelude::*;

verus! {

/// Identity of an account, as the surrounding platform names accounts.
pub type AccountId = String;

/// Identifier of a collectible (a "gate").
pub type GateId = String;

/// Identifier of a token.  Drawn from a strictly monotonic counter, so any
/// two tokens differ in their `TokenId` even across collectibles.
pub type TokenId = u64;

/// Unix epoch timestamp, expressed in milliseconds.
pub type Timestamp = u64;

} // verus!
