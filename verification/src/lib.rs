//! A deterministic simulator for a small network of independent ledgers:
//! one coordinating chain and several dependent chains exchanging messages
//! over downward, upward and horizontal channels. The simulator owns the
//! topology registry, the per-chain isolated ledgers, the channel queues
//! and the remote-call executor; every routing and execution rule is stated
//! as a contract and proved.

pub mod builder;
pub mod codec;
pub mod executor;
pub mod laws;
pub mod ledger;
pub mod network;
pub mod types;

use vstd::prelude::*;

verus! {

} // verus!
