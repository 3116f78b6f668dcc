//! Plain data carried through the network: chain identifiers, message
//! envelopes, events recorded by ledgers, configuration and error kinds.

use vstd::prelude::*;

verus! {

/// The single asset the simulated ledgers account for.
pub const NATIVE_ASSET: u64 = 0;

/// Which channel a message travels on.
#[derive(Clone, Copy, Debug, PartialEq, Eq, Structural)]
pub enum MessageKind {
    /// Coordinator to dependent.
    Downward,
    /// Dependent to coordinator.
    Upward,
    /// Dependent to dependent, staged through the coordinator.
    Horizontal,
}

/// How the destination derives the execution origin of a transacted call.
#[derive(Clone, Copy, Debug, PartialEq, Eq, Structural)]
pub enum OriginKind {
    /// Execute under the sending chain's sovereign account.
    SovereignAccount,
    /// Execute under the sending chain's native origin (not supported by
    /// the executor: it records a failure event).
    Native,
    /// Execute under the superuser origin (not supported either).
    Superuser,
}

/// Why a delivered message failed to execute. Recorded in the destination
/// ledger's event log; never aborts the drain loop.
#[derive(Clone, Copy, Debug, PartialEq, Eq, Structural)]
pub enum FailReason {
    /// The call payload did not decode.
    Decode,
    /// The declared weight ceiling was below the call's weight.
    WeightLimitExceeded,
    /// The call decoded and was admitted but its dispatch failed.
    Dispatch,
    /// The message's origin kind is not supported by the executor.
    BadOrigin,
    /// Crediting the beneficiary would overflow its balance.
    Overflow,
}

/// A record a ledger emits while a message executes or assets move.
#[derive(Clone, Copy, Debug, PartialEq, Eq, Structural)]
pub enum Event {
    /// `amount` was credited to `account`.
    Deposited { account: u64, amount: u128 },
    /// `amount` was withdrawn from `account`.
    Withdrawn { account: u64, amount: u128 },
    /// A remark call executed under `origin`.
    Remarked { origin: u64 },
    /// A transacted call was dispatched successfully under `origin`.
    DispatchSucceeded { origin: u64 },
    /// A delivered message failed; the drain continued.
    ExecutionFailed { reason: FailReason },
}

/// A configuration error reported while a topology is declared or built.
#[derive(Clone, Copy, Debug, PartialEq, Eq, Structural)]
pub enum ConfigError {
    /// No coordinator was declared before it was needed.
    MissingCoordinator,
    /// A second coordinator was declared.
    DuplicateCoordinator,
    /// A dependent named itself as its parent.
    SelfParent,
    /// A dependent named a parent other than the coordinator.
    ParentNotCoordinator,
    /// A chain identifier was declared twice.
    DuplicateChainId,
    /// The topology was built with no dependent chains.
    NoDependents,
}

/// A recoverable error returned by a scheduler operation.
#[derive(Clone, Copy, Debug, PartialEq, Eq, Structural)]
pub enum NetError {
    /// The named chain is not registered in the topology.
    UnknownChain,
    /// No `enter` scope is active, so there is no sending chain.
    NotEntered,
    /// A message named its own source as destination.
    SelfDestination,
    /// The destination queue is at its configured depth ceiling.
    CapacityExceeded,
    /// The payload is larger than the configured size ceiling.
    MessageTooLarge,
    /// The asset is not the native asset.
    UnsupportedAsset,
    /// The reserving account holds less than the requested amount.
    InsufficientBalance,
    /// Reserving would overflow the destination's sovereign account.
    BalanceOverflow,
}

/// The payload of a queued message.
pub enum Body {
    /// An encoded remote call to execute on the destination.
    Transact {
        /// How the destination derives the execution origin.
        origin_kind: OriginKind,
        /// Weight ceiling the call must fit under.
        require_weight_at_most: u64,
        /// Opaque encoded call.
        call: Vec<u8>,
    },
    /// The delivery half of a reserve transfer: credit `amount` to
    /// `beneficiary` on the destination.
    ReserveCredit {
        /// Account credited on delivery.
        beneficiary: u64,
        /// Amount credited in full (execution is free in the simulator).
        amount: u128,
    },
}

/// A message queued on a channel. Immutable once enqueued; delivered at
/// most once.
pub struct Message {
    /// Chain that enqueued the message.
    pub source: u32,
    /// Chain whose next entry delivers the message.
    pub dest: u32,
    /// Channel the message travels on.
    pub kind: MessageKind,
    /// What delivery does on the destination ledger.
    pub body: Body,
}

/// Ceilings the coordinator's host configuration imposes on the channel
/// queues. `None` leaves the corresponding dimension unbounded.
#[derive(Clone, Copy, Debug)]
pub struct HostConfig {
    /// Most messages a single physical queue may hold.
    pub max_queue_len: Option<usize>,
    /// Largest accepted `Transact` payload, in bytes.
    pub max_message_size: Option<usize>,
}

impl HostConfig {
    /// A configuration with no ceilings, as the simulator's infinite
    /// buffering default.
    pub fn unbounded() -> (c: HostConfig)
        ensures
            c.max_queue_len is None,
            c.max_message_size is None,
    {
        HostConfig { max_queue_len: None, max_message_size: None }
    }
}

} // verus!
