//! The remote-call executor: what delivering one queued message does to
//! the destination ledger. Every per-message failure is recorded as an
//! event on that ledger and never unwinds into the drain loop.

use vstd::prelude::*;

use crate::codec::{decode_v, weight_v, decode_call, weight_of, Call};
use crate::ledger::{
    bal, lemma_bal_write_other, lemma_bal_write_same, with_event, write_bal, Ledger, LedgerV,
};
use crate::types::{Body, Event, FailReason, Message, OriginKind};

verus! {

/// The deterministic account that stands for a remote chain's origin on a
/// destination ledger.
pub open spec fn sovereign_account(chain: u32) -> u64 {
    (0x1_0000_0000 + chain) as u64
}

/// The sovereign account derived for `chain`.
pub fn sovereign_account_of(chain: u32) -> (r: u64)
    ensures
        r == sovereign_account(chain),
{
    0x1_0000_0000u64 + chain as u64
}

/// What dispatching a decoded call under `origin` does to a ledger: a
/// remark records itself; a transfer moves the amount from the origin to
/// the target, or records one dispatch-failure event and moves nothing
/// when the origin's balance is short or the target's would overflow.
pub open spec fn dispatch_v(l: LedgerV, origin: u64, c: crate::codec::CallV) -> LedgerV {
    match c {
        crate::codec::CallV::Remark { data } => with_event(
            with_event(l, Event::Remarked { origin }),
            Event::DispatchSucceeded { origin },
        ),
        crate::codec::CallV::Transfer { to, amount } => {
            let amt = amount as u128;
            let b_origin = bal(l.balances, origin);
            if b_origin < amt {
                with_event(l, Event::ExecutionFailed { reason: FailReason::Dispatch })
            } else {
                let withdrawn = write_bal(l.balances, origin, (b_origin - amt) as u128);
                if bal(withdrawn, to) + amt > u128::MAX {
                    with_event(l, Event::ExecutionFailed { reason: FailReason::Dispatch })
                } else {
                    LedgerV {
                        block: l.block,
                        balances: write_bal(withdrawn, to, (bal(withdrawn, to) + amt) as u128),
                        events: l.events.push(
                            Event::Withdrawn { account: origin, amount: amt },
                        ).push(Event::Deposited { account: to, amount: amt }).push(
                            Event::DispatchSucceeded { origin },
                        ),
                    }
                }
            }
        },
    }
}

/// What executing a transacted payload does to the destination ledger:
/// an unsupported origin kind, a decode failure or a weight ceiling
/// violation each record one failure event and touch nothing else;
/// otherwise the call is dispatched under the sender's sovereign account.
pub open spec fn exec_transact_v(
    l: LedgerV,
    source: u32,
    origin_kind: OriginKind,
    limit: u64,
    call: Seq<u8>,
) -> LedgerV {
    if origin_kind != OriginKind::SovereignAccount {
        with_event(l, Event::ExecutionFailed { reason: FailReason::BadOrigin })
    } else {
        match decode_v(call) {
            Option::None => with_event(l, Event::ExecutionFailed { reason: FailReason::Decode }),
            Option::Some(c) => if weight_v(c) > limit {
                with_event(l, Event::ExecutionFailed { reason: FailReason::WeightLimitExceeded })
            } else {
                dispatch_v(l, sovereign_account(source), c)
            },
        }
    }
}

/// What crediting a reserve transfer does to the destination ledger: the
/// beneficiary receives the full amount, or, when its balance would
/// overflow, one failure event is recorded and balances stay unchanged.
pub open spec fn credit_v(l: LedgerV, beneficiary: u64, amount: u128) -> LedgerV {
    if bal(l.balances, beneficiary) + amount <= u128::MAX {
        LedgerV {
            block: l.block,
            balances: write_bal(
                l.balances,
                beneficiary,
                (bal(l.balances, beneficiary) + amount) as u128,
            ),
            events: l.events.push(Event::Deposited { account: beneficiary, amount }),
        }
    } else {
        with_event(l, Event::ExecutionFailed { reason: FailReason::Overflow })
    }
}

/// What delivering one message does to the destination ledger.
pub open spec fn deliver_one(l: LedgerV, m: Message) -> LedgerV {
    match m.body {
        Body::Transact { origin_kind, require_weight_at_most, call } => exec_transact_v(
            l,
            m.source,
            origin_kind,
            require_weight_at_most,
            call@,
        ),
        Body::ReserveCredit { beneficiary, amount } => credit_v(l, beneficiary, amount),
    }
}

/// Dispatch a decoded call under `origin`.
fn dispatch(l: &mut Ledger, origin: u64, c: Call)
    ensures
        final(l)@ == dispatch_v(old(l)@, origin, c@),
{
    match c {
        Call::Remark(_) => {
            l.note(Event::Remarked { origin });
            l.note(Event::DispatchSucceeded { origin });
        },
        Call::Transfer { to, amount } => {
            let amt = amount as u128;
            let b_origin = l.balance(origin);
            if b_origin < amt {
                l.note(Event::ExecutionFailed { reason: FailReason::Dispatch });
                return ;
            }
            proof {
                lemma_bal_write_same(l@.balances, origin, (b_origin - amt) as u128);
                if to != origin {
                    lemma_bal_write_other(l@.balances, origin, (b_origin - amt) as u128, to);
                }
            }
            let b_to_after = if to == origin {
                b_origin - amt
            } else {
                l.balance(to)
            };
            if amt > u128::MAX - b_to_after {
                l.note(Event::ExecutionFailed { reason: FailReason::Dispatch });
                return ;
            }
            l.write_balance(origin, b_origin - amt);
            l.note(Event::Withdrawn { account: origin, amount: amt });
            l.write_balance(to, b_to_after + amt);
            l.note(Event::Deposited { account: to, amount: amt });
            l.note(Event::DispatchSucceeded { origin });
            proof {
                assert(final(l)@ =~= dispatch_v(old(l)@, origin, c@));
            }
        },
    }
}

/// Deliver one message to the destination ledger it is addressed to.
pub fn deliver(l: &mut Ledger, m: Message)
    ensures
        final(l)@ == deliver_one(old(l)@, m),
{
    let source = m.source;
    match m.body {
        Body::Transact { origin_kind, require_weight_at_most, call } => {
            if origin_kind != OriginKind::SovereignAccount {
                l.note(Event::ExecutionFailed { reason: FailReason::BadOrigin });
                return ;
            }
            match decode_call(&call) {
                None => {
                    l.note(Event::ExecutionFailed { reason: FailReason::Decode });
                },
                Some(c) => {
                    let w = weight_of(&c);
                    if w > require_weight_at_most {
                        l.note(
                            Event::ExecutionFailed { reason: FailReason::WeightLimitExceeded },
                        );
                    } else {
                        let origin = sovereign_account_of(source);
                        dispatch(l, origin, c);
                    }
                },
            }
        },
        Body::ReserveCredit { beneficiary, amount } => {
            let b = l.balance(beneficiary);
            if amount <= u128::MAX - b {
                l.write_balance(beneficiary, b + amount);
                l.note(Event::Deposited { account: beneficiary, amount });
                proof {
                    assert(final(l)@ =~= credit_v(old(l)@, beneficiary, amount));
                }
            } else {
                l.note(Event::ExecutionFailed { reason: FailReason::Overflow });
            }
        },
    }
}

} // verus!
