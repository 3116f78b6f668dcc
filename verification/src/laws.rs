//! The guarantees the scheduler gives as a whole, each proved from the
//! contracts the operations carry: reset idempotence, scope exclusivity,
//! per-channel delivery order, reserve-transfer conservation and weight
//! ceiling enforcement.

use vstd::prelude::*;

use crate::codec::decode_v;
use crate::codec::weight_v;
use crate::executor::deliver_one;
use crate::ledger::{
    bal, lemma_bal_write_other, lemma_bal_write_same, with_event, write_bal, LedgerV,
};
use crate::network::{
    dep_idx, drain, enter_v, is_dep, ledger_of, registered, reserve_apply, reset_v, wf,
    with_ledger, with_queued, NetV,
};
use crate::types::{Body, Event, FailReason, Message, OriginKind};

verus! {

/// In a valid topology a dependent's registry index is determined by its
/// identifier.
pub proof fn lemma_dep_idx_unique(n: NetV, d: u32, i: int)
    requires
        wf(n),
        0 <= i < n.deps.len(),
        n.deps[i].id == d,
    ensures
        is_dep(n, d),
        dep_idx(n, d) == i,
{
    assert(is_dep(n, d));
    let k = dep_idx(n, d);
    assert(0 <= k < n.deps.len() && n.deps[k].id == d);
    if k < i {
        assert(n.deps[k].id != n.deps[i].id);
    } else if k > i {
        assert(n.deps[i].id != n.deps[k].id);
    }
}

/// Resetting is idempotent: a second `reset` changes nothing, so any run
/// of resets leaves the same state as one, and a scenario after them
/// reads the same ledgers and logs.
pub proof fn lemma_reset_idempotent(n: NetV)
    ensures
        reset_v(reset_v(n)) == reset_v(n),
{
    assert(reset_v(reset_v(n)).deps =~= reset_v(n).deps);
    assert(reset_v(reset_v(n)) =~= reset_v(n));
}

/// Exclusivity of `enter`: entering one chain never writes any other
/// chain's ledger, so a ledger's state depends only on the scopes opened
/// on it and the messages those scopes drain.
pub proof fn lemma_enter_exclusive(n: NetV, c: u32, d: u32)
    requires
        wf(n),
        registered(n, c),
        registered(n, d),
        d != c,
    ensures
        ledger_of(enter_v(n, c), d) == ledger_of(n, d),
{
    let n2 = enter_v(n, c);
    if c == n.coordinator_id {
        assert(n2.deps == n.deps);
        assert(is_dep(n, d));
        let i = dep_idx(n, d);
        assert(0 <= i < n.deps.len() && n.deps[i].id == d);
        lemma_dep_idx_unique(n, d, i);
        assert(n2.deps[i].id == d);
        lemma_dep_idx_unique(n2, d, i);
    } else {
        let k = dep_idx(n, c);
        assert(is_dep(n, c));
        assert(0 <= k < n.deps.len() && n.deps[k].id == c);
        assert forall|j: int| 0 <= j < n2.deps.len() implies (#[trigger] n2.deps[j]).id
            == n.deps[j].id by {
        }
        assert forall|i: int, j: int| 0 <= i < j < n2.deps.len() implies (
        #[trigger] n2.deps[i]).id != (#[trigger] n2.deps[j]).id by {
            assert(n.deps[i].id != n.deps[j].id);
        }
        assert(n2.deps[k].id == c);
        assert(is_dep(n2, c));
        assert(wf(n2));
        if d == n.coordinator_id {
            assert(n2.coordinator == n.coordinator);
        } else {
            let i = dep_idx(n, d);
            assert(0 <= i < n.deps.len() && n.deps[i].id == d);
            assert(i != k);
            assert(n2.deps[i] == n.deps[i]);
            lemma_dep_idx_unique(n2, d, i);
        }
    }
}

/// Entering a registered chain keeps the topology valid and every chain
/// registered.
pub proof fn lemma_enter_preserves_wf(n: NetV, c: u32)
    requires
        wf(n),
        registered(n, c),
    ensures
        wf(enter_v(n, c)),
        forall|d: u32| registered(n, d) == registered(enter_v(n, c), d),
{
    let n2 = enter_v(n, c);
    if c == n.coordinator_id {
        assert(n2.deps == n.deps && n2.coordinator_id == n.coordinator_id);
        assert(wf(n2));
        assert forall|d: u32| registered(n, d) == registered(n2, d) by {
            if is_dep(n, d) {
                let i = dep_idx(n, d);
                assert(n2.deps[i].id == d);
            }
            if is_dep(n2, d) {
                let i = dep_idx(n2, d);
                assert(n.deps[i].id == d);
            }
        }
    } else {
        let k = dep_idx(n, c);
        assert(is_dep(n, c));
        assert(0 <= k < n.deps.len() && n.deps[k].id == c);
        assert forall|j: int| 0 <= j < n2.deps.len() implies (#[trigger] n2.deps[j]).id
            == n.deps[j].id by {
        }
        assert forall|a: int, b: int| 0 <= a < b < n2.deps.len() implies (
        #[trigger] n2.deps[a]).id != (#[trigger] n2.deps[b]).id by {
            assert(n.deps[a].id != n.deps[b].id);
        }
        assert(n2.deps[k].id == c);
        assert(is_dep(n2, c));
        assert(wf(n2));
        assert forall|d: u32| registered(n, d) == registered(n2, d) by {
            if is_dep(n, d) {
                let i = dep_idx(n, d);
                assert(n2.deps[i].id == d);
            }
            if is_dep(n2, d) {
                let i = dep_idx(n2, d);
                assert(n.deps[i].id == d);
            }
        }
    }
}

/// The network after a run of `enter` scopes, first one first.
pub open spec fn run_enters(n: NetV, cs: Seq<u32>) -> NetV
    decreases cs.len(),
{
    if cs.len() == 0 {
        n
    } else {
        run_enters(enter_v(n, cs[0]), cs.skip(1))
    }
}

/// Exclusivity over whole runs: a ledger is untouched by any sequence of
/// scopes that never targets its chain — its state depends only on the
/// scopes opened on it.
pub proof fn lemma_run_exclusive(n: NetV, cs: Seq<u32>, d: u32)
    requires
        wf(n),
        registered(n, d),
        forall|i: int| 0 <= i < cs.len() ==> registered(n, #[trigger] cs[i]) && cs[i] != d,
    ensures
        ledger_of(run_enters(n, cs), d) == ledger_of(n, d),
    decreases cs.len(),
{
    if cs.len() > 0 {
        let n2 = enter_v(n, cs[0]);
        lemma_enter_preserves_wf(n, cs[0]);
        lemma_enter_exclusive(n, cs[0], d);
        assert(forall|i: int|
            0 <= i < cs.skip(1).len() ==> #[trigger] cs.skip(1)[i] == cs[i + 1]);
        lemma_run_exclusive(n2, cs.skip(1), d);
    }
}

/// Exclusivity of sends: queueing a message writes no ledger at all.
pub proof fn lemma_send_exclusive(n: NetV, m: Message, d: u32)
    requires
        wf(n),
        registered(n, d),
    ensures
        ledger_of(with_queued(n, m), d) == ledger_of(n, d),
{
    let n2 = with_queued(n, m);
    assert(n2.deps == n.deps && n2.coordinator == n.coordinator && n2.coordinator_id
        == n.coordinator_id);
    if d != n.coordinator_id {
        let i = dep_idx(n, d);
        assert(0 <= i < n.deps.len() && n.deps[i].id == d);
        lemma_dep_idx_unique(n, d, i);
        lemma_dep_idx_unique(n2, d, i);
    }
}

/// Exclusivity of a reserve transfer: it writes only the ledger of the
/// chain whose scope is open.
pub proof fn lemma_reserve_exclusive(
    n: NetV,
    from: u64,
    dest: u32,
    beneficiary: u64,
    amount: u128,
    d: u32,
)
    requires
        wf(n),
        n.active is Some,
        registered(n, d),
        d != n.active.unwrap(),
    ensures
        ledger_of(reserve_apply(n, from, dest, beneficiary, amount), d) == ledger_of(n, d),
{
    let src = n.active.unwrap();
    if src == n.coordinator_id {
        let n2 = reserve_apply(n, from, dest, beneficiary, amount);
        assert(n2.deps == n.deps && n2.coordinator_id == n.coordinator_id);
        let i = dep_idx(n, d);
        assert(is_dep(n, d));
        assert(0 <= i < n.deps.len() && n.deps[i].id == d);
        lemma_dep_idx_unique(n, d, i);
        lemma_dep_idx_unique(n2, d, i);
    } else {
        let n2 = reserve_apply(n, from, dest, beneficiary, amount);
        let k = dep_idx(n, src);
        assert(is_dep(n, src));
        assert(0 <= k < n.deps.len() && n.deps[k].id == src);
        assert forall|j: int| 0 <= j < n2.deps.len() implies (#[trigger] n2.deps[j]).id
            == n.deps[j].id by {
        }
        if d == n.coordinator_id {
            assert(n2.coordinator == n.coordinator);
        } else {
            let i = dep_idx(n, d);
            assert(0 <= i < n.deps.len() && n.deps[i].id == d);
            assert(i != k);
            assert(n2.deps[i] == n.deps[i]);
            assert forall|i2: int, j: int| 0 <= i2 < j < n2.deps.len() implies (
            #[trigger] n2.deps[i2]).id != (#[trigger] n2.deps[j]).id by {
                assert(n.deps[i2].id != n.deps[j].id);
            }
            assert(n2.deps[k].id == src);
            assert(is_dep(n2, src));
            assert(wf(n2));
            lemma_dep_idx_unique(n2, d, i);
        }
    }
}

/// Appending one message to a queue delivers it last: after every older
/// message, and only when it is addressed to the drained chain.
pub proof fn lemma_drain_snoc(l: LedgerV, q: Seq<Message>, m: Message, c: u32)
    ensures
        drain(l, q.push(m), c).0 == if m.dest == c {
            deliver_one(drain(l, q, c).0, m)
        } else {
            drain(l, q, c).0
        },
        drain(l, q.push(m), c).1 == if m.dest == c {
            drain(l, q, c).1
        } else {
            drain(l, q, c).1.push(m)
        },
    decreases q.len(),
{
    let qm = q.push(m);
    if q.len() == 0 {
        assert(qm[0] == m);
        assert(qm.skip(1) =~= Seq::<Message>::empty());
        assert(drain(l, q, c) == (l, Seq::<Message>::empty()));
        if m.dest == c {
            assert(drain(l, qm, c) == drain(deliver_one(l, m), qm.skip(1), c));
            assert(drain(deliver_one(l, m), qm.skip(1), c) == (
            deliver_one(l, m),
            Seq::<Message>::empty(),
            ));
        } else {
            assert(drain(l, qm, c).0 == drain(l, qm.skip(1), c).0);
            assert(drain(l, qm, c).1 == seq![m] + drain(l, qm.skip(1), c).1);
            assert(seq![m] + Seq::<Message>::empty() =~= Seq::<Message>::empty().push(m));
        }
    } else {
        assert(qm[0] == q[0]);
        assert(qm.skip(1) =~= q.skip(1).push(m));
        let l1 = if q[0].dest == c {
            deliver_one(l, q[0])
        } else {
            l
        };
        lemma_drain_snoc(l1, q.skip(1), m, c);
        if q[0].dest == c {
            assert(drain(l, qm, c) == drain(l1, q.skip(1).push(m), c));
            assert(drain(l, q, c) == drain(l1, q.skip(1), c));
        } else {
            assert(drain(l, qm, c).0 == drain(l1, q.skip(1).push(m), c).0);
            assert(drain(l, qm, c).1 == seq![q[0]] + drain(l1, q.skip(1).push(m), c).1);
            assert(drain(l, q, c).0 == drain(l1, q.skip(1), c).0);
            assert(drain(l, q, c).1 == seq![q[0]] + drain(l1, q.skip(1), c).1);
            if m.dest != c {
                assert(seq![q[0]] + drain(l1, q.skip(1), c).1.push(m) =~= (seq![q[0]] + drain(
                    l1,
                    q.skip(1),
                    c,
                ).1).push(m));
            }
        }
    }
}

/// The messages a drain of chain `c` leaves queued: those addressed
/// elsewhere.
pub open spec fn addressed_elsewhere(c: u32) -> spec_fn(Message) -> bool {
    |m: Message| m.dest != c
}

/// Draining is consuming: what stays queued after a drain is exactly the
/// traffic addressed elsewhere, in its queue order — every message for
/// the drained chain leaves its queue, so none is delivered twice.
pub proof fn lemma_drain_consuming(l: LedgerV, q: Seq<Message>, c: u32)
    ensures
        drain(l, q, c).1 == q.filter(addressed_elsewhere(c)),
    decreases q.len(),
{
    let pred = addressed_elsewhere(c);
    reveal_with_fuel(Seq::<_>::filter, 1);
    if q.len() == 0 {
        assert(q.filter(pred) =~= Seq::<Message>::empty());
        assert(drain(l, q, c).1 == Seq::<Message>::empty());
    } else {
        let p = q.drop_last();
        lemma_drain_consuming(l, p, c);
        lemma_drain_snoc(l, p, q.last(), c);
        assert(p.push(q.last()) =~= q);
        assert(pred(q.last()) == (q.last().dest != c));
        if q.last().dest != c {
            assert(q.filter(pred) == p.filter(pred).push(q.last()));
            assert(drain(l, q, c).1 == drain(l, p, c).1.push(q.last()));
        } else {
            assert(q.filter(pred) == p.filter(pred));
            assert(drain(l, q, c).1 == drain(l, p, c).1);
        }
    }
}

/// Downward delivery ordering: when two messages for the same chain are
/// queued one after the other, a drain of that chain delivers every older
/// message first, then the first of the two, then the second.
pub proof fn lemma_downward_fifo(l: LedgerV, q: Seq<Message>, m1: Message, m2: Message, c: u32)
    requires
        m1.dest == c,
        m2.dest == c,
    ensures
        drain(l, q.push(m1).push(m2), c).0 == deliver_one(
            deliver_one(drain(l, q, c).0, m1),
            m2,
        ),
{
    lemma_drain_snoc(l, q, m1, c);
    lemma_drain_snoc(l, q.push(m1), m2, c);
}

/// Reserve-transfer conservation at the destination: delivering the
/// credit either deposits exactly the transferred amount to the
/// beneficiary and records that deposit, or — only when the beneficiary's
/// balance would overflow — records one failure event and changes no
/// balance at all.
pub proof fn lemma_reserve_conservation(l: LedgerV, beneficiary: u64, amount: u128, m: Message)
    requires
        m.body == (Body::ReserveCredit { beneficiary, amount }),
    ensures
        bal(l.balances, beneficiary) + amount <= u128::MAX ==> {
            let l2 = deliver_one(l, m);
            &&& l2.events == l.events.push(Event::Deposited { account: beneficiary, amount })
            &&& bal(l2.balances, beneficiary) == bal(l.balances, beneficiary) + amount
            &&& forall|u: u64| u != beneficiary ==> bal(l2.balances, u) == bal(l.balances, u)
            &&& l2.block == l.block
        },
        bal(l.balances, beneficiary) + amount > u128::MAX ==> deliver_one(l, m) == with_event(
            l,
            Event::ExecutionFailed { reason: FailReason::Overflow },
        ),
{
    if bal(l.balances, beneficiary) + amount <= u128::MAX {
        let v = (bal(l.balances, beneficiary) + amount) as u128;
        lemma_bal_write_same(l.balances, beneficiary, v);
        assert forall|u: u64| u != beneficiary implies bal(
            deliver_one(l, m).balances,
            u,
        ) == bal(l.balances, u) by {
            lemma_bal_write_other(l.balances, beneficiary, v, u);
        }
    }
}

/// Replacing a registered chain's ledger reads back as that ledger and
/// touches no other chain's.
pub proof fn lemma_with_ledger_reads_back(n: NetV, c: u32, l: LedgerV)
    requires
        wf(n),
        registered(n, c),
    ensures
        ledger_of(with_ledger(n, c, l), c) == l,
{
    if c != n.coordinator_id {
        let n2 = with_ledger(n, c, l);
        let k = dep_idx(n, c);
        assert(is_dep(n, c));
        assert(0 <= k < n.deps.len() && n.deps[k].id == c);
        assert forall|j: int| 0 <= j < n2.deps.len() implies (#[trigger] n2.deps[j]).id
            == n.deps[j].id by {
        }
        assert forall|a: int, b: int| 0 <= a < b < n2.deps.len() implies (
        #[trigger] n2.deps[a]).id != (#[trigger] n2.deps[b]).id by {
            assert(n.deps[a].id != n.deps[b].id);
        }
        assert forall|j: int| 0 <= j < n2.deps.len() implies (#[trigger] n2.deps[j]).id
            != n2.coordinator_id by {
            assert(n.deps[j].id != n.coordinator_id);
        }
        assert(n2.deps[k].id == c);
        assert(is_dep(n2, c));
        match n.active {
            Some(a) => {
                if a != n.coordinator_id {
                    let ia = dep_idx(n, a);
                    assert(0 <= ia < n.deps.len() && n.deps[ia].id == a);
                    assert(n2.deps[ia].id == a);
                    assert(is_dep(n2, a));
                }
            },
            None => {},
        }
        assert(wf(n2));
        lemma_dep_idx_unique(n2, c, k);
    }
}

/// Reserve-transfer accounting at the source: an admitted transfer moves
/// exactly the amount from the reserving account into the destination's
/// sovereign account on the source ledger — every other balance is
/// untouched, and the withdrawal and the reserve deposit are on record.
pub proof fn lemma_reserve_source_accounting(
    n: NetV,
    from: u64,
    dest: u32,
    beneficiary: u64,
    amount: u128,
)
    requires
        wf(n),
        n.active is Some,
        crate::network::reserve_verdict(n, from, dest, crate::types::NATIVE_ASSET, amount)
            == Ok::<(), crate::types::NetError>(()),
    ensures
        ({
            let src = n.active.unwrap();
            let l = ledger_of(n, src);
            let l2 = ledger_of(reserve_apply(n, from, dest, beneficiary, amount), src);
            let sov = crate::executor::sovereign_account(dest);
            &&& from != sov ==> bal(l2.balances, from) == bal(l.balances, from) - amount && bal(
                l2.balances,
                sov,
            ) == bal(l.balances, sov) + amount
            &&& from == sov ==> bal(l2.balances, from) == bal(l.balances, from)
            &&& forall|u: u64|
                u != from && u != sov ==> bal(l2.balances, u) == bal(l.balances, u)
            &&& l2.events == l.events.push(Event::Withdrawn { account: from, amount }).push(
                Event::Deposited { account: sov, amount },
            )
            &&& l2.block == l.block
        }),
{
    let src = n.active.unwrap();
    let l = ledger_of(n, src);
    let sov = crate::executor::sovereign_account(dest);
    let b_from = bal(l.balances, from);
    let withdrawn = write_bal(l.balances, from, (b_from - amount) as u128);
    let written = LedgerV {
        block: l.block,
        balances: write_bal(withdrawn, sov, (bal(withdrawn, sov) + amount) as u128),
        events: l.events.push(Event::Withdrawn { account: from, amount }).push(
            Event::Deposited { account: sov, amount },
        ),
    };
    let n1 = with_ledger(n, src, written);
    let m = Message {
        source: src,
        dest,
        kind: crate::network::route_kind(n, src, dest),
        body: Body::ReserveCredit { beneficiary, amount },
    };
    let n2 = with_queued(n1, m);
    assert(reserve_apply(n, from, dest, beneficiary, amount) == n2);
    lemma_with_ledger_reads_back(n, src, written);
    // queueing the credit message reads back the same ledgers
    if src == n.coordinator_id {
        assert(n2.coordinator == written);
    } else {
        assert(is_dep(n, src));
        let k0 = dep_idx(n, src);
        assert(0 <= k0 < n.deps.len() && n.deps[k0].id == src);
        assert(n1.deps[k0].ledger == written && n1.deps[k0].id == src);
        assert(n2.deps == n1.deps);
        assert forall|j: int| 0 <= j < n2.deps.len() implies (#[trigger] n2.deps[j]).id
            == n.deps[j].id by {
        }
        assert forall|a: int, b: int| 0 <= a < b < n2.deps.len() implies (
        #[trigger] n2.deps[a]).id != (#[trigger] n2.deps[b]).id by {
            assert(n.deps[a].id != n.deps[b].id);
        }
        assert forall|j: int| 0 <= j < n2.deps.len() implies (#[trigger] n2.deps[j]).id
            != n2.coordinator_id by {
            assert(n.deps[j].id != n.coordinator_id);
        }
        assert(is_dep(n2, src));
        assert(wf(n2));
        lemma_dep_idx_unique(n2, src, k0);
    }
    assert(ledger_of(reserve_apply(n, from, dest, beneficiary, amount), src) == written);
    lemma_bal_write_same(l.balances, from, (b_from - amount) as u128);
    lemma_bal_write_same(withdrawn, sov, (bal(withdrawn, sov) + amount) as u128);
    if from != sov {
        lemma_bal_write_other(l.balances, from, (b_from - amount) as u128, sov);
        lemma_bal_write_other(withdrawn, sov, (bal(withdrawn, sov) + amount) as u128, from);
    }
    assert forall|u: u64| u != from && u != sov implies bal(written.balances, u) == bal(
        l.balances,
        u,
    ) by {
        lemma_bal_write_other(l.balances, from, (b_from - amount) as u128, u);
        lemma_bal_write_other(withdrawn, sov, (bal(withdrawn, sov) + amount) as u128, u);
    }
}

/// Reserve-transfer conservation end to end: on a network with no
/// pending downward or relayed traffic, an admitted reserve transfer out
/// of the coordinator followed by entering the destination leaves the
/// beneficiary's balance there higher by exactly the transferred amount,
/// with the deposit on record — provided the credit itself cannot
/// overflow.
pub proof fn lemma_reserve_transfer_scenario(
    n: NetV,
    from: u64,
    dest: u32,
    beneficiary: u64,
    amount: u128,
)
    requires
        wf(n),
        n.active == Some(n.coordinator_id),
        is_dep(n, dest),
        dest != n.coordinator_id,
        n.downbox == Seq::<Message>::empty(),
        n.relay == Seq::<Message>::empty(),
        crate::network::reserve_verdict(n, from, dest, crate::types::NATIVE_ASSET, amount)
            == Ok::<(), crate::types::NetError>(()),
        bal(ledger_of(n, dest).balances, beneficiary) + amount <= u128::MAX,
    ensures
        ({
            let n2 = enter_v(reserve_apply(n, from, dest, beneficiary, amount), dest);
            &&& bal(ledger_of(n2, dest).balances, beneficiary) == bal(
                ledger_of(n, dest).balances,
                beneficiary,
            ) + amount
            &&& ledger_of(n2, dest).events == ledger_of(n, dest).events.push(
                Event::Deposited { account: beneficiary, amount },
            )
        }),
{
    let src = n.coordinator_id;
    let n1 = reserve_apply(n, from, dest, beneficiary, amount);
    let m = Message {
        source: src,
        dest,
        kind: crate::types::MessageKind::Downward,
        body: Body::ReserveCredit { beneficiary, amount },
    };
    assert(n1.downbox =~= seq![m]);
    assert(n1.deps == n.deps && n1.coordinator_id == n.coordinator_id && n1.relay == n.relay);
    let i = dep_idx(n, dest);
    assert(0 <= i < n.deps.len() && n.deps[i].id == dest);
    lemma_dep_idx_unique(n, dest, i);
    assert(wf(n1));
    lemma_dep_idx_unique(n1, dest, i);
    let dep = n1.deps[i];
    assert(dep.ledger == ledger_of(n, dest));
    let l0 = LedgerV { block: crate::ledger::bumped(dep.ledger.block), ..dep.ledger };
    // draining the one-message downbox delivers exactly the credit
    assert(seq![m][0] == m);
    assert(seq![m].skip(1) =~= Seq::<Message>::empty());
    assert(drain(deliver_one(l0, m), Seq::<Message>::empty(), dest).0 == deliver_one(l0, m));
    assert(drain(l0, seq![m], dest).0 == deliver_one(l0, m));
    let l1 = deliver_one(l0, m);
    assert(drain(l1, n1.relay, dest).0 == l1);
    let n2 = enter_v(n1, dest);
    assert(n2.deps[i].ledger == l1);
    lemma_reserve_conservation(l0, beneficiary, amount, m);
    assert forall|j: int| 0 <= j < n2.deps.len() implies (#[trigger] n2.deps[j]).id
        == n1.deps[j].id by {
    }
    assert forall|a: int, b: int| 0 <= a < b < n2.deps.len() implies (#[trigger] n2.deps[a]).id
        != (#[trigger] n2.deps[b]).id by {
        assert(n1.deps[a].id != n1.deps[b].id);
    }
    assert(n2.deps[i].id == dest);
    assert(is_dep(n2, dest));
    assert(wf(n2));
    lemma_dep_idx_unique(n2, dest, i);
}

/// Weight ceiling enforcement: a transacted call whose weight exceeds the
/// declared ceiling records exactly one weight-limit failure event on the
/// destination and mutates nothing else.
pub proof fn lemma_weight_ceiling(l: LedgerV, m: Message)
    requires
        m.body matches Body::Transact { origin_kind, require_weight_at_most, call }
            && origin_kind == OriginKind::SovereignAccount && decode_v(call@) is Some && weight_v(
            decode_v(call@).unwrap(),
        ) > require_weight_at_most,
    ensures
        deliver_one(l, m) == with_event(
            l,
            Event::ExecutionFailed { reason: FailReason::WeightLimitExceeded },
        ),
        deliver_one(l, m).balances == l.balances,
        deliver_one(l, m).block == l.block,
{
}

} // verus!
