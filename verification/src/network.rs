//! The network scheduler: the topology of one coordinator and its
//! dependent chains, the channel queues between them, and the scoped
//! `enter` operation that drains every queue addressed to a chain before
//! code runs against it.

use vstd::prelude::*;

use crate::executor::{deliver, deliver_one, sovereign_account, sovereign_account_of};
use crate::ledger::{
    bal, bumped, fresh_ledger, lemma_bal_write_other, lemma_bal_write_same, write_bal, Ledger,
    LedgerV,
};
use crate::types::{
    Body, Event, HostConfig, Message, MessageKind, NetError, OriginKind, NATIVE_ASSET,
};

verus! {

/// One dependent chain's registry slot: its identifier, its genesis
/// endowment (kept so `reset` can rebuild the ledger), and its ledger.
pub struct Dep {
    pub(crate) id: u32,
    pub(crate) endowed: Vec<(u64, u128)>,
    pub(crate) ledger: Ledger,
}

/// The mathematical value of a dependent's registry slot.
pub ghost struct DepV {
    /// Chain identifier.
    pub id: u32,
    /// Genesis endowment.
    pub endowed: Seq<(u64, u128)>,
    /// Current ledger state.
    pub ledger: LedgerV,
}

impl View for Dep {
    type V = DepV;

    closed spec fn view(&self) -> DepV {
        DepV { id: self.id, endowed: self.endowed@, ledger: self.ledger@ }
    }
}

/// The mathematical value of the whole network.
#[verifier::ext_equal]
pub ghost struct NetV {
    /// The coordinator's identifier.
    pub coordinator_id: u32,
    /// The coordinator's genesis endowment.
    pub coordinator_endowed: Seq<(u64, u128)>,
    /// The coordinator's ledger.
    pub coordinator: LedgerV,
    /// The dependent chains, in registration order.
    pub deps: Seq<DepV>,
    /// Pending downward messages, oldest first.
    pub downbox: Seq<Message>,
    /// Pending upward messages, oldest first.
    pub upbox: Seq<Message>,
    /// Horizontal messages staged at their sources, not yet seen by the
    /// coordinator.
    pub hstage: Seq<Message>,
    /// Horizontal messages the coordinator has relayed, awaiting their
    /// destinations.
    pub relay: Seq<Message>,
    /// The chain whose `enter` scope is open, if any.
    pub active: Option<u32>,
    /// Queue ceilings.
    pub config: HostConfig,
}

/// Whether `c` names a registered dependent chain.
pub open spec fn is_dep(n: NetV, c: u32) -> bool {
    exists|i: int| 0 <= i < n.deps.len() && n.deps[i].id == c
}

/// Whether `c` is registered in the topology.
pub open spec fn registered(n: NetV, c: u32) -> bool {
    c == n.coordinator_id || is_dep(n, c)
}

/// The registry index of dependent `c`.
pub open spec fn dep_idx(n: NetV, c: u32) -> int {
    choose|i: int| 0 <= i < n.deps.len() && n.deps[i].id == c
}

/// Topology validity: at least one dependent, no dependent named like the
/// coordinator, identifiers unique, and any open scope names a registered
/// chain.
pub open spec fn wf(n: NetV) -> bool {
    &&& n.deps.len() >= 1
    &&& forall|i: int| 0 <= i < n.deps.len() ==> n.deps[i].id != n.coordinator_id
    &&& forall|i: int, j: int|
        0 <= i < j < n.deps.len() ==> n.deps[i].id != n.deps[j].id
    &&& match n.active {
        Some(c) => registered(n, c),
        None => true,
    }
}

/// Draining a queue into a ledger: every message addressed to `c` is
/// delivered in order and consumed; every other message stays queued in
/// order. Returns the ledger after the drain and the kept queue.
pub open spec fn drain(l: LedgerV, q: Seq<Message>, c: u32) -> (LedgerV, Seq<Message>)
    decreases q.len(),
{
    if q.len() == 0 {
        (l, Seq::empty())
    } else if q[0].dest == c {
        drain(deliver_one(l, q[0]), q.skip(1), c)
    } else {
        let r = drain(l, q.skip(1), c);
        (r.0, seq![q[0]] + r.1)
    }
}

/// The network after `reset`: every ledger back at its genesis state,
/// every queue empty, no scope open. The registry itself is untouched.
pub open spec fn reset_v(n: NetV) -> NetV {
    NetV {
        coordinator: fresh_ledger(n.coordinator_endowed),
        deps: Seq::new(
            n.deps.len(),
            |i: int|
                DepV {
                    id: n.deps[i].id,
                    endowed: n.deps[i].endowed,
                    ledger: fresh_ledger(n.deps[i].endowed),
                },
        ),
        downbox: Seq::empty(),
        upbox: Seq::empty(),
        hstage: Seq::empty(),
        relay: Seq::empty(),
        active: None,
        ..n
    }
}

/// The network after entering registered chain `c`: the entered ledger
/// advances one block and receives, in order, every queued message
/// addressed to it — a dependent drains its downward traffic first and
/// then the horizontal traffic relayed to it; entering the coordinator
/// drains its upward traffic and additionally moves all staged horizontal
/// messages into the relay queue; the scope opens on `c`. No other ledger
/// changes.
pub open spec fn enter_v(n: NetV, c: u32) -> NetV {
    if c == n.coordinator_id {
        let l0 = LedgerV { block: bumped(n.coordinator.block), ..n.coordinator };
        let d = drain(l0, n.upbox, c);
        NetV {
            coordinator: d.0,
            upbox: d.1,
            relay: n.relay + n.hstage,
            hstage: Seq::empty(),
            active: Some(c),
            ..n
        }
    } else {
        let k = dep_idx(n, c);
        let dep = n.deps[k];
        let l0 = LedgerV { block: bumped(dep.ledger.block), ..dep.ledger };
        let d1 = drain(l0, n.downbox, c);
        let d2 = drain(d1.0, n.relay, c);
        NetV {
            deps: n.deps.update(k, DepV { ledger: d2.0, ..dep }),
            downbox: d1.1,
            relay: d2.1,
            active: Some(c),
            ..n
        }
    }
}

/// The channel kind a message takes from `src` to `dst`: downward out of
/// the coordinator, upward into it, horizontal between dependents.
pub open spec fn route_kind(n: NetV, src: u32, dst: u32) -> MessageKind {
    if src == n.coordinator_id {
        MessageKind::Downward
    } else if dst == n.coordinator_id {
        MessageKind::Upward
    } else {
        MessageKind::Horizontal
    }
}

/// The physical queue a channel kind feeds.
pub open spec fn queue_of(n: NetV, k: MessageKind) -> Seq<Message> {
    match k {
        MessageKind::Downward => n.downbox,
        MessageKind::Upward => n.upbox,
        MessageKind::Horizontal => n.hstage,
    }
}

/// The network with one more message queued on its channel.
pub open spec fn with_queued(n: NetV, m: Message) -> NetV {
    match m.kind {
        MessageKind::Downward => NetV { downbox: n.downbox.push(m), ..n },
        MessageKind::Upward => NetV { upbox: n.upbox.push(m), ..n },
        MessageKind::Horizontal => NetV { hstage: n.hstage.push(m), ..n },
    }
}

/// Whether the configured queue-depth ceiling admits one more message on
/// the channel.
pub open spec fn queue_ok(n: NetV, k: MessageKind) -> bool {
    match n.config.max_queue_len {
        None => true,
        Some(mx) => queue_of(n, k).len() < mx,
    }
}

/// Whether the configured payload-size ceiling admits a payload of
/// `len` bytes.
pub open spec fn size_ok(n: NetV, len: nat) -> bool {
    match n.config.max_message_size {
        None => true,
        Some(mx) => len <= mx,
    }
}

/// The ledger of registered chain `c`.
pub open spec fn ledger_of(n: NetV, c: u32) -> LedgerV {
    if c == n.coordinator_id {
        n.coordinator
    } else {
        n.deps[dep_idx(n, c)].ledger
    }
}

/// The network with registered chain `c`'s ledger replaced.
pub open spec fn with_ledger(n: NetV, c: u32, l: LedgerV) -> NetV {
    if c == n.coordinator_id {
        NetV { coordinator: l, ..n }
    } else {
        let k = dep_idx(n, c);
        NetV { deps: n.deps.update(k, DepV { ledger: l, ..n.deps[k] }), ..n }
    }
}

/// Whether a transact send is admitted, and the error rejecting it
/// otherwise, in the order the checks are made.
pub open spec fn send_verdict(n: NetV, dest: u32, payload_len: nat) -> Result<(), NetError> {
    match n.active {
        None => Err(NetError::NotEntered),
        Some(src) => if !registered(n, dest) {
            Err(NetError::UnknownChain)
        } else if dest == src {
            Err(NetError::SelfDestination)
        } else if !size_ok(n, payload_len) {
            Err(NetError::MessageTooLarge)
        } else if !queue_ok(n, route_kind(n, src, dest)) {
            Err(NetError::CapacityExceeded)
        } else {
            Ok(())
        },
    }
}

/// Whether a reserve transfer is admitted, and the error rejecting it
/// otherwise. Insufficient balance and overflow are found before any
/// state changes, so a rejected transfer leaves no partial state.
pub open spec fn reserve_verdict(
    n: NetV,
    from: u64,
    dest: u32,
    asset: u64,
    amount: u128,
) -> Result<(), NetError> {
    match n.active {
        None => Err(NetError::NotEntered),
        Some(src) => if !registered(n, dest) {
            Err(NetError::UnknownChain)
        } else if dest == src {
            Err(NetError::SelfDestination)
        } else if asset != NATIVE_ASSET {
            Err(NetError::UnsupportedAsset)
        } else if !queue_ok(n, route_kind(n, src, dest)) {
            Err(NetError::CapacityExceeded)
        } else if bal(ledger_of(n, src).balances, from) < amount {
            Err(NetError::InsufficientBalance)
        } else if bal(
            write_bal(
                ledger_of(n, src).balances,
                from,
                (bal(ledger_of(n, src).balances, from) - amount) as u128,
            ),
            sovereign_account(dest),
        ) + amount > u128::MAX {
            Err(NetError::BalanceOverflow)
        } else {
            Ok(())
        },
    }
}

/// The network after an admitted reserve transfer: on the source ledger
/// the amount moves from `from` to the destination's sovereign account
/// (the reserve), and a credit message for the beneficiary is queued to
/// the destination.
pub open spec fn reserve_apply(
    n: NetV,
    from: u64,
    dest: u32,
    beneficiary: u64,
    amount: u128,
) -> NetV {
    let src = n.active.unwrap();
    let l = ledger_of(n, src);
    let l1 = LedgerV {
        block: l.block,
        balances: write_bal(l.balances, from, (bal(l.balances, from) - amount) as u128),
        events: l.events.push(Event::Withdrawn { account: from, amount }),
    };
    let sov = sovereign_account(dest);
    let l2 = LedgerV {
        block: l1.block,
        balances: write_bal(l1.balances, sov, (bal(l1.balances, sov) + amount) as u128),
        events: l1.events.push(Event::Deposited { account: sov, amount }),
    };
    with_queued(
        with_ledger(n, src, l2),
        Message {
            source: src,
            dest,
            kind: route_kind(n, src, dest),
            body: Body::ReserveCredit { beneficiary, amount },
        },
    )
}

/// The network scheduler: owns every ledger and every channel queue.
pub struct Network {
    pub(crate) coordinator_id: u32,
    pub(crate) coordinator_endowed: Vec<(u64, u128)>,
    pub(crate) coordinator: Ledger,
    pub(crate) deps: Vec<Dep>,
    pub(crate) downbox: Vec<Message>,
    pub(crate) upbox: Vec<Message>,
    pub(crate) hstage: Vec<Message>,
    pub(crate) relay: Vec<Message>,
    pub(crate) active: Option<u32>,
    pub(crate) config: HostConfig,
}

impl View for Network {
    type V = NetV;

    closed spec fn view(&self) -> NetV {
        NetV {
            coordinator_id: self.coordinator_id,
            coordinator_endowed: self.coordinator_endowed@,
            coordinator: self.coordinator@,
            deps: Seq::new(self.deps@.len(), |i: int| self.deps@[i]@),
            downbox: self.downbox@,
            upbox: self.upbox@,
            hstage: self.hstage@,
            relay: self.relay@,
            active: self.active,
            config: self.config,
        }
    }
}

impl Dep {
    /// Pack one dependent's registry slot.
    pub(crate) fn make(id: u32, endowed: Vec<(u64, u128)>, ledger: Ledger) -> (d: Dep)
        ensures
            d@ == (DepV { id, endowed: endowed@, ledger: ledger@ }),
    {
        Dep { id, endowed, ledger }
    }
}

impl Network {
    /// Assemble a freshly built network: the given registry, every queue
    /// empty, no scope open.
    pub(crate) fn assemble(
        coordinator_id: u32,
        coordinator_endowed: Vec<(u64, u128)>,
        coordinator: Ledger,
        deps: Vec<Dep>,
        config: HostConfig,
    ) -> (n: Network)
        ensures
            n@ == (NetV {
                coordinator_id,
                coordinator_endowed: coordinator_endowed@,
                coordinator: coordinator@,
                deps: Seq::new(deps@.len(), |i: int| deps@[i]@),
                downbox: Seq::empty(),
                upbox: Seq::empty(),
                hstage: Seq::empty(),
                relay: Seq::empty(),
                active: None,
                config,
            }),
    {
        let n = Network {
            coordinator_id,
            coordinator_endowed,
            coordinator,
            deps,
            downbox: Vec::new(),
            upbox: Vec::new(),
            hstage: Vec::new(),
            relay: Vec::new(),
            active: None,
            config,
        };
        proof {
            assert(n@ =~= (NetV {
                coordinator_id: n@.coordinator_id,
                coordinator_endowed: n@.coordinator_endowed,
                coordinator: n@.coordinator,
                deps: n@.deps,
                downbox: Seq::empty(),
                upbox: Seq::empty(),
                hstage: Seq::empty(),
                relay: Seq::empty(),
                active: None,
                config: n@.config,
            }));
        }
        n
    }

    /// Find the registry index of dependent `c`.
    fn find_dep(&self, c: u32) -> (r: Option<usize>)
        requires
            wf(self@),
        ensures
            match r {
                Some(k) => k < self@.deps.len() && self@.deps[k as int].id == c && is_dep(
                    self@,
                    c,
                ) && dep_idx(self@, c) == k,
                None => !is_dep(self@, c),
            },
    {
        let n = self.deps.len();
        let mut i: usize = 0;
        while i < n
            invariant
                wf(self@),
                n == self@.deps.len(),
                i <= n,
                forall|j: int| 0 <= j < i ==> self@.deps[j].id != c,
            decreases n - i,
        {
            if self.deps[i].id == c {
                proof {
                    assert(self@.deps[i as int].id == c);
                    assert(is_dep(self@, c));
                    let k = dep_idx(self@, c);
                    assert(0 <= k < self@.deps.len() && self@.deps[k].id == c);
                    if k < i as int {
                        assert(self@.deps[k].id != self@.deps[i as int].id);
                    } else if k > i as int {
                        assert(self@.deps[i as int].id != self@.deps[k].id);
                    }
                }
                return Some(i);
            }
            i += 1;
        }
        None
    }

    /// Re-initialize every ledger to fresh genesis state and clear every
    /// queue. Callable repeatedly; no residue of a prior scenario remains.
    pub fn reset(&mut self)
        requires
            wf(old(self)@),
        ensures
            final(self)@ == reset_v(old(self)@),
            wf(final(self)@),
    {
        self.coordinator = Ledger::initialize(&self.coordinator_endowed);
        self.downbox = Vec::new();
        self.upbox = Vec::new();
        self.hstage = Vec::new();
        self.relay = Vec::new();
        self.active = None;
        let n = self.deps.len();
        let mut i: usize = 0;
        while i < n
            invariant
                n == self@.deps.len(),
                i <= n,
                self@.coordinator_id == old(self)@.coordinator_id,
                self@.coordinator_endowed == old(self)@.coordinator_endowed,
                self@.coordinator == fresh_ledger(old(self)@.coordinator_endowed),
                self@.downbox == Seq::<Message>::empty(),
                self@.upbox == Seq::<Message>::empty(),
                self@.hstage == Seq::<Message>::empty(),
                self@.relay == Seq::<Message>::empty(),
                self@.active is None,
                self@.config == old(self)@.config,
                self@.deps.len() == old(self)@.deps.len(),
                forall|j: int|
                    0 <= j < n ==> (#[trigger] self@.deps[j]).id == old(self)@.deps[j].id
                        && self@.deps[j].endowed == old(self)@.deps[j].endowed,
                forall|j: int|
                    0 <= j < i ==> (#[trigger] self@.deps[j]).ledger == fresh_ledger(
                        old(self)@.deps[j].endowed,
                    ),
            decreases n - i,
        {
            let ghost pre = self@;
            let mut d = self.deps.remove(i);
            d.ledger = Ledger::initialize(&d.endowed);
            self.deps.insert(i, d);
            proof {
                assert(self@.deps =~= pre.deps.update(i as int, d@));
                assert(d@.id == pre.deps[i as int].id);
                assert(d@.endowed == pre.deps[i as int].endowed);
                assert(d@.ledger == fresh_ledger(pre.deps[i as int].endowed));
                assert forall|j: int| 0 <= j < n implies (#[trigger] self@.deps[j]).id == old(
                    self,
                )@.deps[j].id && self@.deps[j].endowed == old(self)@.deps[j].endowed by {
                    if j != i as int {
                        assert(self@.deps[j] == pre.deps[j]);
                    }
                }
                assert forall|j: int| 0 <= j < i + 1 implies (#[trigger] self@.deps[j]).ledger
                    == fresh_ledger(old(self)@.deps[j].endowed) by {
                    if j != i as int {
                        assert(self@.deps[j] == pre.deps[j]);
                    }
                }
            }
            i += 1;
        }
        proof {
            assert(final(self)@ =~= reset_v(old(self)@));
        }
    }

    /// Open an execution scope on chain `c`. Delivers every queued message
    /// addressed to `c` first, in queue order; entering the coordinator
    /// also relays all staged horizontal traffic. An unknown chain is
    /// rejected and nothing changes.
    pub fn enter(&mut self, c: u32) -> (r: Result<(), NetError>)
        requires
            wf(old(self)@),
        ensures
            wf(final(self)@),
            registered(old(self)@, c) ==> r is Ok && final(self)@ == enter_v(old(self)@, c),
            !registered(old(self)@, c) ==> r == Err::<(), NetError>(NetError::UnknownChain)
                && final(self)@ == old(self)@,
    {
        if c == self.coordinator_id {
            self.coordinator.advance_block();
            let ghost l0 = self.coordinator@;
            let mut work: Vec<Message> = Vec::new();
            core::mem::swap(&mut work, &mut self.upbox);
            let ghost q0 = work@;
            while work.len() > 0
                invariant
                    drain(self.coordinator@, work@, c).0 == drain(l0, q0, c).0,
                    self@.upbox + drain(self.coordinator@, work@, c).1 == drain(l0, q0, c).1,
                    self@.coordinator_id == old(self)@.coordinator_id,
                    c == self@.coordinator_id,
                    self@.coordinator_endowed == old(self)@.coordinator_endowed,
                    self@.deps == old(self)@.deps,
                    self@.downbox == old(self)@.downbox,
                    self@.hstage == old(self)@.hstage,
                    self@.relay == old(self)@.relay,
                    self@.active == old(self)@.active,
                    self@.config == old(self)@.config,
                decreases work@.len(),
            {
                let ghost pre_l = self.coordinator@;
                let ghost pre_q = work@;
                let m = work.remove(0);
                proof {
                    assert(pre_q.remove(0) =~= pre_q.skip(1));
                }
                if m.dest == c {
                    deliver(&mut self.coordinator, m);
                } else {
                    self.upbox.push(m);
                    proof {
                        assert(drain(pre_l, pre_q, c).1 == seq![pre_q[0]] + drain(
                            pre_l,
                            pre_q.skip(1),
                            c,
                        ).1);
                        assert(self@.upbox + drain(self.coordinator@, work@, c).1 =~= (
                        self@.upbox.drop_last() + drain(pre_l, pre_q, c).1));
                    }
                }
            }
            proof {
                assert(drain(self.coordinator@, work@, c).1 =~= Seq::<Message>::empty());
                assert(self@.upbox + Seq::<Message>::empty() =~= self@.upbox);
            }
            let mut stage: Vec<Message> = Vec::new();
            core::mem::swap(&mut stage, &mut self.hstage);
            self.relay.append(&mut stage);
            self.active = Some(c);
            proof {
                assert(final(self)@ =~= enter_v(old(self)@, c));
            }
            Ok(())
        } else {
            let found = self.find_dep(c);
            match found {
                None => Err(NetError::UnknownChain),
                Some(k) => {
                    let ghost kk = k as int;
                    let mut dep = self.deps.remove(k);
                    dep.ledger.advance_block();
                    let ghost l0 = dep.ledger@;

                    let mut work: Vec<Message> = Vec::new();
                    core::mem::swap(&mut work, &mut self.downbox);
                    let ghost q0 = work@;
                    while work.len() > 0
                        invariant
                            drain(dep.ledger@, work@, c).0 == drain(l0, q0, c).0,
                            self@.downbox + drain(dep.ledger@, work@, c).1 == drain(
                                l0,
                                q0,
                                c,
                            ).1,
                            dep@.id == old(self)@.deps[kk].id,
                            dep@.endowed == old(self)@.deps[kk].endowed,
                            self@.coordinator_id == old(self)@.coordinator_id,
                            self@.coordinator_endowed == old(self)@.coordinator_endowed,
                            self@.coordinator == old(self)@.coordinator,
                            self@.deps == old(self)@.deps.remove(kk),
                            self@.upbox == old(self)@.upbox,
                            self@.hstage == old(self)@.hstage,
                            self@.relay == old(self)@.relay,
                            self@.active == old(self)@.active,
                            self@.config == old(self)@.config,
                        decreases work@.len(),
                    {
                        let ghost pre_l = dep.ledger@;
                        let ghost pre_q = work@;
                        let m = work.remove(0);
                        proof {
                            assert(pre_q.remove(0) =~= pre_q.skip(1));
                        }
                        if m.dest == c {
                            deliver(&mut dep.ledger, m);
                        } else {
                            self.downbox.push(m);
                            proof {
                                assert(drain(pre_l, pre_q, c).1 == seq![pre_q[0]] + drain(
                                    pre_l,
                                    pre_q.skip(1),
                                    c,
                                ).1);
                                assert(self@.downbox + drain(dep.ledger@, work@, c).1 =~= (
                                self@.downbox.drop_last() + drain(pre_l, pre_q, c).1));
                            }
                        }
                    }
                    proof {
                        assert(drain(dep.ledger@, work@, c).1 =~= Seq::<Message>::empty());
                        assert(self@.downbox + Seq::<Message>::empty() =~= self@.downbox);
                    }

                    let ghost l1 = dep.ledger@;
                    let mut work2: Vec<Message> = Vec::new();
                    core::mem::swap(&mut work2, &mut self.relay);
                    let ghost r0 = work2@;
                    while work2.len() > 0
                        invariant
                            drain(dep.ledger@, work2@, c).0 == drain(l1, r0, c).0,
                            self@.relay + drain(dep.ledger@, work2@, c).1 == drain(
                                l1,
                                r0,
                                c,
                            ).1,
                            dep@.id == old(self)@.deps[kk].id,
                            dep@.endowed == old(self)@.deps[kk].endowed,
                            self@.coordinator_id == old(self)@.coordinator_id,
                            self@.coordinator_endowed == old(self)@.coordinator_endowed,
                            self@.coordinator == old(self)@.coordinator,
                            self@.deps == old(self)@.deps.remove(kk),
                            self@.downbox == drain(l0, q0, c).1,
                            self@.upbox == old(self)@.upbox,
                            self@.hstage == old(self)@.hstage,
                            self@.active == old(self)@.active,
                            self@.config == old(self)@.config,
                        decreases work2@.len(),
                    {
                        let ghost pre_l = dep.ledger@;
                        let ghost pre_q = work2@;
                        let m = work2.remove(0);
                        proof {
                            assert(pre_q.remove(0) =~= pre_q.skip(1));
                        }
                        if m.dest == c {
                            deliver(&mut dep.ledger, m);
                        } else {
                            self.relay.push(m);
                            proof {
                                assert(drain(pre_l, pre_q, c).1 == seq![pre_q[0]] + drain(
                                    pre_l,
                                    pre_q.skip(1),
                                    c,
                                ).1);
                                assert(self@.relay + drain(dep.ledger@, work2@, c).1 =~= (
                                self@.relay.drop_last() + drain(pre_l, pre_q, c).1));
                            }
                        }
                    }
                    proof {
                        assert(drain(dep.ledger@, work2@, c).1 =~= Seq::<Message>::empty());
                        assert(self@.relay + Seq::<Message>::empty() =~= self@.relay);
                    }

                    self.deps.insert(k, dep);
                    self.active = Some(c);
                    proof {
                        assert(old(self)@.deps.remove(kk).insert(kk, final(self)@.deps[kk])
                            =~= old(self)@.deps.update(kk, final(self)@.deps[kk]));
                        assert(final(self)@ =~= enter_v(old(self)@, c));
                    }
                    Ok(())
                },
            }
        }
    }

    /// Queue a transacted call from the active chain to `dest`. The
    /// message joins the channel its route dictates and is delivered on
    /// the destination's next entry; a rejected send changes nothing.
    pub fn send_transact(
        &mut self,
        dest: u32,
        origin_kind: OriginKind,
        require_weight_at_most: u64,
        call: Vec<u8>,
    ) -> (r: Result<(), NetError>)
        requires
            wf(old(self)@),
        ensures
            wf(final(self)@),
            r == send_verdict(old(self)@, dest, call@.len()),
            r is Ok ==> final(self)@ == with_queued(
                old(self)@,
                (Message {
                    source: old(self)@.active.unwrap(),
                    dest,
                    kind: route_kind(old(self)@, old(self)@.active.unwrap(), dest),
                    body: Body::Transact { origin_kind, require_weight_at_most, call },
                }),
            ),
            r is Err ==> final(self)@ == old(self)@,
    {
        let src = match self.active {
            None => {
                return Err(NetError::NotEntered);
            },
            Some(s) => s,
        };
        let dest_registered = dest == self.coordinator_id || self.find_dep(dest).is_some();
        if !dest_registered {
            return Err(NetError::UnknownChain);
        }
        if dest == src {
            return Err(NetError::SelfDestination);
        }
        match self.config.max_message_size {
            Some(mx) => {
                if call.len() > mx {
                    return Err(NetError::MessageTooLarge);
                }
            },
            None => {},
        }
        let kind = if src == self.coordinator_id {
            MessageKind::Downward
        } else if dest == self.coordinator_id {
            MessageKind::Upward
        } else {
            MessageKind::Horizontal
        };
        match self.config.max_queue_len {
            Some(mx) => {
                let qlen = match kind {
                    MessageKind::Downward => self.downbox.len(),
                    MessageKind::Upward => self.upbox.len(),
                    MessageKind::Horizontal => self.hstage.len(),
                };
                if qlen >= mx {
                    return Err(NetError::CapacityExceeded);
                }
            },
            None => {},
        }
        let m = Message {
            source: src,
            dest,
            kind,
            body: Body::Transact { origin_kind, require_weight_at_most, call },
        };
        match kind {
            MessageKind::Downward => self.downbox.push(m),
            MessageKind::Upward => self.upbox.push(m),
            MessageKind::Horizontal => self.hstage.push(m),
        }
        proof {
            assert(final(self)@ =~= with_queued(
                old(self)@,
                Message {
                    source: old(self)@.active.unwrap(),
                    dest,
                    kind: route_kind(old(self)@, old(self)@.active.unwrap(), dest),
                    body: Body::Transact { origin_kind, require_weight_at_most, call },
                },
            ));
        }
        Ok(())
    }

    /// Reserve `amount` of the native asset on the active chain for
    /// `dest`: the amount moves from `from` into the destination's
    /// sovereign account, and a credit of the full amount for
    /// `beneficiary` is queued to the destination. Insufficient balance
    /// and every other rejection surface here, before any state changes.
    pub fn reserve_transfer(
        &mut self,
        from: u64,
        dest: u32,
        beneficiary: u64,
        asset: u64,
        amount: u128,
    ) -> (r: Result<(), NetError>)
        requires
            wf(old(self)@),
        ensures
            wf(final(self)@),
            r == reserve_verdict(old(self)@, from, dest, asset, amount),
            r is Ok ==> final(self)@ == reserve_apply(old(self)@, from, dest, beneficiary, amount),
            r is Err ==> final(self)@ == old(self)@,
    {
        let src = match self.active {
            None => {
                return Err(NetError::NotEntered);
            },
            Some(s) => s,
        };
        let dest_registered = dest == self.coordinator_id || self.find_dep(dest).is_some();
        if !dest_registered {
            return Err(NetError::UnknownChain);
        }
        if dest == src {
            return Err(NetError::SelfDestination);
        }
        if asset != NATIVE_ASSET {
            return Err(NetError::UnsupportedAsset);
        }
        let kind = if src == self.coordinator_id {
            MessageKind::Downward
        } else if dest == self.coordinator_id {
            MessageKind::Upward
        } else {
            MessageKind::Horizontal
        };
        match self.config.max_queue_len {
            Some(mx) => {
                let qlen = match kind {
                    MessageKind::Downward => self.downbox.len(),
                    MessageKind::Upward => self.upbox.len(),
                    MessageKind::Horizontal => self.hstage.len(),
                };
                if qlen >= mx {
                    return Err(NetError::CapacityExceeded);
                }
            },
            None => {},
        }
        let sov = sovereign_account_of(dest);
        let m = Message {
            source: src,
            dest,
            kind,
            body: Body::ReserveCredit { beneficiary, amount },
        };
        if src == self.coordinator_id {
            let b_from = self.coordinator.balance(from);
            if b_from < amount {
                return Err(NetError::InsufficientBalance);
            }
            proof {
                lemma_bal_write_same(self@.coordinator.balances, from, (b_from - amount) as u128);
                if sov != from {
                    lemma_bal_write_other(
                        self@.coordinator.balances,
                        from,
                        (b_from - amount) as u128,
                        sov,
                    );
                }
            }
            let b_sov_after = if sov == from {
                b_from - amount
            } else {
                self.coordinator.balance(sov)
            };
            if amount > u128::MAX - b_sov_after {
                return Err(NetError::BalanceOverflow);
            }
            self.coordinator.write_balance(from, b_from - amount);
            self.coordinator.note(Event::Withdrawn { account: from, amount });
            self.coordinator.write_balance(sov, b_sov_after + amount);
            self.coordinator.note(Event::Deposited { account: sov, amount });
            match kind {
                MessageKind::Downward => self.downbox.push(m),
                MessageKind::Upward => self.upbox.push(m),
                MessageKind::Horizontal => self.hstage.push(m),
            }
            proof {
                assert(final(self)@ =~= reserve_apply(old(self)@, from, dest, beneficiary, amount));
            }
            Ok(())
        } else {
            let found = self.find_dep(src);
            let k = match found {
                Some(k) => k,
                None => {
                    return Err(NetError::NotEntered);
                },
            };
            let ghost kk = k as int;
            let b_from = self.deps[k].ledger.balance(from);
            if b_from < amount {
                return Err(NetError::InsufficientBalance);
            }
            proof {
                lemma_bal_write_same(
                    self@.deps[kk].ledger.balances,
                    from,
                    (b_from - amount) as u128,
                );
                if sov != from {
                    lemma_bal_write_other(
                        self@.deps[kk].ledger.balances,
                        from,
                        (b_from - amount) as u128,
                        sov,
                    );
                }
            }
            let b_sov_after = if sov == from {
                b_from - amount
            } else {
                self.deps[k].ledger.balance(sov)
            };
            if amount > u128::MAX - b_sov_after {
                return Err(NetError::BalanceOverflow);
            }
            let ghost pre = self@;
            let mut dep = self.deps.remove(k);
            dep.ledger.write_balance(from, b_from - amount);
            dep.ledger.note(Event::Withdrawn { account: from, amount });
            dep.ledger.write_balance(sov, b_sov_after + amount);
            dep.ledger.note(Event::Deposited { account: sov, amount });
            self.deps.insert(k, dep);
            match kind {
                MessageKind::Downward => self.downbox.push(m),
                MessageKind::Upward => self.upbox.push(m),
                MessageKind::Horizontal => self.hstage.push(m),
            }
            proof {
                assert(final(self)@.deps =~= pre.deps.update(kk, final(self)@.deps[kk]));
                assert(final(self)@ =~= reserve_apply(old(self)@, from, dest, beneficiary, amount));
            }
            Ok(())
        }
    }

    /// The balance of `account` on registered chain `chain`.
    pub fn balance_of(&self, chain: u32, account: u64) -> (r: Result<u128, NetError>)
        requires
            wf(self@),
        ensures
            registered(self@, chain) ==> r == Ok::<u128, NetError>(
                bal(ledger_of(self@, chain).balances, account),
            ),
            !registered(self@, chain) ==> r == Err::<u128, NetError>(NetError::UnknownChain),
    {
        if chain == self.coordinator_id {
            Ok(self.coordinator.balance(account))
        } else {
            match self.find_dep(chain) {
                Some(k) => Ok(self.deps[k].ledger.balance(account)),
                None => Err(NetError::UnknownChain),
            }
        }
    }

    /// The event log of registered chain `chain`, oldest first.
    pub fn events_of(&self, chain: u32) -> (r: Result<Vec<Event>, NetError>)
        requires
            wf(self@),
        ensures
            registered(self@, chain) ==> (r matches Ok(v) && v@ == ledger_of(
                self@,
                chain,
            ).events),
            !registered(self@, chain) ==> r == Err::<Vec<Event>, NetError>(NetError::UnknownChain),
    {
        let src: &Vec<Event> = if chain == self.coordinator_id {
            self.coordinator.events()
        } else {
            match self.find_dep(chain) {
                Some(k) => self.deps[k].ledger.events(),
                None => {
                    return Err(NetError::UnknownChain);
                },
            }
        };
        let mut out: Vec<Event> = Vec::new();
        let mut i: usize = 0;
        while i < src.len()
            invariant
                i <= src@.len(),
                out@ == src@.take(i as int),
            decreases src@.len() - i,
        {
            out.push(src[i]);
            proof {
                assert(src@.take(i as int + 1) =~= src@.take(i as int).push(src@[i as int]));
            }
            i += 1;
        }
        proof {
            assert(src@.take(src@.len() as int) =~= src@);
        }
        Ok(out)
    }

    /// The block number of registered chain `chain`.
    pub fn block_of(&self, chain: u32) -> (r: Result<u64, NetError>)
        requires
            wf(self@),
        ensures
            registered(self@, chain) ==> r == Ok::<u64, NetError>(ledger_of(self@, chain).block),
            !registered(self@, chain) ==> r == Err::<u64, NetError>(NetError::UnknownChain),
    {
        if chain == self.coordinator_id {
            Ok(self.coordinator.current_block())
        } else {
            match self.find_dep(chain) {
                Some(k) => Ok(self.deps[k].ledger.current_block()),
                None => Err(NetError::UnknownChain),
            }
        }
    }

    /// The chain whose `enter` scope is open, if any.
    pub fn active_chain(&self) -> (r: Option<u32>)
        ensures
            r == self@.active,
    {
        self.active
    }

    /// The coordinator's chain identifier.
    pub fn coordinator_chain(&self) -> (r: u32)
        ensures
            r == self@.coordinator_id,
    {
        self.coordinator_id
    }
}

} // verus!
