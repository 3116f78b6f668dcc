//! One chain's isolated state: a balance book, an event log and a block
//! counter. A ledger is owned by its registry slot and mutated only while
//! its chain is entered.

use vstd::prelude::*;

use crate::types::Event;

verus! {

/// The balance a book assigns to `who`: the first entry for `who`, or zero
/// when none exists.
pub open spec fn bal(s: Seq<(u64, u128)>, who: u64) -> u128
    decreases s.len(),
{
    if s.len() == 0 {
        0
    } else if s[0].0 == who {
        s[0].1
    } else {
        bal(s.skip(1), who)
    }
}

/// The book after setting `who`'s balance to `v`: the first entry for `who`
/// is replaced, or an entry is appended when none exists.
pub open spec fn write_bal(s: Seq<(u64, u128)>, who: u64, v: u128) -> Seq<(u64, u128)>
    decreases s.len(),
{
    if s.len() == 0 {
        seq![(who, v)]
    } else if s[0].0 == who {
        seq![(who, v)] + s.skip(1)
    } else {
        seq![s[0]] + write_bal(s.skip(1), who, v)
    }
}

/// After a write, the written account reads back the written value.
pub proof fn lemma_bal_write_same(s: Seq<(u64, u128)>, who: u64, v: u128)
    ensures
        bal(write_bal(s, who, v), who) == v,
    decreases s.len(),
{
    if s.len() == 0 {
    } else if s[0].0 == who {
        let t = seq![(who, v)] + s.skip(1);
        assert(t[0] == (who, v));
    } else {
        lemma_bal_write_same(s.skip(1), who, v);
        let t = seq![s[0]] + write_bal(s.skip(1), who, v);
        assert(t[0] == s[0]);
        assert(t.skip(1) =~= write_bal(s.skip(1), who, v));
    }
}

/// A write to one account leaves every other account's balance unchanged.
pub proof fn lemma_bal_write_other(s: Seq<(u64, u128)>, who: u64, v: u128, other: u64)
    requires
        other != who,
    ensures
        bal(write_bal(s, who, v), other) == bal(s, other),
    decreases s.len(),
{
    if s.len() == 0 {
        let t = seq![(who, v)];
        assert(t[0] == (who, v));
        assert(t.skip(1) =~= Seq::<(u64, u128)>::empty());
        assert(bal(t.skip(1), other) == 0);
    } else if s[0].0 == who {
        let t = seq![(who, v)] + s.skip(1);
        assert(t[0] == (who, v));
        assert(t.skip(1) =~= s.skip(1));
    } else {
        lemma_bal_write_other(s.skip(1), who, v, other);
        let t = seq![s[0]] + write_bal(s.skip(1), who, v);
        assert(t[0] == s[0]);
        assert(t.skip(1) =~= write_bal(s.skip(1), who, v));
    }
}

/// When the first entry for `who` stands at index `i`, `bal` reads it.
pub proof fn lemma_bal_first(s: Seq<(u64, u128)>, i: int, who: u64)
    requires
        0 <= i < s.len(),
        s[i].0 == who,
        forall|j: int| 0 <= j < i ==> s[j].0 != who,
    ensures
        bal(s, who) == s[i].1,
    decreases i,
{
    if i > 0 {
        lemma_bal_first(s.skip(1), i - 1, who);
    }
}

/// When no entry names `who`, `bal` reads zero.
pub proof fn lemma_bal_absent(s: Seq<(u64, u128)>, who: u64)
    requires
        forall|j: int| 0 <= j < s.len() ==> s[j].0 != who,
    ensures
        bal(s, who) == 0,
    decreases s.len(),
{
    if s.len() > 0 {
        lemma_bal_absent(s.skip(1), who);
    }
}

/// When the first entry for `who` stands at index `i`, the write replaces
/// exactly that entry.
pub proof fn lemma_write_bal_first(s: Seq<(u64, u128)>, i: int, who: u64, v: u128)
    requires
        0 <= i < s.len(),
        s[i].0 == who,
        forall|j: int| 0 <= j < i ==> s[j].0 != who,
    ensures
        write_bal(s, who, v) =~= s.update(i, (who, v)),
    decreases i,
{
    if i == 0 {
        assert(seq![(who, v)] + s.skip(1) =~= s.update(0, (who, v)));
    } else {
        lemma_write_bal_first(s.skip(1), i - 1, who, v);
        assert(seq![s[0]] + s.skip(1).update(i - 1, (who, v)) =~= s.update(i, (who, v)));
    }
}

/// When no entry names `who`, the write appends one.
pub proof fn lemma_write_bal_absent(s: Seq<(u64, u128)>, who: u64, v: u128)
    requires
        forall|j: int| 0 <= j < s.len() ==> s[j].0 != who,
    ensures
        write_bal(s, who, v) =~= s.push((who, v)),
    decreases s.len(),
{
    if s.len() == 0 {
        assert(seq![(who, v)] =~= s.push((who, v)));
    } else {
        lemma_write_bal_absent(s.skip(1), who, v);
        assert(seq![s[0]] + s.skip(1).push((who, v)) =~= s.push((who, v)));
    }
}

/// The mathematical value of a ledger.
#[verifier::ext_equal]
pub ghost struct LedgerV {
    /// Current block number.
    pub block: u64,
    /// Balance book, first entry per account authoritative.
    pub balances: Seq<(u64, u128)>,
    /// Event log since genesis, oldest first.
    pub events: Seq<Event>,
}

/// The ledger produced by a genesis initializer with endowment `e`.
pub open spec fn fresh_ledger(e: Seq<(u64, u128)>) -> LedgerV {
    LedgerV { block: 1, balances: e, events: Seq::empty() }
}

/// `l` with one more event in its log.
pub open spec fn with_event(l: LedgerV, e: Event) -> LedgerV {
    LedgerV { events: l.events.push(e), ..l }
}

/// One chain's isolated persistent state.
pub struct Ledger {
    block_number: u64,
    balances: Vec<(u64, u128)>,
    events: Vec<Event>,
}

impl View for Ledger {
    type V = LedgerV;

    closed spec fn view(&self) -> LedgerV {
        LedgerV { block: self.block_number, balances: self.balances@, events: self.events@ }
    }
}

impl Ledger {
    /// Build a fresh ledger from a genesis endowment, with the block
    /// counter at one and an empty event log.
    pub fn initialize(endowed: &Vec<(u64, u128)>) -> (l: Ledger)
        ensures
            l@ == fresh_ledger(endowed@),
    {
        let mut balances: Vec<(u64, u128)> = Vec::new();
        let mut i: usize = 0;
        while i < endowed.len()
            invariant
                i <= endowed@.len(),
                balances@ == endowed@.take(i as int),
            decreases endowed@.len() - i,
        {
            balances.push(endowed[i]);
            proof {
                assert(endowed@.take(i as int + 1) =~= endowed@.take(i as int).push(
                    endowed@[i as int],
                ));
            }
            i += 1;
        }
        proof {
            assert(endowed@.take(endowed@.len() as int) =~= endowed@);
        }
        Ledger { block_number: 1, balances, events: Vec::new() }
    }

    /// The balance of `who`: the first entry for it, or zero.
    pub fn balance(&self, who: u64) -> (r: u128)
        ensures
            r == bal(self@.balances, who),
    {
        let n = self.balances.len();
        let mut i: usize = 0;
        while i < n
            invariant
                n == self@.balances.len(),
                i <= n,
                forall|j: int| 0 <= j < i ==> self@.balances[j].0 != who,
            decreases n - i,
        {
            if self.balances[i].0 == who {
                proof {
                    lemma_bal_first(self@.balances, i as int, who);
                }
                return self.balances[i].1;
            }
            i += 1;
        }
        proof {
            lemma_bal_absent(self@.balances, who);
        }
        0
    }

    /// Set `who`'s balance to `v`, replacing its first entry or appending
    /// one; every other account keeps its balance.
    pub fn write_balance(&mut self, who: u64, v: u128)
        ensures
            final(self)@.balances == write_bal(old(self)@.balances, who, v),
            final(self)@.block == old(self)@.block,
            final(self)@.events == old(self)@.events,
            bal(final(self)@.balances, who) == v,
            forall|u: u64| u != who ==> bal(final(self)@.balances, u) == bal(
                old(self)@.balances,
                u,
            ),
    {
        let n = self.balances.len();
        let mut i: usize = 0;
        while i < n
            invariant
                self == old(self),
                n == self@.balances.len(),
                i <= n,
                forall|j: int| 0 <= j < i ==> self@.balances[j].0 != who,
            decreases n - i,
        {
            if self.balances[i].0 == who {
                self.balances.remove(i);
                self.balances.insert(i, (who, v));
                proof {
                    assert(old(self)@.balances.remove(i as int).insert(i as int, (who, v))
                        =~= old(self)@.balances.update(i as int, (who, v)));
                    lemma_write_bal_first(old(self)@.balances, i as int, who, v);
                    lemma_bal_write_same(old(self)@.balances, who, v);
                    assert forall|u: u64| u != who implies bal(
                        write_bal(old(self)@.balances, who, v),
                        u,
                    ) == bal(old(self)@.balances, u) by {
                        lemma_bal_write_other(old(self)@.balances, who, v, u);
                    }
                }
                return ;
            }
            i += 1;
        }
        self.balances.push((who, v));
        proof {
            lemma_write_bal_absent(old(self)@.balances, who, v);
            lemma_bal_write_same(old(self)@.balances, who, v);
            assert forall|u: u64| u != who implies bal(
                write_bal(old(self)@.balances, who, v),
                u,
            ) == bal(old(self)@.balances, u) by {
                lemma_bal_write_other(old(self)@.balances, who, v, u);
            }
        }
    }

    /// Append one event to the log; balances and block are untouched.
    pub fn note(&mut self, e: Event)
        ensures
            final(self)@ == with_event(old(self)@, e),
    {
        self.events.push(e);
        proof {
            assert(final(self)@ =~= with_event(old(self)@, e));
        }
    }

    /// The event log since genesis, oldest first.
    pub fn events(&self) -> (r: &Vec<Event>)
        ensures
            r@ == self@.events,
    {
        &self.events
    }

    /// The current block number.
    pub fn current_block(&self) -> (r: u64)
        ensures
            r == self@.block,
    {
        self.block_number
    }

    /// Advance the block counter by one; it saturates at the largest
    /// representable block rather than wrapping.
    pub fn advance_block(&mut self)
        ensures
            final(self)@ == (LedgerV { block: bumped(old(self)@.block), ..old(self)@ }),
    {
        if self.block_number < u64::MAX {
            self.block_number = self.block_number + 1;
        }
        proof {
            assert(final(self)@ =~= (LedgerV { block: bumped(old(self)@.block), ..old(self)@ }));
        }
    }
}

/// The block counter after one entry: one more, saturating at the top.
pub open spec fn bumped(b: u64) -> u64 {
    if b == u64::MAX {
        b
    } else {
        (b + 1) as u64
    }
}

} // verus!
