//! Declaring a topology: one coordinator and its dependent chains, each
//! with a genesis endowment. Configuration errors are reported when a
//! chain is declared or when the network is built, never later.

use vstd::prelude::*;

use crate::ledger::{fresh_ledger, Ledger};
use crate::network::{wf, Dep, Network};
use crate::types::{ConfigError, HostConfig};

verus! {

/// A topology under declaration.
pub struct TopologyBuilder {
    coordinator: Option<(u32, Vec<(u64, u128)>)>,
    dependents: Vec<(u32, Vec<(u64, u128)>)>,
    config: HostConfig,
}

/// Whether declaring dependent `id` under `parent` is admitted, and the
/// error rejecting it otherwise, in the order the checks are made.
pub open spec fn add_verdict(b: TopologyBuilder, id: u32, parent: u32) -> Result<
    (),
    ConfigError,
> {
    if parent == id {
        Err(ConfigError::SelfParent)
    } else if b.coord() is None {
        Err(ConfigError::MissingCoordinator)
    } else if Some(parent) != b.coord() {
        Err(ConfigError::ParentNotCoordinator)
    } else if Some(id) == b.coord() || b.dep_ids().contains(id) {
        Err(ConfigError::DuplicateChainId)
    } else {
        Ok(())
    }
}

impl TopologyBuilder {
    /// The declared coordinator's identifier, if one was declared.
    pub closed spec fn coord(&self) -> Option<u32> {
        match self.coordinator {
            Some((id, _)) => Some(id),
            None => None,
        }
    }

    /// The declared coordinator's endowment.
    pub closed spec fn coord_endowed(&self) -> Seq<(u64, u128)> {
        match self.coordinator {
            Some((_, e)) => e@,
            None => Seq::empty(),
        }
    }

    /// The declared dependents' identifiers, in declaration order.
    pub closed spec fn dep_ids(&self) -> Seq<u32> {
        Seq::new(self.dependents@.len(), |i: int| self.dependents@[i].0)
    }

    /// The endowment declared for the `i`-th dependent.
    pub closed spec fn dep_endowed(&self, i: int) -> Seq<(u64, u128)> {
        self.dependents@[i].1@
    }

    /// The queue ceilings the network will enforce.
    pub closed spec fn cfg(&self) -> HostConfig {
        self.config
    }

    /// Declaration validity: dependents only exist under a declared
    /// coordinator, and no identifier is declared twice.
    pub open spec fn wf(&self) -> bool {
        &&& self.dep_ids().len() > 0 ==> self.coord() is Some
        &&& forall|i: int|
            0 <= i < self.dep_ids().len() ==> Some(self.dep_ids()[i]) != self.coord()
        &&& forall|i: int, j: int|
            0 <= i < j < self.dep_ids().len() ==> self.dep_ids()[i] != self.dep_ids()[j]
    }

    /// Start declaring a topology with the given queue ceilings.
    pub fn new(config: HostConfig) -> (b: TopologyBuilder)
        ensures
            b.wf(),
            b.coord() is None,
            b.dep_ids() == Seq::<u32>::empty(),
            b.cfg() == config,
    {
        let b = TopologyBuilder { coordinator: None, dependents: Vec::new(), config };
        proof {
            assert(b.dep_ids() =~= Seq::<u32>::empty());
        }
        b
    }

    /// Declare the coordinator. Exactly one is allowed: a second
    /// declaration is rejected and changes nothing.
    pub fn set_coordinator(&mut self, id: u32, endowed: Vec<(u64, u128)>) -> (r: Result<
        (),
        ConfigError,
    >)
        requires
            old(self).wf(),
        ensures
            final(self).wf(),
            old(self).coord() is Some ==> r == Err::<(), ConfigError>(
                ConfigError::DuplicateCoordinator,
            ) && *final(self) == *old(self),
            old(self).coord() is None ==> r is Ok && final(self).coord() == Some(id)
                && final(self).coord_endowed() == endowed@
                && final(self).dep_ids() == old(self).dep_ids()
                && final(self).cfg() == old(self).cfg(),
    {
        match &self.coordinator {
            Some(_) => Err(ConfigError::DuplicateCoordinator),
            None => {
                self.coordinator = Some((id, endowed));
                Ok(())
            },
        }
    }

    /// Declare a dependent chain under its parent. The parent must be the
    /// declared coordinator and must not be the chain itself; identifiers
    /// are unique. A rejected declaration changes nothing.
    pub fn add_dependent(&mut self, id: u32, parent: u32, endowed: Vec<(u64, u128)>) -> (r:
        Result<(), ConfigError>)
        requires
            old(self).wf(),
        ensures
            final(self).wf(),
            r == add_verdict(*old(self), id, parent),
            r is Ok ==> final(self).dep_ids() == old(self).dep_ids().push(id)
                && final(self).dep_endowed(old(self).dep_ids().len() as int) == endowed@
                && (forall|i: int|
                0 <= i < old(self).dep_ids().len() ==> final(self).dep_endowed(i)
                    == old(self).dep_endowed(i))
                && final(self).coord() == old(self).coord()
                && final(self).coord_endowed() == old(self).coord_endowed()
                && final(self).cfg() == old(self).cfg(),
            r is Err ==> *final(self) == *old(self),
    {
        if parent == id {
            return Err(ConfigError::SelfParent);
        }
        let cid = match &self.coordinator {
            None => {
                return Err(ConfigError::MissingCoordinator);
            },
            Some((cid, _)) => *cid,
        };
        if parent != cid {
            return Err(ConfigError::ParentNotCoordinator);
        }
        if id == cid {
            return Err(ConfigError::DuplicateChainId);
        }
        let n = self.dependents.len();
        let mut i: usize = 0;
        while i < n
            invariant
                self == old(self),
                self.wf(),
                n == self.dep_ids().len(),
                i <= n,
                parent != id,
                self.coord() == Some(cid),
                parent == cid,
                id != cid,
                forall|j: int| 0 <= j < i ==> self.dep_ids()[j] != id,
            decreases n - i,
        {
            if self.dependents[i].0 == id {
                proof {
                    assert(self.dep_ids()[i as int] == id);
                    assert(self.dep_ids().contains(id));
                }
                return Err(ConfigError::DuplicateChainId);
            }
            i += 1;
        }
        proof {
            assert(!self.dep_ids().contains(id));
        }
        self.dependents.push((id, endowed));
        proof {
            assert(final(self).dep_ids() =~= old(self).dep_ids().push(id));
        }
        Ok(())
    }

    /// Build the declared network: every ledger initialized to genesis,
    /// every queue empty, no scope open. A topology without a coordinator
    /// or without dependents is rejected.
    pub fn build(self) -> (r: Result<Network, ConfigError>)
        requires
            self.wf(),
        ensures
            match r {
                Ok(n) => self.coord() is Some && self.dep_ids().len() > 0 && wf(n@)
                    && n@.coordinator_id == self.coord().unwrap() && n@.coordinator_endowed
                    == self.coord_endowed() && n@.coordinator == fresh_ledger(
                    self.coord_endowed(),
                ) && n@.deps.len() == self.dep_ids().len() && (forall|i: int|
                    0 <= i < self.dep_ids().len() ==> (#[trigger] n@.deps[i]).id
                        == self.dep_ids()[i] && n@.deps[i].endowed == self.dep_endowed(i)
                        && n@.deps[i].ledger == fresh_ledger(self.dep_endowed(i)))
                    && n@.downbox == Seq::<crate::types::Message>::empty() && n@.upbox == Seq::<
                    crate::types::Message,
                >::empty() && n@.hstage == Seq::<crate::types::Message>::empty() && n@.relay
                    == Seq::<crate::types::Message>::empty() && n@.active is None && n@.config
                    == self.cfg(),
                Err(e) => final_build_err(self, e),
            },
    {
        let TopologyBuilder { coordinator, dependents, config } = self;
        let (cid, cend) = match coordinator {
            None => {
                return Err(ConfigError::MissingCoordinator);
            },
            Some(p) => p,
        };
        if dependents.len() == 0 {
            return Err(ConfigError::NoDependents);
        }
        let coordinator_ledger = Ledger::initialize(&cend);
        let ghost decl = dependents@;
        let mut rest = dependents;
        let mut deps: Vec<Dep> = Vec::new();
        while rest.len() > 0
            invariant
                deps@.len() + rest@.len() == decl.len(),
                rest@ == decl.skip(deps@.len() as int),
                forall|i: int|
                    0 <= i < deps@.len() ==> (#[trigger] deps@[i]@).id == decl[i].0
                        && deps@[i]@.endowed == decl[i].1@ && deps@[i]@.ledger == fresh_ledger(
                        decl[i].1@,
                    ),
            decreases rest@.len(),
        {
            let ghost done = deps@.len() as int;
            let ghost prev = deps@;
            let (id, e) = rest.remove(0);
            proof {
                assert(decl.skip(done)[0] == decl[done]);
                assert(decl.skip(done).remove(0) =~= decl.skip(done + 1));
            }
            let ledger = Ledger::initialize(&e);
            deps.push(Dep::make(id, e, ledger));
            proof {
                assert forall|i: int| 0 <= i < deps@.len() implies (#[trigger] deps@[i]@).id
                    == decl[i].0 && deps@[i]@.endowed == decl[i].1@ && deps@[i]@.ledger
                    == fresh_ledger(decl[i].1@) by {
                    if i < done {
                        assert(deps@[i] == prev[i]);
                        assert(prev[i]@.id == decl[i].0 && prev[i]@.endowed == decl[i].1@
                            && prev[i]@.ledger == fresh_ledger(decl[i].1@));
                    } else {
                        assert(deps@[i]@.id == id && deps@[i]@.endowed == e@ && deps@[i]@.ledger
                            == ledger@);
                    }
                }
            }
        }
        let ghost depsv = deps@;
        let n = Network::assemble(cid, cend, coordinator_ledger, deps, config);
        proof {
            assert(depsv.len() == decl.len());
            assert forall|i: int| 0 <= i < self.dep_ids().len() implies (#[trigger] n@.deps[i]).id
                == self.dep_ids()[i] && n@.deps[i].endowed == self.dep_endowed(i)
                && n@.deps[i].ledger == fresh_ledger(self.dep_endowed(i)) by {
                assert(n@.deps[i] == depsv[i]@);
                assert(depsv[i]@.id == decl[i].0 && depsv[i]@.endowed == decl[i].1@
                    && depsv[i]@.ledger == fresh_ledger(decl[i].1@));
            }
            assert(wf(n@));
        }
        Ok(n)
    }
}

/// Which build error is owed on which declaration state.
pub open spec fn final_build_err(b: TopologyBuilder, e: ConfigError) -> bool {
    &&& (e == ConfigError::MissingCoordinator <==> b.coord() is None)
    &&& (e == ConfigError::NoDependents <==> b.coord() is Some && b.dep_ids().len() == 0)
    &&& (e == ConfigError::MissingCoordinator || e == ConfigError::NoDependents)
}

} // verus!
