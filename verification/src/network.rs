//! Network records and their host counters.

use crate::cidr::Cidr;
use crate::device::copy_text;
use crate::host_count::{clamped, usable_hosts, CountError, HostCount};
use crate::vlan::Vlan;
use vstd::prelude::*;

verus! {

/// A block of addresses with its place in the forest and its host budget.
///
/// `available` is what the block can still give to hosts, `used` what
/// devices have taken up, `free` what is left of it.
#[derive(Debug, PartialEq, Eq)]
pub struct Network {
    pub id: u128,
    pub vlan: Option<Vlan>,
    pub network: Cidr,
    pub description: Option<String>,
    pub father: Option<u128>,
    pub available: HostCount,
    pub used: HostCount,
    pub free: HostCount,
}

impl Clone for Network {
    fn clone(&self) -> (r: Network)
        ensures
            r == *self,
    {
        Network {
            id: self.id,
            vlan: self.vlan,
            network: self.network,
            description: copy_text(&self.description),
            father: self.father,
            available: self.available,
            used: self.used,
            free: self.free,
        }
    }
}

/// A change to the host counters of one network.
#[derive(Clone, Copy, Debug, PartialEq, Eq, Structural)]
pub enum CounterOp {
    /// A device takes up an address: one more used, one less free.
    Occupy,
    /// Addresses are handed to new subnets: that many less available and
    /// free.
    Commit(u64),
}

/// The host budget of an untouched block.
pub open spec fn full_budget(block: Cidr) -> nat {
    clamped(usable_hosts(block.host_bits()))
}

/// The host budgets of untouched blocks, added up.
pub open spec fn total_budget(blocks: Seq<Cidr>) -> nat
    decreases blocks.len(),
{
    if blocks.len() == 0 {
        0
    } else {
        total_budget(blocks.drop_last()) + full_budget(blocks.last())
    }
}

impl Network {
    /// The block and the tag are well-formed, and the counters keep within
    /// the budget: `used + free <= available`.
    pub open spec fn wf(self) -> bool {
        &&& self.network.wf()
        &&& self.vlan is Some ==> self.vlan->0.wf()
        &&& self.used@ + self.free@ <= self.available@
    }

    /// Whether both counters of a first occupancy can move: one address is
    /// free, and one more used address stays within the budget.
    pub open spec fn can_take_free(self) -> bool {
        self.free@ >= 1
    }

    /// Whether `used` can grow by one: the sum stays within
    /// [`HostCount::MAX`], and `used + free` within `available` also where
    /// `free` cannot shrink.
    pub open spec fn can_add_used(self) -> bool {
        &&& self.used@ + 1 <= HostCount::MAX
        &&& self.used@ + 1 + (if self.can_take_free() {
            self.free@ - 1
        } else {
            self.free@ as int
        }) <= self.available@
    }

    /// Whether `amount` addresses can be handed to subnets: that many are
    /// free.
    pub open spec fn can_commit(self, amount: nat) -> bool {
        self.free@ >= amount && self.available@ >= amount
    }

    /// Why the change fails on this network, if it does. An occupancy
    /// tries both counters; where both fail, the failure of `used` is named.
    pub open spec fn refusal(self, op: CounterOp) -> Option<CountError> {
        match op {
            CounterOp::Occupy => if !self.can_add_used() {
                Some(CountError::Overflow)
            } else if !self.can_take_free() {
                Some(CountError::Underflow)
            } else {
                None
            },
            CounterOp::Commit(amount) => if self.can_commit(amount as nat) {
                None
            } else {
                Some(CountError::Underflow)
            },
        }
    }

    /// The network after the change. An occupancy moves each counter that
    /// can move and leaves the other as it was. A commit moves both
    /// counters or none. Nothing but the counters changes.
    pub open spec fn applied(self, op: CounterOp) -> Network {
        match op {
            CounterOp::Occupy => Network {
                used: if self.can_add_used() {
                    HostCount((self.used.0 + 1) as u32)
                } else {
                    self.used
                },
                free: if self.can_take_free() {
                    HostCount((self.free.0 - 1) as u32)
                } else {
                    self.free
                },
                ..self
            },
            CounterOp::Commit(amount) => if self.can_commit(amount as nat) {
                Network {
                    available: HostCount((self.available.0 - amount) as u32),
                    free: HostCount((self.free.0 - amount) as u32),
                    ..self
                }
            } else {
                self
            },
        }
    }

    /// Makes the change to the counters and says why it failed, if it did.
    pub fn apply(&mut self, op: CounterOp) -> (r: Result<(), CountError>)
        requires
            old(self).wf(),
        ensures
            final(self).wf(),
            *final(self) == old(self).applied(op),
            match old(self).refusal(op) {
                Some(e) => r == Err::<(), CountError>(e),
                None => r is Ok,
            },
    {
        match op {
            CounterOp::Occupy => {
                let taken = self.free.sub(1);
                let used: u32 = self.used.value();
                let free: u32 = self.free.value();
                let available: u32 = self.available.value();
                if used < available && free < available - used {
                    let _ = self.used.add(1);
                    taken
                } else {
                    Err(CountError::Overflow)
                }
            },
            CounterOp::Commit(amount) => {
                if self.free.value() as u64 >= amount && self.available.value() as u64 >= amount {
                    let _ = self.free.sub(amount as u32);
                    self.available.sub(amount as u32)
                } else {
                    Err(CountError::Underflow)
                }
            },
        }
    }
}

impl Network {
    /// The untouched network of the given block: nothing used, all of the
    /// budget free.
    pub open spec fn fresh(
        id: u128,
        block: Cidr,
        vlan: Option<Vlan>,
        description: Option<String>,
        father: Option<u128>,
    ) -> Network {
        Network {
            id,
            vlan,
            network: block,
            description,
            father,
            available: HostCount(full_budget(block) as u32),
            used: HostCount(0),
            free: HostCount(full_budget(block) as u32),
        }
    }

    /// Makes the untouched network of the given block.
    pub fn new(
        id: u128,
        block: Cidr,
        vlan: Option<Vlan>,
        description: Option<String>,
        father: Option<u128>,
    ) -> (n: Network)
        ensures
            n == Network::fresh(id, block, vlan, description, father),
            n.wf(),
            n.available@ == full_budget(block),
    {
        proof {
            use_type_invariant(&block);
        }
        match &vlan {
            Some(tag) => {
                proof {
                    use_type_invariant(tag);
                }
            },
            None => {},
        }
        let budget = HostCount::new(block.host_prefix());
        Network { id, vlan, network: block, description, father, available: budget, used: HostCount(0), free: budget }
    }

    /// The network with its counters as those of an untouched block.
    pub open spec fn emptied(self) -> Network {
        Network {
            available: HostCount(full_budget(self.network) as u32),
            used: HostCount(0),
            free: HostCount(full_budget(self.network) as u32),
            ..self
        }
    }

    /// Sets the counters to those of an untouched block.
    pub fn reset_counters(&mut self)
        requires
            old(self).wf(),
        ensures
            *final(self) == old(self).emptied(),
            final(self).wf(),
    {
        let budget = HostCount::new(self.network.host_prefix());
        self.available = budget;
        self.used = HostCount(0);
        self.free = budget;
    }
}

impl Network {
    /// A change of counters keeps the counters within the budget.
    pub proof fn lemma_applied_wf(self, op: CounterOp)
        requires
            self.wf(),
        ensures
            self.applied(op).wf(),
    {
    }
}

/// What to change of a network. A field that is `None` stays as it is.
#[derive(Debug, PartialEq, Eq)]
pub struct UpdateNetwork {
    pub network: Option<Cidr>,
    pub description: Option<String>,
    pub vlan: Option<Vlan>,
}

impl UpdateNetwork {
    /// Whether the change can be made: the block of a network cannot be
    /// changed.
    pub fn is_supported(&self) -> (supported: bool)
        ensures
            supported == (self.network is None),
    {
        self.network.is_none()
    }
}

/// The counters of a network that are to be stored anew.
#[derive(Clone, Copy, Debug, PartialEq, Eq)]
pub struct UpdateNetworkCount {
    pub used: Option<HostCount>,
    pub free: Option<HostCount>,
    pub available: Option<HostCount>,
}

/// The new counter where it differs from the old one.
pub open spec fn changed(before: HostCount, after: HostCount) -> Option<HostCount> {
    if before == after {
        None
    } else {
        Some(after)
    }
}

impl UpdateNetworkCount {
    /// The counters in which `after` differs from `before`, with their
    /// values in `after`.
    pub fn between(before: &Network, after: &Network) -> (update: UpdateNetworkCount)
        ensures
            update.used == changed(before.used, after.used),
            update.free == changed(before.free, after.free),
            update.available == changed(before.available, after.available),
    {
        UpdateNetworkCount {
            used: if before.used.value() == after.used.value() {
                None
            } else {
                Some(after.used)
            },
            free: if before.free.value() == after.free.value() {
                None
            } else {
                Some(after.free)
            },
            available: if before.available.value() == after.available.value() {
                None
            } else {
                Some(after.available)
            },
        }
    }

    /// Whether no counter is to be stored.
    pub fn is_empty(&self) -> (empty: bool)
        ensures
            empty == (self.used is None && self.free is None && self.available is None),
    {
        self.used.is_none() && self.free.is_none() && self.available.is_none()
    }
}

} // verus!
