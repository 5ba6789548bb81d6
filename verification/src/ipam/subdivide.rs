//! Splitting a network of the engine into subnets.

use crate::cidr::Cidr;
use crate::error::Error;
use crate::forest::{
    forest_wf, has_network, is_father_of, lemma_position, lemma_position_valid, network_of,
    position, propagate, CounterFailure,
};
use crate::host_count::HostCount;
use crate::ident::fresh_id;
use crate::ipam::{lemma_grown_keeps_devices, Ipam, State};
use crate::network::{total_budget, CounterOp, Network};
use crate::power::lemma_pow2_monotone;
use crate::subnet::{lemma_planned_children, plan_children, planned_children};
use std::collections::HashSet;
use vstd::arithmetic::power2::lemma2_to64;
use vstd::prelude::*;

verus! {

/// The networks that a split made, with the refusal that stopped the change
/// of the host counters of the parent and its ancestors, if one did. The
/// subnets have been made even so.
#[derive(Debug, PartialEq, Eq)]
pub struct Subdivision {
    pub children: Vec<Network>,
    pub failure: Option<CounterFailure>,
}

impl View for Subdivision {
    type V = (Seq<Network>, Option<CounterFailure>);

    open spec fn view(&self) -> (Seq<Network>, Option<CounterFailure>) {
        (self.children@, self.failure)
    }
}

/// What came back from a split, with the list of subnets as a sequence.
pub open spec fn subdivision_view(r: Result<Subdivision, Error>) -> Result<
    (Seq<Network>, Option<CounterFailure>),
    Error,
> {
    match r {
        Ok(made) => Ok(made@),
        Err(e) => Err(e),
    }
}

/// Whether the first `n` of `ids` can name new networks: there are that
/// many, none names a network that is there, and no two are the same.
pub open spec fn ids_usable(nets: Seq<Network>, ids: Seq<u128>, n: nat) -> bool {
    &&& ids.len() >= n
    &&& forall|k: int| 0 <= k < n ==> !has_network(nets, #[trigger] ids[k])
    &&& forall|j: int, k: int| 0 <= j < k < n ==> #[trigger] ids[j] != #[trigger] ids[k]
}

/// The untouched subnets on `blocks` under the father `father`: the one on
/// `blocks[k]` is named by `ids[k]`. They carry no tag and no description.
pub open spec fn new_children(father: u128, blocks: Seq<Cidr>, ids: Seq<u128>) -> Seq<Network> {
    Seq::new(
        blocks.len(),
        |k: int| Network::fresh(ids[k], blocks[k], None, None, Some(father)),
    )
}

impl State {
    /// What a split of the network `parent_id` at `new_prefix` does, where
    /// the new subnets take their identifiers from `ids`.
    ///
    /// Refused, with nothing changed: a parent that is not there; a split
    /// that [`planned_children`] refuses; identifiers that are too few,
    /// taken or repeated. Else all subnets join the forest under the parent,
    /// untouched. Then the parent and each of its ancestors in turn hand the
    /// budgets of the new subnets over: that many addresses less available
    /// and free, up to the root or the first network that has not that many
    /// free. The subnets stay even where a network refuses.
    pub open spec fn after_subdivide(
        self,
        parent_id: u128,
        new_prefix: u8,
        explicit: Option<Cidr>,
        ids: Seq<u128>,
    ) -> (State, Result<(Seq<Network>, Option<CounterFailure>), Error>) {
        if !has_network(self.networks, parent_id) {
            (self, Err(Error::NotFound))
        } else {
            match planned_children(
                network_of(self.networks, parent_id).network,
                new_prefix,
                explicit,
            ) {
                Err(e) => (self, Err(e)),
                Ok(blocks) => if !ids_usable(self.networks, ids, blocks.len()) {
                    (self, Err(Error::BackendError))
                } else {
                    let children = new_children(parent_id, blocks, ids);
                    let (networks, failure) = propagate(
                        self.networks + children,
                        parent_id,
                        CounterOp::Commit(total_budget(blocks) as u64),
                    );
                    (State { networks, devices: self.devices }, Ok((children, failure)))
                },
            }
        }
    }
}

/// A forest with one more network under a new id, whose father is one of
/// the networks, is a forest.
pub proof fn lemma_push_child(nets: Seq<Network>, child: Network)
    requires
        forest_wf(nets),
        child.wf(),
        child.father is Some,
        has_network(nets, child.father->0),
        is_father_of(network_of(nets, child.father->0), child),
        !has_network(nets, child.id),
    ensures
        forest_wf(nets.push(child)),
        forall|id: u128| has_network(nets, id) ==> has_network(nets.push(child), id),
        forall|id: u128|
            has_network(nets, id) ==> network_of(nets.push(child), id) == network_of(nets, id),
{
    let grown = nets.push(child);
    assert forall|i: int, j: int|
        0 <= i < grown.len() && 0 <= j < grown.len() && #[trigger] grown[i].id
            == #[trigger] grown[j].id implies i == j by {
        if i < nets.len() {
            assert(nets[i].id == grown[i].id);
        }
        if j < nets.len() {
            assert(nets[j].id == grown[j].id);
        }
    }
    assert forall|id: u128| has_network(nets, id) implies has_network(grown, id) && network_of(
        grown,
        id,
    ) == network_of(nets, id) by {
        let i = position(nets, id);
        assert(grown[i].id == id);
        lemma_position(grown, i);
    }
    assert forall|i: int| 0 <= i < grown.len() && (#[trigger] grown[i]).father is Some implies has_network(
        grown,
        grown[i].father->0,
    ) && is_father_of(network_of(grown, grown[i].father->0), grown[i]) by {
        let f = grown[i].father->0;
        if i < nets.len() {
            assert(nets[i].father == Some(f));
        }
        assert(has_network(nets, f));
    }
}

impl Ipam {
    /// Decides which blocks a split of the network `parent_id` makes into
    /// subnets.
    fn plan(&self, parent_id: u128, new_prefix: u8, explicit: Option<Cidr>) -> (r: Result<
        Vec<Cidr>,
        Error,
    >)
        requires
            self@.wf(),
        ensures
            !has_network(self@.networks, parent_id) ==> r == Err::<Vec<Cidr>, Error>(
                Error::NotFound,
            ),
            has_network(self@.networks, parent_id) ==> match planned_children(
                network_of(self@.networks, parent_id).network,
                new_prefix,
                explicit,
            ) {
                Ok(blocks) => r is Ok && r->Ok_0@ == blocks,
                Err(e) => r == Err::<Vec<Cidr>, Error>(e),
            },
    {
        match self.find_network(parent_id) {
            Some(at) => {
                proof {
                    lemma_position(self@.networks, at as int);
                }
                plan_children(&self.networks[at].network, new_prefix, explicit)
            },
            None => Err(Error::NotFound),
        }
    }

    /// Splits the network `parent_id` at `new_prefix`. The new subnets take
    /// their identifiers from `ids`, in the order of their addresses.
    pub fn subdivide_with_ids(
        &mut self,
        parent_id: u128,
        new_prefix: u8,
        explicit: Option<Cidr>,
        ids: &Vec<u128>,
    ) -> (r: Result<Subdivision, Error>)
        requires
            old(self)@.wf(),
        ensures
            final(self)@.wf(),
            (final(self)@, subdivision_view(r)) == old(self)@.after_subdivide(
                parent_id,
                new_prefix,
                explicit,
                ids@,
            ),
    {
        match self.plan(parent_id, new_prefix, explicit) {
            Ok(blocks) => self.graft(parent_id, blocks, ids, Ghost(new_prefix), Ghost(explicit)),
            Err(e) => Err(e),
        }
    }

    /// Splits the network `parent_id` at `new_prefix`, with freshly drawn
    /// identifiers for the new subnets. What comes back is what
    /// [`Ipam::subdivide_with_ids`] gives for some identifiers.
    pub fn subdivide(&mut self, parent_id: u128, new_prefix: u8, explicit: Option<Cidr>) -> (r:
        Result<Subdivision, Error>)
        requires
            old(self)@.wf(),
        ensures
            final(self)@.wf(),
            exists|ids: Seq<u128>|
                (final(self)@, subdivision_view(r)) == #[trigger] old(self)@.after_subdivide(
                    parent_id,
                    new_prefix,
                    explicit,
                    ids,
                ),
    {
        let blocks = match self.plan(parent_id, new_prefix, explicit) {
            Ok(blocks) => blocks,
            Err(e) => {
                assert((self@, subdivision_view(Err(e))) == self@.after_subdivide(
                    parent_id,
                    new_prefix,
                    explicit,
                    Seq::<u128>::empty(),
                ));
                return Err(e);
            },
        };
        let mut ids: Vec<u128> = Vec::new();
        let mut k: usize = 0;
        while k < blocks.len()
            invariant
                k <= blocks@.len(),
                ids@.len() == k,
            decreases blocks@.len() - k,
        {
            ids.push(fresh_id());
            k = k + 1;
        }
        self.graft(parent_id, blocks, &ids, Ghost(new_prefix), Ghost(explicit))
    }

    /// Whether the first `n` of `ids` can name new networks.
    fn ids_are_usable(&self, ids: &Vec<u128>, n: usize) -> (usable: bool)
        ensures
            usable == ids_usable(self@.networks, ids@, n as nat),
    {
        broadcast use vstd::std_specs::hash::group_hash_axioms;

        if ids.len() < n {
            return false;
        }
        let mut taken: HashSet<u128> = HashSet::new();
        let mut i: usize = 0;
        while i < self.networks.len()
            invariant
                i <= self.networks@.len(),
                forall|id: u128|
                    taken@.contains(id) <==> exists|j: int|
                        0 <= j < i && #[trigger] self.networks@[j].id == id,
            decreases self.networks@.len() - i,
        {
            taken.insert(self.networks[i].id);
            i = i + 1;
        }
        let mut k: usize = 0;
        while k < n
            invariant
                k <= n <= ids@.len(),
                ids_usable(self@.networks, ids@, k as nat),
                forall|id: u128|
                    taken@.contains(id) <==> has_network(self@.networks, id) || exists|j: int|
                        0 <= j < k && #[trigger] ids@[j] == id,
            decreases n - k,
        {
            if !taken.insert(ids[k]) {
                return false;
            }
            k = k + 1;
        }
        true
    }

    /// Puts the planned subnets under their parent and hands their budgets
    /// over along the chain of ancestors.
    fn graft(
        &mut self,
        parent_id: u128,
        blocks: Vec<Cidr>,
        ids: &Vec<u128>,
        Ghost(new_prefix): Ghost<u8>,
        Ghost(explicit): Ghost<Option<Cidr>>,
    ) -> (r: Result<Subdivision, Error>)
        requires
            old(self)@.wf(),
            has_network(old(self)@.networks, parent_id),
            planned_children(
                network_of(old(self)@.networks, parent_id).network,
                new_prefix,
                explicit,
            ) == Ok::<Seq<Cidr>, Error>(blocks@),
        ensures
            final(self)@.wf(),
            (final(self)@, subdivision_view(r)) == old(self)@.after_subdivide(
                parent_id,
                new_prefix,
                explicit,
                ids@,
            ),
    {
        let ghost parent_block = network_of(self@.networks, parent_id).network;
        proof {
            lemma_position_valid(self@.networks, parent_id);
        }
        proof {
            if parent_block.is_v4() {
                lemma_pow2_monotone((new_prefix - parent_block.prefix()) as nat, 32);
                lemma2_to64();
            }
        }
        if !self.ids_are_usable(ids, blocks.len()) {
            return Err(Error::BackendError);
        }
        let first_new: usize = self.networks.len();
        let ghost made = new_children(parent_id, blocks@, ids@);
        let mut children: Vec<Network> = Vec::new();
        let mut amount: u64 = 0;
        let mut k: usize = 0;
        while k < blocks.len()
            invariant
                old(self)@.wf(),
                has_network(old(self)@.networks, parent_id),
                parent_block == network_of(old(self)@.networks, parent_id).network,
                planned_children(parent_block, new_prefix, explicit) == Ok::<Seq<Cidr>, Error>(
                    blocks@,
                ),
                made == new_children(parent_id, blocks@, ids@),
                k <= blocks@.len() <= ids@.len(),
                blocks@.len() <= 0x1_0000_0000,
                first_new == old(self)@.networks.len(),
                self@.devices == old(self)@.devices,
                self@.networks =~= old(self)@.networks + made.take(k as int),
                children@ =~= made.take(k as int),
                forest_wf(self@.networks),
                ids_usable(old(self)@.networks, ids@, blocks@.len()),
                amount == total_budget(blocks@.take(k as int)),
                amount <= k * HostCount::MAX,
                forall|id: u128|
                    has_network(old(self)@.networks, id) ==> has_network(self@.networks, id)
                        && network_of(self@.networks, id) == network_of(old(self)@.networks, id),
            decreases blocks@.len() - k,
        {
            let id: u128 = ids[k];
            proof {
                if has_network(self@.networks, id) {
                    let at = position(self@.networks, id);
                    if at < first_new {
                        assert(old(self)@.networks[at].id == id);
                    } else {
                        assert(made[at - first_new].id == ids@[at - first_new]);
                    }
                }
            }
            proof {
                lemma_planned_children(parent_block, new_prefix, explicit, k as int);
                lemma_position_valid(old(self)@.networks, parent_id);
            }
            let block = blocks[k];
            proof {
                use_type_invariant(&block);
            }
            let child = Network::new(id, block, None, None, Some(parent_id));
            proof {
                lemma_push_child(self@.networks, child);
                assert(made[k as int] == child);
                assert(made.take(k + 1) =~= made.take(k as int).push(child));
                assert(blocks@.take(k + 1).drop_last() =~= blocks@.take(k as int));
                child.available.lemma_bounded();
                assert(k * HostCount::MAX + HostCount::MAX <= 0xffff_ffff_0000_0000) by (nonlinear_arith)
                    requires
                        k < 0x1_0000_0000,
                        HostCount::MAX == 0xffff_ffff,
                ;
            }
            amount = amount + child.available.value() as u64;
            children.push(child.clone());
            self.networks.push(child);
            k = k + 1;
        }
        proof {
            assert(made.take(k as int) =~= made);
            assert(blocks@.take(k as int) =~= blocks@);
            lemma_grown_keeps_devices(old(self)@, self@.networks);
        }
        let failure = self.walk_up(parent_id, CounterOp::Commit(amount));
        Ok(Subdivision { children, failure })
    }
}

} // verus!
