//! What holds of the engine in every state.

use crate::cidr::{Cidr, IpAddress};
use crate::host_count::HostCount;
use crate::ipam::subdivide::{ids_usable, lemma_push_child, new_children};
use crate::ipam::lemma_grown_keeps_devices;
use crate::network::{total_budget, Network};
use crate::subnet::{
    law_subnets_partition, lemma_planned_children, lemma_subnet_geometry, planned_children,
    subnets_of,
};
use crate::power::lemma_pow2_monotone;
use vstd::arithmetic::power2::{lemma2_to64, pow2};
use crate::device::{is_first_occupancy, next_status, Event, Status};
use crate::forest::{
    among_first, ancestors, forest_wf, has_network, lemma_ancestors_distinct,
    lemma_ancestors_unfold, lemma_position, lemma_position_valid, lemma_walk_failure,
    lemma_walk_keeps_shape, lemma_walk_networks, network_of, position, propagate, reach,
};
use crate::ipam::events::{lemma_device_position, lemma_status_keeps_devices};
use crate::ipam::{device_position, has_device, lemma_shape_keeps_devices, State};
use crate::network::CounterOp;
use vstd::prelude::*;

verus! {

/// The counters of every network keep within its budget: what is used and
/// what is free together are never more than what is available. Every
/// operation of the engine leaves a well-formed state, so this holds of all
/// networks at all times.
pub proof fn law_counters_within_budget(state: State, i: int)
    requires
        state.wf(),
        0 <= i < state.networks.len(),
    ensures
        state.networks[i].used@ + state.networks[i].free@ <= state.networks[i].available@,
{
}

/// An event on a device leaves a well-formed state.
pub proof fn law_event_keeps_wf(state: State, ip: IpAddress, network_id: u128, event: Event)
    requires
        state.wf(),
    ensures
        state.after_event(ip, network_id, event).0.wf(),
{
    if has_device(state.devices, ip, network_id) {
        let at = device_position(state.devices, ip, network_id);
        let old_device = state.devices[at];
        match next_status(old_device.status, event) {
            None => {},
            Some(status) => {
                lemma_status_keeps_devices(state, at, status);
                if is_first_occupancy(old_device.status, event) {
                    law_walk_keeps_forest(state, network_id, CounterOp::Occupy);
                    let moved = State {
                        networks: state.networks,
                        devices: state.devices.update(at, old_device.with_status(status)),
                    };
                    lemma_shape_keeps_devices(
                        moved,
                        propagate(state.networks, network_id, CounterOp::Occupy).0,
                    );
                }
            },
        }
    }
}

/// A change of counters that travels up from a network leaves a forest of
/// the same shape, with the counters of every network within its budget.
pub proof fn law_walk_keeps_forest(state: State, start: u128, op: CounterOp)
    requires
        state.wf(),
        has_network(state.networks, start),
    ensures
        crate::forest::same_shape(state.networks, propagate(state.networks, start, op).0),
        crate::forest::forest_wf(propagate(state.networks, start, op).0),
{
    let nets = state.networks;
    let chain = ancestors(nets, start);
    let after = propagate(nets, start, op).0;
    lemma_ancestors_distinct(nets, start);
    lemma_walk_keeps_shape(nets, chain, op);
    assert forall|i: int| 0 <= i < after.len() implies (#[trigger] after[i]).wf() by {
        lemma_walk_networks(nets, chain, op, i);
        nets[i].lemma_applied_wf(op);
    }
    crate::forest::lemma_same_shape_forest(nets, after);
}

/// What a change of counters that travels up from the network `start`
/// does to each network. Where no network refuses, the change is made to
/// `start` and to every ancestor of it, and to no other network. Where one
/// refuses, the change is made to the networks of the chain up to that one,
/// which is changed as far as its counters allow, and to no other.
pub proof fn law_walk_reaches_the_chain(state: State, start: u128, op: CounterOp, i: int)
    requires
        state.wf(),
        has_network(state.networks, start),
        0 <= i < state.networks.len(),
    ensures
        propagate(state.networks, start, op).0.len() == state.networks.len(),
        propagate(state.networks, start, op).0[i] == if among_first(
            ancestors(state.networks, start),
            reach(state.networks, ancestors(state.networks, start), op),
            state.networks[i].id,
        ) {
            state.networks[i].applied(op)
        } else {
            state.networks[i]
        },
        propagate(state.networks, start, op).1 is None ==> {
            &&& reach(state.networks, ancestors(state.networks, start), op) == ancestors(
                state.networks,
                start,
            ).len()
            &&& among_first(
                ancestors(state.networks, start),
                reach(state.networks, ancestors(state.networks, start), op),
                state.networks[i].id,
            ) == ancestors(state.networks, start).contains(state.networks[i].id)
            &&& ancestors(state.networks, start).contains(state.networks[i].id)
                ==> state.networks[i].refusal(op) is None
        },
{
    let nets = state.networks;
    let chain = ancestors(nets, start);
    lemma_ancestors_distinct(nets, start);
    lemma_walk_networks(nets, chain, op, i);
    lemma_walk_failure(nets, chain, op);
    if propagate(nets, start, op).1 is None {
        let r = reach(nets, chain, op);
        if chain.contains(nets[i].id) {
            let k = choose|k: int| 0 <= k < chain.len() && chain[k] == nets[i].id;
            assert(among_first(chain, r, nets[i].id));
            lemma_position(nets, i);
        }
    }
}

/// A first occupancy is counted once. An event that makes a device take up
/// its address for the first time changes the counters of the device's
/// network and of its ancestors, as [`law_walk_reaches_the_chain`] says. The
/// same event once more is allowed, changes nothing at all, and reports no
/// refusal: no counter moves a second time. Where the first walk went
/// through, every network on the chain has exactly one address more in use
/// than before the two events, and every other network has as many.
pub proof fn law_first_occupancy_counts_once(
    state: State,
    ip: IpAddress,
    network_id: u128,
    event: Event,
)
    requires
        state.wf(),
        has_device(state.devices, ip, network_id),
        is_first_occupancy(state.device_at(ip, network_id).status, event),
    ensures
        ({
            let first = state.after_event(ip, network_id, event);
            let second = first.0.after_event(ip, network_id, event);
            &&& first.1 is Ok
            &&& first.0.networks == propagate(state.networks, network_id, CounterOp::Occupy).0
            &&& first.1->Ok_0.failure == propagate(state.networks, network_id, CounterOp::Occupy).1
            &&& second.1 is Ok
            &&& second.1->Ok_0.failure is None
            &&& second.1->Ok_0.device == first.1->Ok_0.device
            &&& second.0 == first.0
            &&& first.1->Ok_0.failure is None ==> forall|i: int|
                0 <= i < state.networks.len() ==> (#[trigger] second.0.networks[i]).used@
                    == state.networks[i].used@ + if ancestors(state.networks, network_id).contains(
                    state.networks[i].id,
                ) {
                    1nat
                } else {
                    0nat
                }
        }),
{
    let first = state.after_event(ip, network_id, event);
    let at = device_position(state.devices, ip, network_id);
    let status = next_status(state.devices[at].status, event)->0;
    lemma_status_keeps_devices(state, at, status);
    let moved = first.0.devices;
    assert(moved[at].is_at(ip, network_id));
    lemma_device_position(moved, at);
    let second = first.0.after_event(ip, network_id, event);
    assert(second.0.devices =~= first.0.devices);
    assert(has_network(state.networks, state.devices[at].network_id));
    if first.1->Ok_0.failure is None {
        assert forall|i: int| 0 <= i < state.networks.len() implies (
        #[trigger] second.0.networks[i]).used@ == state.networks[i].used@ + if ancestors(
            state.networks,
            network_id,
        ).contains(state.networks[i].id) {
            1nat
        } else {
            0nat
        } by {
            law_walk_reaches_the_chain(state, network_id, CounterOp::Occupy, i);
        }
    }
}

/// A liveness probe that is answered twice in a row by a device that was
/// `Unknown` counts its address once: the second answer changes nothing.
pub proof fn law_probe_twice_counts_once(state: State, ip: IpAddress, network_id: u128)
    requires
        state.wf(),
        has_device(state.devices, ip, network_id),
        state.device_at(ip, network_id).status == Status::Unknown,
    ensures
        ({
            let first = state.after_event(ip, network_id, Event::ProbeSucceeded);
            let second = first.0.after_event(ip, network_id, Event::ProbeSucceeded);
            &&& first.1 is Ok
            &&& first.1->Ok_0.device.status == Status::Online
            &&& second.1 is Ok
            &&& second.0 == first.0
            &&& first.1->Ok_0.failure is None ==> forall|i: int|
                0 <= i < state.networks.len() ==> (#[trigger] second.0.networks[i]).used@
                    == state.networks[i].used@ + if ancestors(state.networks, network_id).contains(
                    state.networks[i].id,
                ) {
                    1nat
                } else {
                    0nat
                }
        }),
{
    law_first_occupancy_counts_once(state, ip, network_id, Event::ProbeSucceeded);
}

/// A split of an IPv4 network partitions it. The subnets that the engine
/// makes are two to the number of added prefix bits; they are untouched
/// networks under the parent, on the blocks of the new prefix in the order
/// of their addresses; no address lies in two of them; and an address lies
/// in one of them exactly when it lies in the parent.
pub proof fn law_subdivide_partitions(
    state: State,
    parent_id: u128,
    new_prefix: u8,
    explicit: Option<Cidr>,
    ids: Seq<u128>,
)
    requires
        state.wf(),
        has_network(state.networks, parent_id),
        network_of(state.networks, parent_id).network.is_v4(),
        state.after_subdivide(parent_id, new_prefix, explicit, ids).1 is Ok,
    ensures
        ({
            let parent = network_of(state.networks, parent_id);
            let children = state.after_subdivide(parent_id, new_prefix, explicit, ids).1->Ok_0.0;
            &&& parent.network.prefix() < new_prefix <= 32
            &&& children.len() == pow2((new_prefix - parent.network.prefix()) as nat)
            &&& forall|k: int|
                0 <= k < children.len() ==> #[trigger] children[k] == Network::fresh(
                    ids[k],
                    parent.network.subnet(new_prefix as nat, k as nat),
                    None,
                    None,
                    Some(parent_id),
                )
            &&& forall|i: int, j: int, a: IpAddress|
                0 <= i < j < children.len() ==> !(#[trigger] children[i].network.holds(a)
                    && #[trigger] children[j].network.holds(a))
            &&& forall|a: IpAddress|
                parent.network.holds(a) <==> exists|k: int|
                    0 <= k < children.len() && #[trigger] children[k].network.holds(a)
        }),
{
    let parent = network_of(state.networks, parent_id);
    let children = state.after_subdivide(parent_id, new_prefix, explicit, ids).1->Ok_0.0;
    let blocks = subnets_of(parent.network, new_prefix as nat);
    lemma_position_valid(state.networks, parent_id);
    law_subnets_partition(parent.network, new_prefix as nat);
    assert forall|i: int, j: int, a: IpAddress| 0 <= i < j < children.len() implies !(
    #[trigger] children[i].network.holds(a) && #[trigger] children[j].network.holds(a)) by {
        assert(children[i].network == blocks[i] && children[j].network == blocks[j]);
    }
    assert forall|a: IpAddress| parent.network.holds(a) implies exists|k: int|
        0 <= k < children.len() && #[trigger] children[k].network.holds(a) by {
        let k = choose|k: int| 0 <= k < blocks.len() && #[trigger] blocks[k].holds(a);
        assert(children[k].network == blocks[k]);
    }
    assert forall|a: IpAddress|
        (exists|k: int|
            0 <= k < children.len() && #[trigger] children[k].network.holds(
                a,
            )) implies parent.network.holds(a) by {
        let k = choose|k: int| 0 <= k < children.len() && #[trigger] children[k].network.holds(a);
        assert(children[k].network == blocks[k]);
    }
}

/// The forest with the first `k` of the planned subnets under their parent
/// is a forest, in which the networks that were there are as they were.
pub proof fn lemma_grafted(
    state: State,
    parent_id: u128,
    new_prefix: u8,
    explicit: Option<Cidr>,
    ids: Seq<u128>,
    k: nat,
)
    requires
        state.wf(),
        has_network(state.networks, parent_id),
        explicit is Some ==> explicit->0.wf(),
        planned_children(network_of(state.networks, parent_id).network, new_prefix, explicit) is Ok,
        ids_usable(
            state.networks,
            ids,
            planned_children(
                network_of(state.networks, parent_id).network,
                new_prefix,
                explicit,
            )->Ok_0.len(),
        ),
        k <= planned_children(
            network_of(state.networks, parent_id).network,
            new_prefix,
            explicit,
        )->Ok_0.len(),
    ensures
        ({
            let blocks = planned_children(
                network_of(state.networks, parent_id).network,
                new_prefix,
                explicit,
            )->Ok_0;
            let grown = state.networks + new_children(parent_id, blocks, ids).take(k as int);
            &&& forest_wf(grown)
            &&& forall|id: u128|
                has_network(state.networks, id) ==> has_network(grown, id) && network_of(grown, id)
                    == network_of(state.networks, id)
            &&& forall|id: u128|
                has_network(grown, id) && !has_network(state.networks, id) ==> exists|j: int|
                    0 <= j < k && #[trigger] ids[j] == id
        }),
    decreases k,
{
    let nets = state.networks;
    let parent = network_of(nets, parent_id);
    let blocks = planned_children(parent.network, new_prefix, explicit)->Ok_0;
    let made = new_children(parent_id, blocks, ids);
    let grown = nets + made.take(k as int);
    lemma_position_valid(nets, parent_id);
    if k == 0 {
        assert(grown =~= nets);
    } else {
        let before = nets + made.take(k - 1);
        let child = made[k - 1];
        lemma_grafted(state, parent_id, new_prefix, explicit, ids, (k - 1) as nat);
        assert(grown =~= before.push(child));
        lemma_planned_children(parent.network, new_prefix, explicit, k - 1);
        if parent.network.is_v4() {
            lemma_subnet_geometry(parent.network, new_prefix as nat, (k - 1) as nat);
        }
        if has_network(before, child.id) {
            let j = choose|j: int| 0 <= j < k - 1 && #[trigger] ids[j] == child.id;
            assert(ids[j] != ids[k - 1]);
        }
        lemma_push_child(before, child);
        assert forall|id: u128| has_network(nets, id) implies has_network(grown, id) && network_of(
            grown,
            id,
        ) == network_of(nets, id) by {
            assert(has_network(before, id));
        }
        assert forall|id: u128| has_network(grown, id) && !has_network(nets, id) implies exists|
            j: int,
        |
            0 <= j < k && #[trigger] ids[j] == id by {
            let at = position(grown, id);
            if at < before.len() {
                assert(before[at].id == id);
                let j = choose|j: int| 0 <= j < k - 1 && #[trigger] ids[j] == id;
            } else {
                assert(ids[k - 1] == id);
            }
        }
    }
}

/// A chain of ancestors is the same in a forest that has grown by
/// networks under new ids.
pub proof fn lemma_grown_keeps_chain(nets: Seq<Network>, grown: Seq<Network>, id: u128)
    requires
        forest_wf(nets),
        has_network(nets, id),
        forall|id: u128|
            has_network(nets, id) ==> has_network(grown, id) && network_of(grown, id) == network_of(
                nets,
                id,
            ),
    ensures
        ancestors(grown, id) == ancestors(nets, id),
    decreases network_of(nets, id).network.prefix(),
{
    lemma_ancestors_unfold(nets, id);
    match network_of(nets, id).father {
        Some(f) => {
            lemma_grown_keeps_chain(nets, grown, f);
        },
        None => {},
    }
}

/// A split hands the budgets of the new subnets over. Where no network
/// refuses, the parent and each of its ancestors has as many addresses less
/// available and free as the new subnets have at their disposal together;
/// `used` is untouched; every other network that was there is as before;
/// and the new subnets stand behind them.
pub proof fn law_subdivide_hands_budgets_over(
    state: State,
    parent_id: u128,
    new_prefix: u8,
    explicit: Option<Cidr>,
    ids: Seq<u128>,
)
    requires
        state.wf(),
        explicit is Some ==> explicit->0.wf(),
        state.after_subdivide(parent_id, new_prefix, explicit, ids).1 is Ok,
        state.after_subdivide(parent_id, new_prefix, explicit, ids).1->Ok_0.1 is None,
    ensures
        ({
            let after = state.after_subdivide(parent_id, new_prefix, explicit, ids).0;
            let children = state.after_subdivide(parent_id, new_prefix, explicit, ids).1->Ok_0.0;
            let blocks = planned_children(
                network_of(state.networks, parent_id).network,
                new_prefix,
                explicit,
            )->Ok_0;
            let chain = ancestors(state.networks, parent_id);
            &&& after.wf()
            &&& after.devices == state.devices
            &&& after.networks.len() == state.networks.len() + children.len()
            &&& forall|k: int|
                0 <= k < children.len() ==> #[trigger] after.networks[state.networks.len() + k]
                    == children[k]
            &&& forall|i: int|
                0 <= i < state.networks.len() && !chain.contains(state.networks[i].id)
                    ==> #[trigger] after.networks[i] == state.networks[i]
            &&& forall|i: int|
                0 <= i < state.networks.len() && chain.contains(state.networks[i].id) ==> {
                    let old = state.networks[i];
                    let new = #[trigger] after.networks[i];
                    &&& new.available@ == old.available@ - total_budget(blocks)
                    &&& new.free@ == old.free@ - total_budget(blocks)
                    &&& new.used == old.used
                    &&& new.id == old.id
                    &&& new.network == old.network
                    &&& new.father == old.father
                }
        }),
{
    let nets = state.networks;
    let parent = network_of(nets, parent_id);
    let blocks = planned_children(parent.network, new_prefix, explicit)->Ok_0;
    let children = new_children(parent_id, blocks, ids);
    let grown = nets + children;
    let op = CounterOp::Commit(total_budget(blocks) as u64);
    let after = state.after_subdivide(parent_id, new_prefix, explicit, ids).0;
    lemma_grafted(state, parent_id, new_prefix, explicit, ids, blocks.len());
    assert(children.take(blocks.len() as int) =~= children);
    lemma_grown_keeps_devices(state, grown);
    let grown_state = State { networks: grown, devices: state.devices };
    lemma_grown_keeps_chain(nets, grown, parent_id);
    law_walk_keeps_forest(grown_state, parent_id, op);
    lemma_shape_keeps_devices(grown_state, after.networks);
    lemma_total_budget_bounded(blocks);
    lemma_position_valid(nets, parent_id);
    if parent.network.is_v4() {
        lemma_pow2_monotone((new_prefix - parent.network.prefix()) as nat, 32);
        lemma2_to64();
    }
    assert(total_budget(blocks) <= 0xffff_ffff_0000_0000) by (nonlinear_arith)
        requires
            total_budget(blocks) <= blocks.len() * HostCount::MAX,
            blocks.len() <= 0x1_0000_0000,
            HostCount::MAX == 0xffff_ffff,
    ;
    assert forall|i: int| 0 <= i < grown.len() implies #[trigger] after.networks[i] == if ancestors(
        nets,
        parent_id,
    ).contains(grown[i].id) {
        grown[i].applied(op)
    } else {
        grown[i]
    } && (ancestors(nets, parent_id).contains(grown[i].id) ==> grown[i].refusal(op) is None) by {
        law_walk_reaches_the_chain(grown_state, parent_id, op, i);
    }
    lemma_ancestors_distinct(nets, parent_id);
    assert forall|k: int| 0 <= k < children.len() implies #[trigger] after.networks[nets.len() + k]
        == children[k] by {
        let i = nets.len() + k;
        assert(grown[i] == children[k]);
        if ancestors(nets, parent_id).contains(grown[i].id) {
            let c = choose|c: int|
                0 <= c < ancestors(nets, parent_id).len() && ancestors(nets, parent_id)[c]
                    == grown[i].id;
            assert(has_network(nets, ancestors(nets, parent_id)[c]));
        }
    }
    assert forall|i: int| 0 <= i < nets.len() implies grown[i] == nets[i] by {}
}

/// The budgets of the blocks of a plan, added up, fit a 64-bit counter.
pub proof fn lemma_total_budget_bounded(blocks: Seq<Cidr>)
    ensures
        total_budget(blocks) <= blocks.len() * HostCount::MAX,
    decreases blocks.len(),
{
    if blocks.len() > 0 {
        lemma_total_budget_bounded(blocks.drop_last());
        assert((blocks.len() - 1) * HostCount::MAX + HostCount::MAX == blocks.len()
            * HostCount::MAX) by (nonlinear_arith);
    }
}

} // verus!
