//! The forest of networks as a sequence of records: who is whose father,
//! and how a change of counters travels up a chain of fathers.

use crate::host_count::CountError;
use crate::network::{CounterOp, Network};
use vstd::prelude::*;

verus! {

/// Whether a network with this id is among `nets`.
pub open spec fn has_network(nets: Seq<Network>, id: u128) -> bool {
    exists|i: int| 0 <= i < nets.len() && #[trigger] nets[i].id == id
}

/// Where the network with this id stands in `nets`.
pub open spec fn position(nets: Seq<Network>, id: u128) -> int {
    choose|i: int| 0 <= i < nets.len() && #[trigger] nets[i].id == id
}

/// The network with this id.
pub open spec fn network_of(nets: Seq<Network>, id: u128) -> Network {
    nets[position(nets, id)]
}

/// No two networks share an id.
pub open spec fn ids_unique(nets: Seq<Network>) -> bool {
    forall|i: int, j: int|
        0 <= i < nets.len() && 0 <= j < nets.len() && #[trigger] nets[i].id == #[trigger] nets[j].id
            ==> i == j
}

/// Whether `child` may name the network `father` as its father: the
/// father's block holds the child's and has a shorter prefix.
pub open spec fn is_father_of(father: Network, child: Network) -> bool {
    &&& child.father == Some(father.id)
    &&& father.network.covers(child.network)
    &&& father.network.prefix() < child.network.prefix()
}

/// The networks form a forest: every record is well-formed, ids are
/// unique, and a network that names a father names one of the networks,
/// whose block holds its own.
pub open spec fn forest_wf(nets: Seq<Network>) -> bool {
    &&& ids_unique(nets)
    &&& forall|i: int| 0 <= i < nets.len() ==> (#[trigger] nets[i]).wf()
    &&& forall|i: int|
        0 <= i < nets.len() && (#[trigger] nets[i]).father is Some ==> has_network(
            nets,
            nets[i].father->0,
        ) && is_father_of(network_of(nets, nets[i].father->0), nets[i])
}

/// The networks from the one with this id up to its root, each followed by
/// its father. Empty where no network has the id.
pub open spec fn ancestors(nets: Seq<Network>, id: u128) -> Seq<u128>
    decreases
            (if has_network(nets, id) {
                network_of(nets, id).network.prefix() + 1
            } else {
                0
            }),
{
    if !has_network(nets, id) {
        Seq::empty()
    } else {
        let own = network_of(nets, id);
        match own.father {
            Some(f) => if has_network(nets, f) && network_of(nets, f).network.prefix()
                < own.network.prefix() {
                seq![id] + ancestors(nets, f)
            } else {
                seq![id]
            },
            None => seq![id],
        }
    }
}

/// A counter change that a network refused.
#[derive(Clone, Copy, Debug, PartialEq, Eq, Structural)]
pub struct CounterFailure {
    /// The network whose counters refused the change.
    pub network: u128,
    /// Why they did.
    pub error: CountError,
}

/// Makes the change on the networks named by `chain`, one after the other,
/// up to and including the first that refuses it. The networks after the
/// walk, and the refusal that stopped it, if one did.
pub open spec fn apply_along(nets: Seq<Network>, chain: Seq<u128>, op: CounterOp) -> (
    Seq<Network>,
    Option<CounterFailure>,
)
    decreases chain.len(),
{
    if chain.len() == 0 || !has_network(nets, chain[0]) {
        (nets, None)
    } else {
        let at = position(nets, chain[0]);
        let after = nets.update(at, nets[at].applied(op));
        match nets[at].refusal(op) {
            Some(error) => (after, Some(CounterFailure { network: chain[0], error })),
            None => apply_along(after, chain.drop_first(), op),
        }
    }
}

/// The change made on a network and then on each of its ancestors in turn,
/// up to the root or to the first network that refuses it.
pub open spec fn propagate(nets: Seq<Network>, start: u128, op: CounterOp) -> (
    Seq<Network>,
    Option<CounterFailure>,
) {
    apply_along(nets, ancestors(nets, start), op)
}

/// Whether two sequences hold the same networks in the same places but for
/// their counters.
pub open spec fn same_shape(a: Seq<Network>, b: Seq<Network>) -> bool {
    &&& a.len() == b.len()
    &&& forall|i: int|
        0 <= i < a.len() ==> (#[trigger] a[i]).id == b[i].id && a[i].network == b[i].network
            && a[i].father == b[i].father && a[i].vlan == b[i].vlan && a[i].description
            == b[i].description
}

/// With unique ids, the network of an id is the one that carries it.
pub proof fn lemma_position(nets: Seq<Network>, i: int)
    requires
        ids_unique(nets),
        0 <= i < nets.len(),
    ensures
        has_network(nets, nets[i].id),
        position(nets, nets[i].id) == i,
{
}

/// An id that some network has stands at its position.
pub proof fn lemma_position_valid(nets: Seq<Network>, id: u128)
    requires
        has_network(nets, id),
    ensures
        0 <= position(nets, id) < nets.len(),
        nets[position(nets, id)].id == id,
{
}

/// Sequences of the same shape hold the same ids at the same positions.
pub proof fn lemma_same_shape_lookup(a: Seq<Network>, b: Seq<Network>, id: u128)
    requires
        same_shape(a, b),
        ids_unique(a),
    ensures
        ids_unique(b),
        has_network(a, id) == has_network(b, id),
        has_network(a, id) ==> position(a, id) == position(b, id),
{
    assert forall|i: int, j: int|
        0 <= i < b.len() && 0 <= j < b.len() && #[trigger] b[i].id == #[trigger] b[j].id implies i
        == j by {
        assert(a[i].id == a[j].id);
    }
    if has_network(a, id) {
        let i = position(a, id);
        assert(b[i].id == id);
        lemma_position(b, i);
    }
    if has_network(b, id) {
        let i = position(b, id);
        assert(a[i].id == id);
    }
}

/// The chain of ancestors depends on the shape of the forest alone, not on
/// the counters.
pub proof fn lemma_same_shape_ancestors(a: Seq<Network>, b: Seq<Network>, id: u128)
    requires
        same_shape(a, b),
        ids_unique(a),
    ensures
        ancestors(a, id) == ancestors(b, id),
    decreases
            (if has_network(a, id) {
                network_of(a, id).network.prefix() + 1
            } else {
                0
            }),
{
    lemma_same_shape_lookup(a, b, id);
    if has_network(a, id) {
        let own = network_of(a, id);
        lemma_position_valid(a, id);
        match own.father {
            Some(f) => {
                lemma_same_shape_lookup(a, b, f);
                if has_network(a, f) {
                    lemma_position_valid(a, f);
                    if network_of(a, f).network.prefix() < own.network.prefix() {
                        lemma_same_shape_ancestors(a, b, f);
                    }
                }
            },
            None => {},
        }
    }
}

/// A change of counters on one network keeps the shape of the forest and
/// keeps it a forest.
pub proof fn lemma_applied_keeps_forest(nets: Seq<Network>, at: int, op: CounterOp)
    requires
        forest_wf(nets),
        0 <= at < nets.len(),
        nets[at].applied(op).wf(),
    ensures
        same_shape(nets, nets.update(at, nets[at].applied(op))),
        forest_wf(nets.update(at, nets[at].applied(op))),
{
    let after = nets.update(at, nets[at].applied(op));
    assert(same_shape(nets, after));
    lemma_same_shape_forest(nets, after);
}

/// A sequence of the shape of a forest, with well-formed records, is a
/// forest.
pub proof fn lemma_same_shape_forest(a: Seq<Network>, b: Seq<Network>)
    requires
        forest_wf(a),
        same_shape(a, b),
        forall|i: int| 0 <= i < b.len() ==> (#[trigger] b[i]).wf(),
    ensures
        forest_wf(b),
{
    lemma_same_shape_lookup(a, b, 0);
    assert forall|i: int| 0 <= i < b.len() && (#[trigger] b[i]).father is Some implies has_network(
        b,
        b[i].father->0,
    ) && is_father_of(network_of(b, b[i].father->0), b[i]) by {
        let f = b[i].father->0;
        assert(a[i].father == Some(f));
        lemma_same_shape_lookup(a, b, f);
        lemma_position_valid(a, f);
    }
}

/// Whether the network `inner` lies under the network `outer`: `outer` is
/// its father, or the father of its father, and so on.
pub open spec fn is_under(nets: Seq<Network>, inner: u128, outer: u128) -> bool {
    inner != outer && ancestors(nets, inner).contains(outer)
}

/// In a forest, the chain of a network starts with the network itself and
/// goes on with the chain of its father.
pub proof fn lemma_ancestors_unfold(nets: Seq<Network>, id: u128)
    requires
        forest_wf(nets),
        has_network(nets, id),
    ensures
        ancestors(nets, id) == match network_of(nets, id).father {
            Some(f) => seq![id] + ancestors(nets, f),
            None => seq![id],
        },
        network_of(nets, id).father is Some ==> has_network(nets, network_of(nets, id).father->0)
            && network_of(nets, network_of(nets, id).father->0).network.prefix() < network_of(
            nets,
            id,
        ).network.prefix(),
{
    lemma_position_valid(nets, id);
}

/// Every network in the chain of `id` is one of the networks, and its
/// prefix is no longer than that of `id`.
pub proof fn lemma_ancestors_are_shorter(nets: Seq<Network>, id: u128, k: int)
    requires
        forest_wf(nets),
        has_network(nets, id),
        0 <= k < ancestors(nets, id).len(),
    ensures
        has_network(nets, ancestors(nets, id)[k]),
        network_of(nets, ancestors(nets, id)[k]).network.prefix() <= network_of(
            nets,
            id,
        ).network.prefix(),
        k > 0 ==> network_of(nets, ancestors(nets, id)[k]).network.prefix() < network_of(
            nets,
            id,
        ).network.prefix(),
        k == 0 ==> ancestors(nets, id)[k] == id,
    decreases network_of(nets, id).network.prefix(),
{
    lemma_ancestors_unfold(nets, id);
    if k > 0 {
        let f = network_of(nets, id).father->0;
        lemma_ancestors_are_shorter(nets, f, k - 1);
    }
}

/// The father of a network does not lie under it.
pub proof fn lemma_father_is_not_under(nets: Seq<Network>, id: u128)
    requires
        forest_wf(nets),
        has_network(nets, id),
        network_of(nets, id).father is Some,
    ensures
        !is_under(nets, network_of(nets, id).father->0, id),
{
    let f = network_of(nets, id).father->0;
    lemma_ancestors_unfold(nets, id);
    if ancestors(nets, f).contains(id) {
        let k = choose|k: int| 0 <= k < ancestors(nets, f).len() && ancestors(nets, f)[k] == id;
        lemma_ancestors_are_shorter(nets, f, k);
    }
}

/// A network that lies under `outer` has a father, and that father is
/// `outer` or lies under it. A network whose father is `outer` or lies
/// under it lies under `outer`.
pub proof fn lemma_under_by_father(nets: Seq<Network>, inner: u128, outer: u128)
    requires
        forest_wf(nets),
        has_network(nets, inner),
        inner != outer,
    ensures
        is_under(nets, inner, outer) <==> network_of(nets, inner).father is Some && (network_of(
            nets,
            inner,
        ).father->0 == outer && has_network(nets, outer) || is_under(
            nets,
            network_of(nets, inner).father->0,
            outer,
        )),
{
    lemma_ancestors_unfold(nets, inner);
    match network_of(nets, inner).father {
        Some(f) => {
            let up = ancestors(nets, f);
            let chain = ancestors(nets, inner);
            lemma_ancestors_unfold(nets, f);
            assert(up[0] == f);
            if chain.contains(outer) {
                let k = choose|k: int| 0 <= k < chain.len() && chain[k] == outer;
                assert(up[k - 1] == outer);
            }
            if up.contains(outer) {
                let k = choose|k: int| 0 <= k < up.len() && up[k] == outer;
                assert(chain[k + 1] == outer);
                lemma_ancestors_are_shorter(nets, f, k);
            }
        },
        None => {
            assert(ancestors(nets, inner)[0] == inner);
        },
    }
}

/// How many networks of the chain a walk touches: all up to and including
/// the first that refuses the change, or all of the chain where none does.
pub open spec fn reach(nets: Seq<Network>, chain: Seq<u128>, op: CounterOp) -> nat
    decreases chain.len(),
{
    if chain.len() == 0 {
        0
    } else if network_of(nets, chain[0]).refusal(op) is Some {
        1
    } else {
        1 + reach(nets, chain.drop_first(), op)
    }
}

/// Whether a walk along `chain` can be followed network by network: the
/// chain names networks of `nets`, each of them once, and ids are unique.
pub open spec fn walkable(nets: Seq<Network>, chain: Seq<u128>) -> bool {
    &&& ids_unique(nets)
    &&& chain.no_duplicates()
    &&& forall|k: int| 0 <= k < chain.len() ==> has_network(nets, #[trigger] chain[k])
}

/// The networks after the first step of a walk.
pub open spec fn stepped(nets: Seq<Network>, chain: Seq<u128>, op: CounterOp) -> Seq<Network> {
    nets.update(position(nets, chain[0]), network_of(nets, chain[0]).applied(op))
}

/// The first step of a walk leaves a walk along the rest of the chain,
/// over networks that are as before but for the one just changed.
pub proof fn lemma_walk_step(nets: Seq<Network>, chain: Seq<u128>, op: CounterOp)
    requires
        walkable(nets, chain),
        chain.len() > 0,
    ensures
        0 <= position(nets, chain[0]) < nets.len(),
        nets[position(nets, chain[0])].id == chain[0],
        same_shape(nets, stepped(nets, chain, op)),
        walkable(stepped(nets, chain, op), chain.drop_first()),
        forall|k: int|
            1 <= k < chain.len() ==> network_of(stepped(nets, chain, op), #[trigger] chain[k])
                == network_of(nets, chain[k]),
        network_of(nets, chain[0]).refusal(op) is None ==> apply_along(nets, chain, op)
            == apply_along(stepped(nets, chain, op), chain.drop_first(), op) && reach(
            nets,
            chain,
            op,
        ) == 1 + reach(stepped(nets, chain, op), chain.drop_first(), op),
        network_of(nets, chain[0]).refusal(op) is Some ==> apply_along(nets, chain, op) == (
            stepped(nets, chain, op),
            Some(
                CounterFailure {
                    network: chain[0],
                    error: network_of(nets, chain[0]).refusal(op)->0,
                },
            ),
        ) && reach(nets, chain, op) == 1,
{
    let id = chain[0];
    let here = stepped(nets, chain, op);
    let rest = chain.drop_first();
    lemma_position_valid(nets, id);
    assert(same_shape(nets, here));
    lemma_same_shape_lookup(nets, here, id);
    assert forall|k: int| 1 <= k < chain.len() implies has_network(here, #[trigger] chain[k])
        && network_of(here, chain[k]) == network_of(nets, chain[k]) by {
        lemma_same_shape_lookup(nets, here, chain[k]);
        lemma_position_valid(nets, chain[k]);
        assert(chain[k] != chain[0]);
    }
    assert forall|k: int| 0 <= k < rest.len() implies has_network(here, #[trigger] rest[k]) by {
        assert(rest[k] == chain[k + 1]);
    }
    assert forall|i: int, j: int| 0 <= i < rest.len() && 0 <= j < rest.len() && i != j implies rest[i]
        != rest[j] by {
        assert(rest[i] == chain[i + 1] && rest[j] == chain[j + 1]);
    }
    if network_of(nets, id).refusal(op) is None {
        assert forall|k: int| 0 <= k < rest.len() implies network_of(nets, #[trigger] rest[k])
            == network_of(here, rest[k]) by {
            assert(rest[k] == chain[k + 1]);
        }
        lemma_reach_same(nets, here, rest, op);
    }
}

/// A walk touches at least the first network of its chain and no more than
/// the chain names.
pub proof fn lemma_reach_bounds(nets: Seq<Network>, chain: Seq<u128>, op: CounterOp)
    ensures
        reach(nets, chain, op) <= chain.len(),
        chain.len() > 0 ==> reach(nets, chain, op) > 0,
    decreases chain.len(),
{
    if chain.len() > 0 {
        lemma_reach_bounds(nets, chain.drop_first(), op);
    }
}

/// A walk changes nothing but counters.
pub proof fn lemma_walk_keeps_shape(nets: Seq<Network>, chain: Seq<u128>, op: CounterOp)
    requires
        walkable(nets, chain),
    ensures
        same_shape(nets, apply_along(nets, chain, op).0),
    decreases chain.len(),
{
    if chain.len() > 0 {
        lemma_walk_step(nets, chain, op);
        if network_of(nets, chain[0]).refusal(op) is None {
            let here = stepped(nets, chain, op);
            lemma_walk_keeps_shape(here, chain.drop_first(), op);
            lemma_same_shape_trans(nets, here, apply_along(here, chain.drop_first(), op).0);
        }
    }
}

/// Whether `id` is among the first `n` of `chain`.
pub open spec fn among_first(chain: Seq<u128>, n: nat, id: u128) -> bool {
    exists|k: int| 0 <= k < n && k < chain.len() && #[trigger] chain[k] == id
}

/// What a walk does, network by network: a network that the walk touches
/// has the change made to it as far as its counters allow; every other
/// network is as before.
pub proof fn lemma_walk_networks(nets: Seq<Network>, chain: Seq<u128>, op: CounterOp, i: int)
    requires
        walkable(nets, chain),
        0 <= i < nets.len(),
    ensures
        apply_along(nets, chain, op).0.len() == nets.len(),
        apply_along(nets, chain, op).0[i] == if among_first(
            chain,
            reach(nets, chain, op),
            nets[i].id,
        ) {
            nets[i].applied(op)
        } else {
            nets[i]
        },
    decreases chain.len(),
{
    if chain.len() > 0 {
        let id = chain[0];
        let at = position(nets, id);
        let here = stepped(nets, chain, op);
        let rest = chain.drop_first();
        let r = reach(nets, chain, op);
        lemma_walk_step(nets, chain, op);
        lemma_position(nets, i);
        if network_of(nets, id).refusal(op) is Some {
            if i == at {
                assert(chain[0] == nets[i].id);
            }
        } else {
            let rr = reach(here, rest, op);
            lemma_walk_networks(here, rest, op, i);
            lemma_reach_bounds(here, rest, op);
            if among_first(rest, rr, here[i].id) {
                let k = choose|k: int| 0 <= k < rr && k < rest.len() && #[trigger] rest[k]
                    == here[i].id;
                assert(chain[k + 1] == nets[i].id);
                assert(chain[k + 1] != chain[0]);
            } else if i == at {
                assert(chain[0] == nets[i].id);
            } else if among_first(chain, r, nets[i].id) {
                let k = choose|k: int| 0 <= k < r && k < chain.len() && #[trigger] chain[k]
                    == nets[i].id;
                assert(rest[k - 1] == here[i].id);
            }
        }
    }
}

/// What a walk reports: the refusal of the last network it touched, if
/// that network refused. No network that it touched before refused.
pub proof fn lemma_walk_failure(nets: Seq<Network>, chain: Seq<u128>, op: CounterOp)
    requires
        walkable(nets, chain),
        chain.len() > 0,
    ensures
        0 < reach(nets, chain, op) <= chain.len(),
        forall|k: int|
            0 <= k < reach(nets, chain, op) - 1 ==> network_of(nets, #[trigger] chain[k]).refusal(
                op,
            ) is None,
        apply_along(nets, chain, op).1 == match network_of(
            nets,
            chain[reach(nets, chain, op) - 1],
        ).refusal(op) {
            Some(error) => Some(
                CounterFailure { network: chain[reach(nets, chain, op) - 1], error },
            ),
            None => None::<CounterFailure>,
        },
        apply_along(nets, chain, op).1 is None ==> reach(nets, chain, op) == chain.len(),
    decreases chain.len(),
{
    let here = stepped(nets, chain, op);
    let rest = chain.drop_first();
    lemma_walk_step(nets, chain, op);
    lemma_reach_bounds(nets, chain, op);
    if network_of(nets, chain[0]).refusal(op) is None {
        if rest.len() > 0 {
            lemma_walk_failure(here, rest, op);
            let r = reach(nets, chain, op);
            let rr = reach(here, rest, op);
            assert(chain[r - 1] == rest[rr - 1]);
            assert forall|k: int| 0 <= k < r - 1 implies network_of(
                nets,
                #[trigger] chain[k],
            ).refusal(op) is None by {
                if k > 0 {
                    assert(rest[k - 1] == chain[k]);
                }
            }
        }
    }
}

/// A walk reaches as far in a forest as in one where networks off the
/// chain have other counters.
pub proof fn lemma_reach_same(a: Seq<Network>, b: Seq<Network>, chain: Seq<u128>, op: CounterOp)
    requires
        forall|k: int|
            0 <= k < chain.len() ==> network_of(a, #[trigger] chain[k]) == network_of(b, chain[k]),
    ensures
        reach(a, chain, op) == reach(b, chain, op),
    decreases chain.len(),
{
    if chain.len() > 0 {
        assert(network_of(a, chain[0]) == network_of(b, chain[0]));
        let rest = chain.drop_first();
        assert forall|k: int| 0 <= k < rest.len() implies network_of(a, #[trigger] rest[k])
            == network_of(b, rest[k]) by {
            assert(rest[k] == chain[k + 1]);
        }
        lemma_reach_same(a, b, rest, op);
    }
}

/// Having the same shape carries over.
pub proof fn lemma_same_shape_trans(a: Seq<Network>, b: Seq<Network>, c: Seq<Network>)
    requires
        same_shape(a, b),
        same_shape(b, c),
    ensures
        same_shape(a, c),
{
    assert forall|i: int| 0 <= i < a.len() implies (#[trigger] a[i]).id == c[i].id && a[i].network
        == c[i].network && a[i].father == c[i].father && a[i].vlan == c[i].vlan
        && a[i].description == c[i].description by {
        assert(b[i].id == a[i].id);
    }
}

/// In a forest, the chain of a network names networks of the forest, each
/// of them once.
pub proof fn lemma_ancestors_distinct(nets: Seq<Network>, id: u128)
    requires
        forest_wf(nets),
        has_network(nets, id),
    ensures
        ancestors(nets, id).no_duplicates(),
        ancestors(nets, id).len() > 0,
        ancestors(nets, id)[0] == id,
        forall|k: int|
            0 <= k < ancestors(nets, id).len() ==> has_network(nets, #[trigger] ancestors(nets, id)[k]),
    decreases network_of(nets, id).network.prefix(),
{
    let chain = ancestors(nets, id);
    lemma_ancestors_unfold(nets, id);
    assert forall|k: int| 0 <= k < chain.len() implies has_network(nets, #[trigger] chain[k]) by {
        lemma_ancestors_are_shorter(nets, id, k);
    }
    match network_of(nets, id).father {
        Some(f) => {
            lemma_ancestors_distinct(nets, f);
            let up = ancestors(nets, f);
            assert forall|i: int, j: int|
                0 <= i < chain.len() && 0 <= j < chain.len() && i != j implies chain[i]
                != chain[j] by {
                if i > 0 && j > 0 {
                    assert(chain[i] == up[i - 1] && chain[j] == up[j - 1]);
                } else if i == 0 {
                    lemma_ancestors_are_shorter(nets, id, j);
                } else {
                    lemma_ancestors_are_shorter(nets, id, i);
                }
            }
        },
        None => {},
    }
}

} // verus!
