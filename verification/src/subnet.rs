//! Splitting a block into the subnets of a longer prefix.

use crate::cidr::{subnet_count, Cidr, IpAddress};
use crate::error::Error;
use crate::power::pow2_u64;
use vstd::arithmetic::div_mod::{
    lemma_div_pos_is_pos, lemma_fundamental_div_mod, lemma_fundamental_div_mod_converse,
    lemma_mod_multiples_basic,
};
use vstd::arithmetic::power2::{lemma2_to64, lemma_pow2_adds, lemma_pow2_pos, pow2};
use vstd::prelude::*;

verus! {

/// A block of prefix `p` is `subnet_count(p, np)` strides of prefix `np`
/// long.
pub proof fn lemma_size_is_count_times_stride(parent: Cidr, new_prefix: nat)
    requires
        parent.wf(),
        parent.splits_at(new_prefix),
    ensures
        parent.size() == subnet_count(parent.prefix(), new_prefix) * parent.stride(new_prefix),
        parent.stride(new_prefix) >= 1,
        subnet_count(parent.prefix(), new_prefix) >= 2,
{
    let d = (new_prefix - parent.prefix()) as nat;
    let h = (parent.width() - new_prefix) as nat;
    lemma_pow2_adds(d, h);
    lemma_pow2_pos(h);
    lemma_pow2_pos(d);
    lemma2_to64();
    crate::power::lemma_pow2_monotone(1, d);
}

/// Where subnet `i` lies: it is a well-formed block of the new prefix, one
/// stride long, `i` strides after the parent's first address, inside the
/// parent.
pub proof fn lemma_subnet_geometry(parent: Cidr, new_prefix: nat, i: nat)
    requires
        parent.wf(),
        parent.splits_at(new_prefix),
        i < subnet_count(parent.prefix(), new_prefix),
    ensures
        parent.subnet(new_prefix, i).wf(),
        parent.subnet(new_prefix, i).is_v4() == parent.is_v4(),
        parent.subnet(new_prefix, i).prefix() == new_prefix,
        parent.subnet(new_prefix, i).first() == parent.first() + i * parent.stride(new_prefix),
        parent.subnet(new_prefix, i).size() == parent.stride(new_prefix),
        parent.covers(parent.subnet(new_prefix, i)),
{
    let s = parent.stride(new_prefix) as int;
    let c = subnet_count(parent.prefix(), new_prefix) as int;
    let f = parent.first() as int;
    let n = i as int;
    lemma_size_is_count_times_stride(parent, new_prefix);
    parent.lemma_last_in_family();
    assert(n * s + s <= c * s) by (nonlinear_arith)
        requires
            0 <= n < c,
            s >= 1,
    ;
    assert(0 <= n * s) by (nonlinear_arith)
        requires
            0 <= n,
            s >= 1,
    ;
    Cidr::lemma_block(parent.is_v4(), (f + n * s) as nat, new_prefix);
    // the parent's first address is a whole number of strides
    lemma_fundamental_div_mod(f, c * s);
    let k = f / (c * s);
    assert(f == (c * s) * k);
    assert(f + n * s == (c * k + n) * s) by (nonlinear_arith)
        requires
            f == (c * s) * k,
    ;
    lemma_mod_multiples_basic(c * k + n, s);
}

/// Two different subnets of the same split share no address.
pub proof fn lemma_subnets_disjoint(parent: Cidr, new_prefix: nat, i: nat, j: nat, a: IpAddress)
    requires
        parent.wf(),
        parent.splits_at(new_prefix),
        i < subnet_count(parent.prefix(), new_prefix),
        j < subnet_count(parent.prefix(), new_prefix),
        i != j,
    ensures
        !(parent.subnet(new_prefix, i).holds(a) && parent.subnet(new_prefix, j).holds(a)),
{
    let s = parent.stride(new_prefix) as int;
    lemma_size_is_count_times_stride(parent, new_prefix);
    lemma_subnet_geometry(parent, new_prefix, i);
    lemma_subnet_geometry(parent, new_prefix, j);
    if i < j {
        assert(i * s + s <= j * s) by (nonlinear_arith)
            requires
                i < j,
                s >= 1,
        ;
    } else {
        assert(j * s + s <= i * s) by (nonlinear_arith)
            requires
                j < i,
                s >= 1,
        ;
    }
}

/// The subnet that holds an address of the parent: the address's distance
/// from the parent's first address, in whole strides.
pub open spec fn subnet_index(parent: Cidr, new_prefix: nat, a: IpAddress) -> nat {
    ((a.number() - parent.first()) / (parent.stride(new_prefix) as int)) as nat
}

/// Every address of the parent lies in the subnet that [`subnet_index`]
/// names, and that is one of the subnets of the split.
pub proof fn lemma_subnets_cover(parent: Cidr, new_prefix: nat, a: IpAddress)
    requires
        parent.wf(),
        parent.splits_at(new_prefix),
        parent.holds(a),
    ensures
        subnet_index(parent, new_prefix, a) < subnet_count(parent.prefix(), new_prefix),
        parent.subnet(new_prefix, subnet_index(parent, new_prefix, a)).holds(a),
{
    let s = parent.stride(new_prefix) as int;
    let c = subnet_count(parent.prefix(), new_prefix) as int;
    let off = a.number() - parent.first();
    lemma_size_is_count_times_stride(parent, new_prefix);
    assert(parent.size() as int == c * s);
    lemma_pow2_pos(parent.host_bits());
    lemma_fundamental_div_mod(off, s);
    let q = off / s;
    let r = off % s;
    assert(0 <= r < s);
    assert(off == s * q + r);
    assert(0 <= q) by {
        if off >= s {
            lemma_div_pos_is_pos(off, s);
        } else {
            lemma_fundamental_div_mod_converse(off, s, 0, off);
        }
    }
    assert(q < c) by (nonlinear_arith)
        requires
            off == s * q + r,
            0 <= r,
            off < c * s,
            s >= 1,
    ;
    lemma_subnet_geometry(parent, new_prefix, q as nat);
    assert(q * s == s * q) by (nonlinear_arith);
}

/// Why a block was not split.
#[derive(Clone, Copy, Debug, PartialEq, Eq, Structural)]
pub enum SubnetError {
    /// The new prefix is not longer than the block's own, or longer than
    /// an address of the family.
    InvalidPrefix,
    /// The new prefix is more than [`MAX_SPLIT_BITS`] bits longer than the
    /// block's own: the subnets are too many to list.
    TooManySubnets,
}

/// The most bits by which one split may lengthen a prefix.
pub const MAX_SPLIT_BITS: u8 = 32;

/// All subnets of prefix `new_prefix` of a block, in the order of their
/// addresses.
pub open spec fn subnets_of(parent: Cidr, new_prefix: nat) -> Seq<Cidr> {
    Seq::new(subnet_count(parent.prefix(), new_prefix), |i: int| parent.subnet(new_prefix, i as nat))
}

/// Splits `network` into all its subnets of prefix `prefix`, in the order
/// of their addresses.
pub fn subnetting(network: &Cidr, prefix: u8) -> (r: Result<Vec<Cidr>, SubnetError>)
    ensures
        !network.splits_at(prefix as nat) ==> r == Err::<Vec<Cidr>, SubnetError>(
            SubnetError::InvalidPrefix,
        ),
        network.splits_at(prefix as nat) && prefix - network.prefix() > MAX_SPLIT_BITS ==> r
            == Err::<Vec<Cidr>, SubnetError>(SubnetError::TooManySubnets),
        network.splits_at(prefix as nat) && prefix - network.prefix() <= MAX_SPLIT_BITS ==> r is Ok
            && r->Ok_0@ == subnets_of(*network, prefix as nat),
{
    proof {
        use_type_invariant(network);
    }
    let own: u8 = network.prefix_len();
    if prefix <= own || prefix > network.max_prefix_len() {
        return Err(SubnetError::InvalidPrefix);
    }
    if prefix - own > MAX_SPLIT_BITS {
        return Err(SubnetError::TooManySubnets);
    }
    let count: u64 = pow2_u64(prefix - own);
    let mut out: Vec<Cidr> = Vec::new();
    let mut i: u64 = 0;
    while i < count
        invariant
            network.wf(),
            network.splits_at(prefix as nat),
            count == subnet_count(network.prefix(), prefix as nat),
            i <= count,
            out@.len() == i,
            forall|k: int| 0 <= k < i ==> #[trigger] out@[k] == network.subnet(prefix as nat, k as nat),
        decreases count - i,
    {
        let child = network.nth_subnet(prefix, i as u128);
        out.push(child.unwrap());
        i = i + 1;
    }
    assert(out@ =~= subnets_of(*network, prefix as nat));
    Ok(out)
}

/// Splitting partitions the block. The subnets of a block at a longer
/// prefix are two to the number of added prefix bits; no address lies in two
/// of them; and an address lies in one of them exactly when it lies in the
/// block.
pub proof fn law_subnets_partition(parent: Cidr, new_prefix: nat)
    requires
        parent.wf(),
        parent.splits_at(new_prefix),
    ensures
        subnets_of(parent, new_prefix).len() == pow2((new_prefix - parent.prefix()) as nat),
        forall|i: int, j: int, a: IpAddress|
            0 <= i < j < subnets_of(parent, new_prefix).len() ==> !(#[trigger] subnets_of(
                parent,
                new_prefix,
            )[i].holds(a) && #[trigger] subnets_of(parent, new_prefix)[j].holds(a)),
        forall|a: IpAddress|
            parent.holds(a) <==> exists|i: int|
                0 <= i < subnets_of(parent, new_prefix).len() && #[trigger] subnets_of(
                    parent,
                    new_prefix,
                )[i].holds(a),
{
    let subs = subnets_of(parent, new_prefix);
    assert forall|i: int, j: int, a: IpAddress| 0 <= i < j < subs.len() implies !(
    #[trigger] subs[i].holds(a) && #[trigger] subs[j].holds(a)) by {
        lemma_subnets_disjoint(parent, new_prefix, i as nat, j as nat, a);
    }
    assert forall|a: IpAddress| parent.holds(a) implies exists|i: int|
        0 <= i < subs.len() && #[trigger] subs[i].holds(a) by {
        lemma_subnets_cover(parent, new_prefix, a);
        let q = subnet_index(parent, new_prefix, a) as int;
        assert(subs[q].holds(a));
    }
    assert forall|a: IpAddress|
        (exists|i: int| 0 <= i < subs.len() && #[trigger] subs[i].holds(a)) implies parent.holds(
        a,
    ) by {
        let i = choose|i: int| 0 <= i < subs.len() && #[trigger] subs[i].holds(a);
        lemma_subnet_geometry(parent, new_prefix, i as nat);
    }
}

/// The blocks that a split of `parent` at `new_prefix` makes into subnets,
/// or why there are none.
///
/// The new prefix has to be longer than the parent's and within the family.
/// An IPv4 parent is split into all its subnets of that prefix. An IPv6
/// parent has too many to list: the caller names the one subnet to make,
/// which has to lie in the parent and carry the new prefix.
pub open spec fn planned_children(parent: Cidr, new_prefix: u8, explicit: Option<Cidr>) -> Result<
    Seq<Cidr>,
    Error,
> {
    if !parent.splits_at(new_prefix as nat) {
        Err(Error::InvalidPrefix)
    } else if parent.is_v4() {
        Ok(subnets_of(parent, new_prefix as nat))
    } else {
        match explicit {
            Some(block) => if parent.covers(block) && block.prefix() == new_prefix {
                Ok(seq![block])
            } else {
                Err(Error::ContainmentViolation)
            },
            None => Err(Error::ContainmentViolation),
        }
    }
}

/// Decides which blocks a split makes into subnets.
pub fn plan_children(parent: &Cidr, new_prefix: u8, explicit: Option<Cidr>) -> (r: Result<
    Vec<Cidr>,
    Error,
>)
    ensures
        match planned_children(*parent, new_prefix, explicit) {
            Ok(blocks) => r is Ok && r->Ok_0@ == blocks,
            Err(e) => r == Err::<Vec<Cidr>, Error>(e),
        },
{
    if new_prefix <= parent.prefix_len() || new_prefix > parent.max_prefix_len() {
        return Err(Error::InvalidPrefix);
    }
    if parent.is_ipv4() {
        match subnetting(parent, new_prefix) {
            Ok(blocks) => Ok(blocks),
            Err(_) => Err(Error::InvalidPrefix),
        }
    } else {
        match explicit {
            Some(block) => {
                if parent.contains(&block) && block.prefix_len() == new_prefix {
                    let mut blocks: Vec<Cidr> = Vec::new();
                    blocks.push(block);
                    assert(blocks@ =~= seq![block]);
                    Ok(blocks)
                } else {
                    Err(Error::ContainmentViolation)
                }
            },
            None => Err(Error::ContainmentViolation),
        }
    }
}

/// Every planned child is a block inside the parent, with a longer prefix.
pub proof fn lemma_planned_children(parent: Cidr, new_prefix: u8, explicit: Option<Cidr>, k: int)
    requires
        parent.wf(),
        planned_children(parent, new_prefix, explicit) is Ok,
        0 <= k < planned_children(parent, new_prefix, explicit)->Ok_0.len(),
    ensures
        parent.covers(planned_children(parent, new_prefix, explicit)->Ok_0[k]),
        planned_children(parent, new_prefix, explicit)->Ok_0[k].prefix() == new_prefix,
        parent.prefix() < new_prefix,
{
    if parent.is_v4() {
        lemma_subnet_geometry(parent, new_prefix as nat, k as nat);
    }
}

} // verus!
