//! Addresses and CIDR blocks as plain numbers.

use crate::host_count::{usable_hosts, Prefix};
use crate::power::{lemma_pow2_128, lemma_pow2_monotone, low_mask, pow2_u64};
use crate::subnet::lemma_subnet_geometry;
use vstd::arithmetic::div_mod::{
    lemma_fundamental_div_mod, lemma_mod_decreases, lemma_mod_multiples_basic,
};
use vstd::arithmetic::power2::{
    lemma2_to64, lemma_pow2_adds, lemma_pow2_pos, lemma_pow2_strictly_increases, pow2,
};
use vstd::prelude::*;

verus! {

/// An IPv4 or IPv6 address, held as the number its bits spell.
#[derive(Clone, Copy, Debug, PartialEq, Eq, Structural)]
pub enum IpAddress {
    V4(u32),
    V6(u128),
}

impl IpAddress {
    /// Whether this is an IPv4 address.
    pub open spec fn is_v4(self) -> bool {
        self is V4
    }

    /// The address as a number.
    pub open spec fn number(self) -> nat {
        match self {
            IpAddress::V4(a) => a as nat,
            IpAddress::V6(a) => a as nat,
        }
    }

    /// The number of bits in an address of this family: 32 or 128.
    pub open spec fn width(self) -> nat {
        family_width(self.is_v4())
    }

    pub fn is_ipv4(&self) -> (b: bool)
        ensures
            b == self.is_v4(),
    {
        match self {
            IpAddress::V4(_) => true,
            IpAddress::V6(_) => false,
        }
    }

    pub fn is_ipv6(&self) -> (b: bool)
        ensures
            b == !self.is_v4(),
    {
        !self.is_ipv4()
    }

    /// The address as a machine integer.
    pub fn bits(&self) -> (n: u128)
        ensures
            n == self.number(),
    {
        match self {
            IpAddress::V4(a) => *a as u128,
            IpAddress::V6(a) => *a,
        }
    }

    /// The longest prefix an address of this family can have.
    pub fn max_prefix_len(&self) -> (w: u8)
        ensures
            w == self.width(),
    {
        match self {
            IpAddress::V4(_) => 32,
            IpAddress::V6(_) => 128,
        }
    }
}

/// The number of bits in an address: 32 for IPv4, 128 for IPv6.
pub open spec fn family_width(v4: bool) -> nat {
    if v4 {
        32
    } else {
        128
    }
}

/// The address of the given family that spells `n`.
pub open spec fn address_of(v4: bool, n: nat) -> IpAddress {
    if v4 {
        IpAddress::V4(n as u32)
    } else {
        IpAddress::V6(n as u128)
    }
}

fn make_address(v4: bool, n: u128) -> (a: IpAddress)
    requires
        n < pow2(family_width(v4)),
    ensures
        a == address_of(v4, n as nat),
        a.is_v4() == v4,
        a.number() == n,
{
    proof {
        lemma2_to64();
    }
    if v4 {
        IpAddress::V4(n as u32)
    } else {
        IpAddress::V6(n)
    }
}

/// A block of addresses: a network address and the length of the prefix that
/// all addresses of the block share. The bits after the prefix are zero in
/// the network address.
#[derive(Clone, Copy, Debug, PartialEq, Eq, Structural)]
pub struct Cidr {
    addr: IpAddress,
    prefix_len: u8,
}

impl Cidr {
    /// The network address: the first address of the block.
    pub closed spec fn network(self) -> IpAddress {
        self.addr
    }

    /// The length of the prefix.
    pub closed spec fn prefix(self) -> nat {
        self.prefix_len as nat
    }

    pub open spec fn is_v4(self) -> bool {
        self.network().is_v4()
    }

    pub open spec fn width(self) -> nat {
        self.network().width()
    }

    /// The number of bits after the prefix.
    pub open spec fn host_bits(self) -> nat {
        (self.width() - self.prefix()) as nat
    }

    /// The number of addresses in the block.
    pub open spec fn size(self) -> nat {
        pow2(self.host_bits())
    }

    /// The number of the first address.
    pub open spec fn first(self) -> nat {
        self.network().number()
    }

    /// The number of the last address.
    pub open spec fn last(self) -> nat {
        (self.first() + self.size() - 1) as nat
    }

    /// The prefix fits the family and the network address has no bit set
    /// after it. Every block that a program holds is so.
    #[verifier::type_invariant]
    pub open spec fn wf(self) -> bool {
        &&& self.prefix() <= self.width()
        &&& self.first() % self.size() == 0
    }

    /// Whether the address lies in the block.
    pub open spec fn holds(self, a: IpAddress) -> bool {
        &&& a.is_v4() == self.is_v4()
        &&& self.first() <= a.number() <= self.last()
    }

    /// Whether every address of `other` lies in the block.
    pub open spec fn covers(self, other: Cidr) -> bool {
        &&& other.is_v4() == self.is_v4()
        &&& self.first() <= other.first()
        &&& other.last() <= self.last()
    }

    /// The last address of a well-formed block is an address of its family.
    pub proof fn lemma_last_in_family(self)
        requires
            self.wf(),
        ensures
            self.first() + self.size() <= pow2(self.width()),
            self.size() >= 1,
    {
        let w = self.width();
        let h = self.host_bits();
        let p = self.prefix();
        let s = self.size();
        let f = self.first();
        lemma_pow2_pos(h);
        lemma_pow2_pos(p);
        lemma_pow2_adds(h, p);
        assert(pow2(w) == s * pow2(p));
        lemma2_to64();
        lemma_pow2_128();
        assert(f < pow2(w));
        lemma_fundamental_div_mod(f as int, s as int);
        let q = f as int / s as int;
        assert(f == s * q);
        assert(q < pow2(p)) by (nonlinear_arith)
            requires
                f == s * q,
                f < s * pow2(p),
                s >= 1,
        ;
        assert(s * q + s <= s * pow2(p)) by (nonlinear_arith)
            requires
                q + 1 <= pow2(p),
                s >= 1,
        ;
    }
}

/// The number `n` with the bits after a prefix cleared, where the family
/// leaves `host_bits` bits after it.
pub open spec fn truncated(n: nat, host_bits: nat) -> nat {
    (n - n % pow2(host_bits)) as nat
}

impl Cidr {
    /// The block of `prefix_len` leading bits around `addr`. The bits of
    /// `addr` after the prefix are dropped. `None` when the family has no
    /// prefix that long.
    pub fn new(addr: IpAddress, prefix_len: u8) -> (r: Option<Cidr>)
        ensures
            prefix_len > addr.width() ==> r is None,
            prefix_len <= addr.width() ==> r is Some && r->0.wf() && r->0 == Cidr::block(
                addr.is_v4(),
                truncated(addr.number(), (addr.width() - prefix_len) as nat),
                prefix_len as nat,
            ),
            r is Some ==> r->0.is_v4() == addr.is_v4() && r->0.prefix() == prefix_len
                && r->0.first() == truncated(addr.number(), (addr.width() - prefix_len) as nat),
    {
        let w: u8 = addr.max_prefix_len();
        if prefix_len > w {
            return None;
        }
        let h: u8 = w - prefix_len;
        let n: u128 = addr.bits();
        let mask: u128 = low_mask(h);
        proof {
            lemma_pow2_pos(h as nat);
            lemma_pow2_128();
            lemma2_to64();
            lemma_pow2_monotone(h as nat, 128);
        }
        let first: u128 = if h == 128 {
            0
        } else {
            proof {
                lemma_pow2_strictly_increases(h as nat, 128);
            }
            let rest: u128 = n % (mask + 1);
            proof {
                lemma_mod_decreases(n as nat, (mask + 1) as nat);
            }
            n - rest
        };
        proof {
            let s = pow2(h as nat) as int;
            if h == 128 {
                assert(n as int % s == n as int) by (nonlinear_arith)
                    requires
                        0 <= n < s,
                ;
            }
            assert(first == truncated(n as nat, h as nat));
            lemma_fundamental_div_mod(n as int, s);
            assert(first as int == s * (n as int / s));
            lemma_mod_multiples_basic(n as int / s, s);
            assert((n as int / s) * s == s * (n as int / s)) by (nonlinear_arith);
        }
        let network = make_address(addr.is_ipv4(), first);
        let made = Cidr { addr: network, prefix_len };
        proof {
            made.lemma_is_block();
        }
        Some(made)
    }

    /// The network address.
    pub fn addr(&self) -> (a: IpAddress)
        ensures
            a == self.network(),
    {
        self.addr
    }

    pub fn prefix_len(&self) -> (p: u8)
        ensures
            p == self.prefix(),
    {
        self.prefix_len
    }

    pub fn max_prefix_len(&self) -> (w: u8)
        ensures
            w == self.width(),
    {
        self.addr.max_prefix_len()
    }

    pub fn is_ipv4(&self) -> (b: bool)
        ensures
            b == self.is_v4(),
    {
        self.addr.is_ipv4()
    }

    /// The host part of the block.
    pub fn host_prefix(&self) -> (p: Prefix)
        ensures
            p.host_bits() == self.host_bits(),
    {
        proof {
            use_type_invariant(self);
        }
        Prefix::new(self.prefix_len, self.addr.max_prefix_len())
    }

    fn last_bits(&self) -> (n: u128)
        ensures
            n == self.last(),
    {
        proof {
            use_type_invariant(self);
        }
        let h: u8 = self.addr.max_prefix_len() - self.prefix_len;
        let mask: u128 = low_mask(h);
        proof {
            self.lemma_last_in_family();
            lemma_pow2_128();
            lemma2_to64();
        }
        self.addr.bits() + mask
    }

    /// The last address of the block.
    pub fn broadcast(&self) -> (a: IpAddress)
        ensures
            a.is_v4() == self.is_v4(),
            a.number() == self.last(),
    {
        let n: u128 = self.last_bits();
        proof {
            use_type_invariant(self);
            self.lemma_last_in_family();
        }
        make_address(self.addr.is_ipv4(), n)
    }

    /// Whether every address of `other` lies in this block.
    pub fn contains(&self, other: &Cidr) -> (b: bool)
        ensures
            b == self.covers(*other),
    {
        self.addr.is_ipv4() == other.addr.is_ipv4() && self.addr.bits() <= other.addr.bits()
            && other.last_bits() <= self.last_bits()
    }

    /// Whether the address lies in this block.
    pub fn contains_addr(&self, a: &IpAddress) -> (b: bool)
        ensures
            b == self.holds(*a),
    {
        self.addr.is_ipv4() == a.is_ipv4() && self.addr.bits() <= a.bits() && a.bits()
            <= self.last_bits()
    }
}

/// The number of blocks of prefix `new_prefix` that make up a block of
/// prefix `prefix`.
pub open spec fn subnet_count(prefix: nat, new_prefix: nat) -> nat {
    pow2((new_prefix - prefix) as nat)
}

impl Cidr {
    /// The block of the given family, first address and prefix.
    pub closed spec fn block(v4: bool, first: nat, prefix: nat) -> Cidr {
        Cidr { addr: address_of(v4, first), prefix_len: prefix as u8 }
    }

    /// What [`Cidr::block`] is made of, for a first address and a prefix
    /// that the family has.
    pub proof fn lemma_block(v4: bool, first: nat, prefix: nat)
        requires
            prefix <= family_width(v4),
            first < pow2(family_width(v4)),
        ensures
            Cidr::block(v4, first, prefix).is_v4() == v4,
            Cidr::block(v4, first, prefix).first() == first,
            Cidr::block(v4, first, prefix).prefix() == prefix,
    {
        lemma2_to64();
        lemma_pow2_128();
    }

    /// A well-formed block is the block of its family, first address and
    /// prefix.
    pub proof fn lemma_is_block(self)
        requires
            self.wf(),
        ensures
            self == Cidr::block(self.is_v4(), self.first(), self.prefix()),
    {
    }

    /// Whether the block can be split at `new_prefix`: the new prefix is
    /// longer than the block's own and the family has it.
    pub open spec fn splits_at(self, new_prefix: nat) -> bool {
        self.prefix() < new_prefix <= self.width()
    }

    /// The distance between the first addresses of two neighbouring
    /// subnets of prefix `new_prefix`.
    pub open spec fn stride(self, new_prefix: nat) -> nat {
        pow2((self.width() - new_prefix) as nat)
    }

    /// The subnet of prefix `new_prefix` that is number `i` in the block,
    /// counted from zero in the order of the addresses.
    pub open spec fn subnet(self, new_prefix: nat, i: nat) -> Cidr {
        Cidr::block(self.is_v4(), self.first() + i * self.stride(new_prefix), new_prefix)
    }
}

impl Cidr {
    /// The subnet of prefix `new_prefix` that is number `index` in the block,
    /// counted from zero. `None` when the block cannot be split at
    /// `new_prefix` or has no subnet of that number.
    pub fn nth_subnet(&self, new_prefix: u8, index: u128) -> (r: Option<Cidr>)
        ensures
            r is Some <==> self.splits_at(new_prefix as nat) && index < subnet_count(
                self.prefix(),
                new_prefix as nat,
            ),
            r is Some ==> r->0 == self.subnet(new_prefix as nat, index as nat),
    {
        proof {
            use_type_invariant(self);
        }
        let w: u8 = self.addr.max_prefix_len();
        if new_prefix <= self.prefix_len || new_prefix > w {
            return None;
        }
        let last_index: u128 = low_mask(new_prefix - self.prefix_len);
        if index > last_index {
            return None;
        }
        let below: u128 = low_mask(w - new_prefix);
        proof {
            lemma_pow2_strictly_increases((w - new_prefix) as nat, 128);
            lemma_pow2_128();
            lemma_subnet_geometry(*self, new_prefix as nat, index as nat);
            self.lemma_last_in_family();
            lemma_pow2_pos((w - new_prefix) as nat);
            assert(0 <= index * (below + 1)) by (nonlinear_arith)
                requires
                    0 <= index,
                    0 <= below,
            ;
        }
        let stride: u128 = below + 1;
        let first: u128 = self.addr.bits() + index * stride;
        Some(Cidr { addr: make_address(self.addr.is_ipv4(), first), prefix_len: new_prefix })
    }
}

impl Cidr {
    /// The usable host addresses of an IPv4 block, in rising order: every
    /// address but the network address and the broadcast address. An IPv6
    /// block is not listed: it has none here.
    pub open spec fn host_addresses(self) -> Seq<IpAddress> {
        if self.is_v4() {
            Seq::new(
                usable_hosts(self.host_bits()),
                |i: int| address_of(true, (self.first() + 1 + i) as nat),
            )
        } else {
            Seq::empty()
        }
    }

    /// Lists the usable host addresses of the block.
    pub fn hosts(&self) -> (out: Vec<IpAddress>)
        ensures
            out@ == self.host_addresses(),
    {
        proof {
            use_type_invariant(self);
        }
        let mut out: Vec<IpAddress> = Vec::new();
        if !self.addr.is_ipv4() {
            assert(out@ =~= self.host_addresses());
            return out;
        }
        let h: u8 = 32 - self.prefix_len;
        if h < 2 {
            assert(out@ =~= self.host_addresses());
            return out;
        }
        proof {
            lemma2_to64();
            lemma_pow2_monotone(h as nat, 32);
            lemma_pow2_monotone(2, h as nat);
            self.lemma_last_in_family();
        }
        let count: u64 = pow2_u64(h) - 2;
        let first: u64 = self.addr.bits() as u64;
        let mut i: u64 = 0;
        while i < count
            invariant
                self.wf(),
                self.is_v4(),
                first == self.first(),
                count == usable_hosts(self.host_bits()),
                first + count + 2 <= 0x1_0000_0000,
                i <= count,
                out@.len() == i,
                forall|k: int|
                    0 <= k < i ==> #[trigger] out@[k] == address_of(
                        true,
                        (self.first() + 1 + k) as nat,
                    ),
            decreases count - i,
        {
            out.push(IpAddress::V4((first + 1 + i) as u32));
            i = i + 1;
        }
        assert(out@ =~= self.host_addresses());
        out
    }
}

impl Cidr {
    /// The usable host addresses are different from each other, of the
    /// block's family, and inside the block.
    pub proof fn lemma_host_addresses(self, i: int, j: int)
        requires
            self.wf(),
            0 <= i < self.host_addresses().len(),
            0 <= j < self.host_addresses().len(),
        ensures
            self.holds(self.host_addresses()[i]),
            self.host_addresses()[i].number() == self.first() + 1 + i,
            i != j ==> self.host_addresses()[i] != self.host_addresses()[j],
    {
        self.lemma_last_in_family();
        lemma2_to64();
    }
}

} // verus!
