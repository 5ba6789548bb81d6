//! Bounded host counters.

use crate::power::{lemma_pow2_monotone, pow2_u64};
use vstd::arithmetic::power2::{lemma2_to64, lemma_pow2_unfold, pow2};
use vstd::prelude::*;

verus! {

/// The usable host addresses of a block that leaves `host_bits` bits to its
/// hosts: every address but the first (the network address) and the last
/// (the broadcast address). A block of one or two addresses has none.
pub open spec fn usable_hosts(host_bits: nat) -> nat {
    if host_bits < 2 {
        0
    } else {
        (pow2(host_bits) - 2) as nat
    }
}

/// `n`, or [`HostCount::MAX`] where `n` is beyond it.
pub open spec fn clamped(n: nat) -> nat {
    if n > HostCount::MAX {
        HostCount::MAX as nat
    } else {
        n
    }
}

/// The part of an address that a block's prefix leaves to its hosts.
#[derive(Clone, Copy, Debug, PartialEq, Eq, Structural)]
pub struct Prefix {
    host_bits: u8,
}

impl Prefix {
    /// The number of host bits.
    pub closed spec fn host_bits(self) -> nat {
        self.host_bits as nat
    }

    /// The host part of a block whose prefix takes `prefix_len` of the
    /// `max_prefix_len` bits of an address. A prefix longer than the address
    /// leaves no host bit.
    pub fn new(prefix_len: u8, max_prefix_len: u8) -> (p: Prefix)
        ensures
            prefix_len <= max_prefix_len ==> p.host_bits() == max_prefix_len - prefix_len,
            prefix_len > max_prefix_len ==> p.host_bits() == 0,
    {
        if prefix_len <= max_prefix_len {
            Prefix { host_bits: max_prefix_len - prefix_len }
        } else {
            Prefix { host_bits: 0 }
        }
    }
}

/// Why a counter operation was refused.
#[derive(Clone, Copy, Debug, PartialEq, Eq, Structural)]
pub enum CountError {
    /// The sum would pass [`HostCount::MAX`].
    Overflow,
    /// The difference would fall below zero.
    Underflow,
}

/// A number of hosts between zero and [`HostCount::MAX`].
#[derive(Clone, Copy, Debug, PartialEq, Eq, Structural)]
pub struct HostCount(pub u32);

impl View for HostCount {
    type V = nat;

    open spec fn view(&self) -> nat {
        self.0 as nat
    }
}

impl HostCount {
    /// The largest count a counter can hold.
    pub const MAX: u32 = 0xffff_ffff;

    /// The usable hosts of a block with the host part `prefix`, held at
    /// [`HostCount::MAX`] where the block has more.
    pub fn new(prefix: Prefix) -> (c: HostCount)
        ensures
            c@ == clamped(usable_hosts(prefix.host_bits())),
    {
        let h: u8 = prefix.host_bits;
        if h < 2 {
            HostCount(0)
        } else if h <= 32 {
            proof {
                lemma2_to64();
                lemma_pow2_monotone(2, h as nat);
                lemma_pow2_monotone(h as nat, 32);
            }
            let size: u64 = pow2_u64(h);
            HostCount((size - 2) as u32)
        } else {
            proof {
                lemma2_to64();
                lemma_pow2_unfold(33);
                lemma_pow2_monotone(33, h as nat);
            }
            HostCount(HostCount::MAX)
        }
    }

    /// The counter that holds `n`.
    pub fn from_u32(n: u32) -> (c: HostCount)
        ensures
            c@ == n,
    {
        HostCount(n)
    }

    /// The count as a machine integer.
    pub fn value(&self) -> (n: u32)
        ensures
            n == self@,
    {
        self.0
    }

    /// Every counter is within the bound.
    pub proof fn lemma_bounded(self)
        ensures
            self@ <= HostCount::MAX,
    {
    }

    /// Adds `n` hosts. The counter is left as it was when the sum would pass
    /// [`HostCount::MAX`].
    pub fn add(&mut self, n: u32) -> (r: Result<(), CountError>)
        ensures
            old(self)@ + n <= HostCount::MAX ==> r is Ok && final(self)@ == old(self)@ + n,
            old(self)@ + n > HostCount::MAX ==> r == Err::<(), CountError>(CountError::Overflow)
                && *final(self) == *old(self),
    {
        match self.0.checked_add(n) {
            Some(sum) => {
                self.0 = sum;
                Ok(())
            },
            None => Err(CountError::Overflow),
        }
    }

    /// Takes `n` hosts away. The counter is left as it was when it holds
    /// fewer than `n`.
    pub fn sub(&mut self, n: u32) -> (r: Result<(), CountError>)
        ensures
            old(self)@ >= n ==> r is Ok && final(self)@ == old(self)@ - n,
            old(self)@ < n ==> r == Err::<(), CountError>(CountError::Underflow)
                && *final(self) == *old(self),
    {
        match self.0.checked_sub(n) {
            Some(rest) => {
                self.0 = rest;
                Ok(())
            },
            None => Err(CountError::Underflow),
        }
    }
}

} // verus!
