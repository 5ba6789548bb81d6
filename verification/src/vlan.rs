//! VLAN tags.

use vstd::prelude::*;

verus! {

/// Why a VLAN tag was refused.
#[derive(Clone, Copy, Debug, PartialEq, Eq, Structural)]
pub enum VlanError {
    /// The tag is above [`Vlan::MAX`].
    InvalidVlan,
}

/// A VLAN tag between zero and [`Vlan::MAX`].
#[derive(Clone, Copy, Debug, PartialEq, Eq, Structural)]
pub struct Vlan(u16);

impl View for Vlan {
    type V = nat;

    closed spec fn view(&self) -> nat {
        self.0 as nat
    }
}

impl Vlan {
    /// The largest tag.
    pub const MAX: u16 = 4095;

    /// No tag is above [`Vlan::MAX`]. Every tag that a program holds is
    /// so.
    #[verifier::type_invariant]
    pub closed spec fn wf(self) -> bool {
        self.0 <= Vlan::MAX
    }

    /// The tag that holds `num`.
    pub closed spec fn tag(num: u16) -> Vlan {
        Vlan(num)
    }

    /// What [`Vlan::tag`] holds, and when it is well-formed.
    pub proof fn lemma_tag(num: u16)
        ensures
            Vlan::tag(num)@ == num,
            Vlan::tag(num).wf() <==> num <= Vlan::MAX,
    {
    }

    /// The tag `num`, if it is in the range.
    pub fn new(num: u16) -> (r: Result<Vlan, VlanError>)
        ensures
            num <= Vlan::MAX ==> r is Ok && r->Ok_0 == Vlan::tag(num) && r->Ok_0.wf(),
            num > Vlan::MAX ==> r == Err::<Vlan, VlanError>(VlanError::InvalidVlan),
    {
        let mut tag = Vlan(0);
        match tag.set_vlan(num) {
            Ok(()) => Ok(tag),
            Err(e) => Err(e),
        }
    }

    /// Changes the tag to `num`, if that is in the range; else the tag
    /// stays as it was.
    pub fn set_vlan(&mut self, num: u16) -> (r: Result<(), VlanError>)
        ensures
            num <= Vlan::MAX ==> r is Ok && *final(self) == Vlan::tag(num) && final(self).wf(),
            num > Vlan::MAX ==> r == Err::<(), VlanError>(VlanError::InvalidVlan) && *final(self)
                == *old(self),
    {
        if num > Vlan::MAX {
            return Err(VlanError::InvalidVlan);
        }
        self.0 = num;
        Ok(())
    }

    /// The tag as a machine integer.
    pub fn value(&self) -> (n: u16)
        ensures
            n == self@,
            n <= Vlan::MAX,
    {
        proof {
            use_type_invariant(self);
        }
        self.0
    }
}

} // verus!
