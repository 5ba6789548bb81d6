//! Who may change the records.

use vstd::prelude::*;

verus! {

/// What a user of the service is.
#[derive(Clone, Copy, Debug, PartialEq, Eq, Structural)]
pub enum Role {
    Admin,
    Guest,
    Operator,
}

impl Role {
    /// Whether a user of this role may make, change and remove networks,
    /// devices and users: administrators only.
    pub fn may_administer(&self) -> (allowed: bool)
        ensures
            allowed == (*self == Role::Admin),
    {
        match self {
            Role::Admin => true,
            _ => false,
        }
    }
}

} // verus!
