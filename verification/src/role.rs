//! Ordered privilege levels and the comparison the authorization gate
//! is built on.

use vstd::prelude::*;

verus! {

/// A privilege level attached to a user: `User < Admin < Superadmin`.
#[derive(Clone, Copy, Debug, PartialEq, Eq, Structural)]
pub enum Role {
    User,
    Admin,
    Superadmin,
}

impl Role {
    /// Position in the privilege order.
    pub open spec fn rank(self) -> int {
        match self {
            Role::User => 0,
            Role::Admin => 1,
            Role::Superadmin => 2,
        }
    }

    /// Whether this role grants what `required` demands.
    pub open spec fn spec_allows(self, required: Role) -> bool {
        self.rank() >= required.rank()
    }

    /// Whether this role grants what `required` demands.
    pub fn allows(self, required: Role) -> (r: bool)
        ensures
            r == self.spec_allows(required),
    {
        self.rank_exec() >= required.rank_exec()
    }

    fn rank_exec(self) -> (r: u8)
        ensures
            r as int == self.rank(),
    {
        match self {
            Role::User => 0,
            Role::Admin => 1,
            Role::Superadmin => 2,
        }
    }

    /// Canonical wire name of the role.
    pub open spec fn spec_name(self) -> Seq<char> {
        match self {
            Role::User => "user"@,
            Role::Admin => "admin"@,
            Role::Superadmin => "superadmin"@,
        }
    }

    /// Canonical wire name of the role.
    pub fn as_str(self) -> (r: &'static str)
        ensures
            r@ == self.spec_name(),
    {
        match self {
            Role::User => "user",
            Role::Admin => "admin",
            Role::Superadmin => "superadmin",
        }
    }

    /// The effective role of a stored user: a record without a role is
    /// an ordinary user.
    pub open spec fn spec_of_opt(r: Option<Role>) -> Role {
        match r {
            Some(x) => x,
            None => Role::User,
        }
    }

    /// The effective role of a stored user: a record without a role is
    /// an ordinary user.
    pub fn of_opt(r: &Option<Role>) -> (out: Role)
        ensures
            out == Role::spec_of_opt(*r),
    {
        match r {
            Some(x) => *x,
            None => Role::User,
        }
    }
}

} // verus!
