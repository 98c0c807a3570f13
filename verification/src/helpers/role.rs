//! The three helpers and the ring they form.

use vstd::prelude::*;

verus! {

/// One of the three parties. They form a ring H1 -> H2 -> H3 -> H1, where the
/// arrow points at the right-hand neighbour.
#[derive(Debug, Clone, Copy, PartialEq, Eq, Structural)]
pub enum Role {
    H1,
    H2,
    H3,
}

/// A side of the ring, seen from one helper.
#[derive(Debug, Clone, Copy, PartialEq, Eq, Structural)]
pub enum Direction {
    Left,
    Right,
}

/// The position of a role in the ring, counted from zero.
pub open spec fn role_index(role: Role) -> int {
    match role {
        Role::H1 => 0,
        Role::H2 => 1,
        Role::H3 => 2,
    }
}

/// The role at a position of the ring; positions wrap around.
pub open spec fn role_at(index: int) -> Role {
    if index % 3 == 0 {
        Role::H1
    } else if index % 3 == 1 {
        Role::H2
    } else {
        Role::H3
    }
}

/// The neighbour of `role` on the given side.
pub open spec fn spec_peer(role: Role, direction: Direction) -> Role {
    match direction {
        Direction::Left => role_at(role_index(role) + 2),
        Direction::Right => role_at(role_index(role) + 1),
    }
}

impl Role {
    /// All roles, in ring order.
    pub fn all() -> (roles: [Role; 3])
        ensures
            roles@ == seq![Role::H1, Role::H2, Role::H3],
    {
        let roles: [Role; 3] = [Role::H1, Role::H2, Role::H3];
        assert(roles@ =~= seq![Role::H1, Role::H2, Role::H3]);
        roles
    }

    /// The position in the ring, counted from zero.
    pub fn index(self) -> (i: usize)
        ensures
            i as int == role_index(self),
    {
        match self {
            Role::H1 => 0,
            Role::H2 => 1,
            Role::H3 => 2,
        }
    }

    /// The neighbour on the given side.
    pub fn peer(self, direction: Direction) -> (r: Role)
        ensures
            r == spec_peer(self, direction),
            r != self,
    {
        match direction {
            Direction::Left => match self {
                Role::H1 => Role::H3,
                Role::H2 => Role::H1,
                Role::H3 => Role::H2,
            },
            Direction::Right => match self {
                Role::H1 => Role::H2,
                Role::H2 => Role::H3,
                Role::H3 => Role::H1,
            },
        }
    }

    /// The left-hand neighbour.
    pub fn left(self) -> (r: Role)
        ensures
            r == spec_peer(self, Direction::Left),
    {
        self.peer(Direction::Left)
    }

    /// The right-hand neighbour.
    pub fn right(self) -> (r: Role)
        ensures
            r == spec_peer(self, Direction::Right),
    {
        self.peer(Direction::Right)
    }

    /// Whether two roles are the same helper.
    pub fn is(self, other: Role) -> (same: bool)
        ensures
            same == (self == other),
    {
        self.index() == other.index()
    }
}

/// Going one way and then the other leads back, and three steps one way go
/// all the way round.
pub proof fn lemma_ring(role: Role)
    ensures
        spec_peer(spec_peer(role, Direction::Left), Direction::Right) == role,
        spec_peer(spec_peer(role, Direction::Right), Direction::Left) == role,
        spec_peer(spec_peer(role, Direction::Right), Direction::Right) == spec_peer(
            role,
            Direction::Left,
        ),
        spec_peer(role, Direction::Left) != role,
        spec_peer(role, Direction::Right) != role,
        spec_peer(role, Direction::Left) != spec_peer(role, Direction::Right),
{
}

/// The name under which a helper is known to the transport: 1, 2 or 3.
#[derive(Debug, Clone, Copy, PartialEq, Eq, Structural)]
pub struct HelperIdentity {
    id: u8,
}

impl HelperIdentity {
    /// The number of this helper: 1, 2 or 3.
    pub closed spec fn number(self) -> int {
        self.id as int
    }

    /// Whether this is one of the three identities that exist.
    pub open spec fn valid(self) -> bool {
        1 <= self.number() <= 3
    }

    /// The identity with the given number, if there is one.
    pub fn try_from(id: usize) -> (r: Option<HelperIdentity>)
        ensures
            r is Some <==> 1 <= id <= 3,
            r matches Some(h) ==> h.number() == id && h.valid(),
    {
        if 1 <= id && id <= 3 {
            Some(HelperIdentity { id: id as u8 })
        } else {
            None
        }
    }

    /// The identity under which a role is known.
    pub fn from_role(role: Role) -> (h: HelperIdentity)
        ensures
            h.number() == role_index(role) + 1,
            h.valid(),
    {
        HelperIdentity { id: (role.index() + 1) as u8 }
    }

    /// The role that goes by this identity.
    pub fn role(self) -> (role: Role)
        requires
            self.valid(),
        ensures
            role_index(role) + 1 == self.number(),
    {
        if self.id == 1 {
            Role::H1
        } else if self.id == 2 {
            Role::H2
        } else {
            Role::H3
        }
    }

    /// The number of this helper.
    pub fn as_usize(self) -> (n: usize)
        ensures
            n as int == self.number(),
    {
        self.id as usize
    }

    /// Whether two identities name the same helper.
    pub fn is(self, other: HelperIdentity) -> (same: bool)
        ensures
            same == (self.number() == other.number()),
            same == (self == other),
    {
        self.id == other.id
    }
}

} // verus!
