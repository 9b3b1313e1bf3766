//! The two sides of a match: Alpha (the room owner) and Bravo (the
//! opponent).

use vstd::prelude::*;

verus! {

#[derive(Debug, Clone, Copy, Eq, Hash, PartialEq, Structural)]
pub enum PlayerTeam {
    Alpha,
    Bravo,
}

impl PlayerTeam {
    /// The side the given team plays against.
    pub fn other(&self) -> (r: PlayerTeam)
        ensures
            self is Alpha ==> r is Bravo,
            self is Bravo ==> r is Alpha,
    {
        match self {
            PlayerTeam::Alpha => PlayerTeam::Bravo,
            PlayerTeam::Bravo => PlayerTeam::Alpha,
        }
    }
}

/// One value for each team. Stands in for a map keyed by team: a match has
/// exactly two sides.
#[derive(Debug, Clone, Copy, PartialEq, Eq)]
pub struct PerTeam<T> {
    pub alpha: T,
    pub bravo: T,
}

impl<T> PerTeam<T> {
    pub open spec fn spec_get(&self, team: PlayerTeam) -> T {
        match team {
            PlayerTeam::Alpha => self.alpha,
            PlayerTeam::Bravo => self.bravo,
        }
    }

    pub fn new(alpha: T, bravo: T) -> (r: Self)
        ensures
            r.alpha == alpha,
            r.bravo == bravo,
    {
        PerTeam { alpha, bravo }
    }

    pub fn get(&self, team: &PlayerTeam) -> (r: &T)
        ensures
            r == self.spec_get(*team),
    {
        match team {
            PlayerTeam::Alpha => &self.alpha,
            PlayerTeam::Bravo => &self.bravo,
        }
    }

    pub fn get_mut(&mut self, team: &PlayerTeam) -> (r: &mut T)
        ensures
            *r == old(self).spec_get(*team),
            team is Alpha ==> *final(self) == (PerTeam { alpha: *final(r), bravo: old(self).bravo }),
            team is Bravo ==> *final(self) == (PerTeam { alpha: old(self).alpha, bravo: *final(r) }),
    {
        match team {
            PlayerTeam::Alpha => &mut self.alpha,
            PlayerTeam::Bravo => &mut self.bravo,
        }
    }

    pub fn set(&mut self, team: &PlayerTeam, value: T)
        ensures
            final(self).spec_get(*team) == value,
            final(self).spec_get(team.other_spec()) == old(self).spec_get(team.other_spec()),
    {
        match team {
            PlayerTeam::Alpha => {
                self.alpha = value;
            }
            PlayerTeam::Bravo => {
                self.bravo = value;
            }
        }
    }
}

impl PlayerTeam {
    /// The opposing side, for use in contracts.
    pub open spec fn other_spec(self) -> PlayerTeam {
        match self {
            PlayerTeam::Alpha => PlayerTeam::Bravo,
            PlayerTeam::Bravo => PlayerTeam::Alpha,
        }
    }
}

} // verus!
