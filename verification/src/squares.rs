//! The kinds of square a board cell can hold, and how a card square lands
//! on the board for a given team.

use vstd::prelude::*;
use crate::card::CardSquareType;
use crate::team::PlayerTeam;

verus! {

#[derive(Clone, Copy, Debug, Eq, PartialEq, Structural)]
pub enum MapSquareType {
    Disabled,
    Empty,
    SpecialAlpha,
    SpecialBravo,
    FillAlpha,
    FillBravo,
    Neutral,
}

pub type MST = MapSquareType;

impl MapSquareType {
    /// The board square a non-empty card square turns into when the given
    /// team plays it.
    pub open spec fn spec_from_card_square(square: CardSquareType, team: PlayerTeam) -> MST {
        match square {
            CardSquareType::Empty => MST::Empty,
            CardSquareType::Fill => match team {
                PlayerTeam::Alpha => MST::FillAlpha,
                PlayerTeam::Bravo => MST::FillBravo,
            },
            CardSquareType::Special => match team {
                PlayerTeam::Alpha => MST::SpecialAlpha,
                PlayerTeam::Bravo => MST::SpecialBravo,
            },
        }
    }

    pub fn from_card_square(square: CardSquareType, team: &PlayerTeam) -> (r: Self)
        ensures
            r == Self::spec_from_card_square(square, *team),
    {
        match square {
            CardSquareType::Empty => Self::Empty,
            CardSquareType::Fill => match team {
                PlayerTeam::Alpha => Self::FillAlpha,
                PlayerTeam::Bravo => Self::FillBravo,
            },
            CardSquareType::Special => match team {
                PlayerTeam::Alpha => Self::SpecialAlpha,
                PlayerTeam::Bravo => Self::SpecialBravo,
            },
        }
    }

    pub open spec fn spec_is_fill(self) -> bool {
        self == MST::FillAlpha || self == MST::FillBravo
    }

    pub fn is_fill(&self) -> (r: bool)
        ensures
            r == self.spec_is_fill(),
    {
        matches!(self, MST::FillAlpha | MST::FillBravo)
    }

    pub open spec fn spec_is_special(self) -> bool {
        self == MST::SpecialAlpha || self == MST::SpecialBravo
    }

    pub fn is_special(&self) -> (r: bool)
        ensures
            r == self.spec_is_special(),
    {
        matches!(self, MST::SpecialAlpha | MST::SpecialBravo)
    }

    /// The filled square of the given team.
    pub open spec fn fill_of(team: PlayerTeam) -> MST {
        match team {
            PlayerTeam::Alpha => MST::FillAlpha,
            PlayerTeam::Bravo => MST::FillBravo,
        }
    }

    /// The special square of the given team.
    pub open spec fn special_of(team: PlayerTeam) -> MST {
        match team {
            PlayerTeam::Alpha => MST::SpecialAlpha,
            PlayerTeam::Bravo => MST::SpecialBravo,
        }
    }
}

} // verus!
