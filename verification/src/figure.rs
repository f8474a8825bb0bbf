//! The two sides, the kinds of figure, and a figure standing on a square.

use vstd::prelude::*;
use crate::board::Position;

verus! {

/// One of the two players.
#[derive(Debug, Copy, Clone, PartialEq, Eq, Hash, Structural)]
pub enum Side {
    Attacker,
    Defender,
}

impl Side {
    /// The other player.
    pub open spec fn spec_opponent(self) -> Side {
        match self {
            Side::Attacker => Side::Defender,
            Side::Defender => Side::Attacker,
        }
    }

    /// The other player.
    #[verifier::when_used_as_spec(spec_opponent)]
    pub fn opponent(self) -> (other: Side)
        ensures
            other == self.spec_opponent(),
            other != self,
    {
        match self {
            Side::Attacker => Side::Defender,
            Side::Defender => Side::Attacker,
        }
    }

    /// The side's name, as shown to the players.
    pub fn name(self) -> (text: &'static str)
        ensures
            text@ == (match self {
                Side::Attacker => "Attacker"@,
                Side::Defender => "Defender"@,
            }),
    {
        match self {
            Side::Attacker => "Attacker",
            Side::Defender => "Defender",
        }
    }
}

/// What a figure is: the one King, or a Soldier.
#[derive(Debug, Copy, Clone, PartialEq, Eq, Hash, Structural)]
pub enum FigureKind {
    King,
    Soldier,
}

impl FigureKind {
    /// The kind's name, as shown to the players.
    pub fn name(self) -> (text: &'static str)
        ensures
            text@ == (match self {
                FigureKind::King => "King"@,
                FigureKind::Soldier => "Soldier"@,
            }),
    {
        match self {
            FigureKind::King => "King",
            FigureKind::Soldier => "Soldier",
        }
    }
}

/// Side and kind together: what the board stores for an occupied square.
#[derive(Debug, Copy, Clone, PartialEq, Eq, Hash, Structural)]
pub struct FigureType {
    pub side: Side,
    pub kind: FigureKind,
}

/// A figure together with the square it stands on.
#[derive(Debug, Copy, Clone, PartialEq, Eq, Hash, Structural)]
pub struct Figure {
    pub side: Side,
    pub kind: FigureKind,
    pub position: Position,
}

impl Figure {
    /// Side and kind of the figure, without its square.
    pub open spec fn spec_figure_type(self) -> FigureType {
        FigureType { side: self.side, kind: self.kind }
    }

    /// Side and kind of the figure, without its square.
    #[verifier::when_used_as_spec(spec_figure_type)]
    pub fn figure_type(self) -> (t: FigureType)
        ensures
            t == self.spec_figure_type(),
    {
        FigureType { side: self.side, kind: self.kind }
    }
}

} // verus!
