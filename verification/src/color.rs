use vstd::prelude::*;

verus! {

/// The two players. The first player is always `Black`.
#[derive(Copy, Clone, Debug, PartialEq, Eq, Hash, Structural)]
pub enum Color {
    /// Needs to connect top to bottom. Always starts the game.
    Black,
    /// Needs to connect left to right.
    White,
}

impl Color {
    /// The color of the other player.
    pub open spec fn opponent(self) -> Color {
        match self {
            Color::Black => Color::White,
            Color::White => Color::Black,
        }
    }

    /// Return the color of the other player.
    pub fn opponent_color(&self) -> (other: Self)
        ensures
            other == self.opponent(),
            other != *self,
    {
        match self {
            Color::Black => Color::White,
            Color::White => Color::Black,
        }
    }

    /// Taking the opponent twice gives the color back, and the opponent is
    /// never the color itself.
    pub proof fn lemma_opponent_involutive(self)
        ensures
            self.opponent().opponent() == self,
            self.opponent() != self,
    {
    }
}

} // verus!
