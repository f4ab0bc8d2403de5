use vstd::prelude::*;

verus! {

/// One of the two players.
#[derive(Clone, Copy, PartialEq, Eq, Structural, Debug)]
pub enum Player {
    X,
    O,
}

impl Player {
    /// The other player.
    pub open spec fn other(self) -> Player {
        match self {
            Player::X => Player::O,
            Player::O => Player::X,
        }
    }

    /// The mark that stands for this player on the board.
    pub open spec fn mark(self) -> Seq<char> {
        match self {
            Player::X => seq!['X'],
            Player::O => seq!['O'],
        }
    }

    /// Hands the turn to the other player.
    pub fn toggle(self) -> (r: Player)
        ensures
            r == self.other(),
            r != self,
    {
        match self {
            Player::X => Player::O,
            Player::O => Player::X,
        }
    }

    /// The player's mark as text: `X` or `O`.
    pub fn symbol(&self) -> (r: String)
        ensures
            r@ == self.mark(),
    {
        proof {
            reveal_strlit("X");
            reveal_strlit("O");
        }
        match self {
            Player::X => String::from_str("X"),
            Player::O => String::from_str("O"),
        }
    }
}

} // verus!
