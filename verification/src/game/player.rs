use vstd::prelude::*;

verus! {

/// One of the two sides of a Connect Four match. Red always moves first.
#[derive(Debug, Clone, Copy, PartialEq, Eq, Hash, Structural)]
pub enum Player {
    Red,
    Yellow,
}

impl Player {
    /// The other side.
    pub open spec fn spec_opponent(self) -> Player {
        match self {
            Player::Red => Player::Yellow,
            Player::Yellow => Player::Red,
        }
    }

    /// The side that is not `self`.
    #[verifier::when_used_as_spec(spec_opponent)]
    pub fn opponent(self) -> (other: Player)
        ensures
            other == self.spec_opponent(),
            other != self,
    {
        match self {
            Player::Red => Player::Yellow,
            Player::Yellow => Player::Red,
        }
    }

    /// Index of the side in a pair of per-side values: Red is 0, Yellow is 1.
    pub open spec fn index(self) -> int {
        match self {
            Player::Red => 0,
            Player::Yellow => 1,
        }
    }
}

} // verus!
