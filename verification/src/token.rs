//! Tokens: the occupant markers that are stacked on tiles.

use vstd::prelude::*;

verus! {

/// What a token marks. `Empty` is the kind of an empty slot; it is never an
/// occupant of a tile.
#[derive(Clone, Copy, Debug, PartialEq, Eq, Structural)]
pub enum TokenType {
    Player,
    Monster,
    Item,
    Empty,
}

/// A movable occupant marker. Tokens are plain values.
#[derive(Clone, Copy, Debug, PartialEq, Eq, Structural)]
pub struct Token {
    pub token_type: TokenType,
}

impl Token {
    /// Whether this token marks the player.
    pub open spec fn is_player(self) -> bool {
        self.token_type == TokenType::Player
    }

    /// Whether this token marks an occupant at all, and not an empty slot.
    pub open spec fn is_occupant(self) -> bool {
        self.token_type != TokenType::Empty
    }

    /// A token of the given kind.
    pub fn new(token_type: TokenType) -> (token: Token)
        ensures
            token.token_type == token_type,
    {
        Token { token_type }
    }

    /// Whether this token marks the player.
    pub fn marks_player(&self) -> (b: bool)
        ensures
            b == self.is_player(),
    {
        self.token_type == TokenType::Player
    }

    /// Whether this token marks an occupant, and not an empty slot.
    pub fn marks_occupant(&self) -> (b: bool)
        ensures
            b == self.is_occupant(),
    {
        self.token_type != TokenType::Empty
    }
}

} // verus!
