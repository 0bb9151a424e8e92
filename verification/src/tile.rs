//! Tiles: the terrain of one cell, and the tokens that stand on it.

use vstd::prelude::*;
use crate::stack::{player_token, pushed, stack_inv, TileStack, STACK_CAPACITY};
use crate::token::Token;

verus! {

/// The state of a door. A closed door blocks the way, locked or not; an open
/// or a broken one does not.
#[derive(Clone, Copy, Debug, PartialEq, Eq, Structural)]
pub enum DoorState {
    Open,
    ClosedLocked,
    Closed,
    Broken,
}

impl DoorState {
    /// Whether a door in this state can be walked through.
    pub open spec fn passable(self) -> bool {
        self == DoorState::Open || self == DoorState::Broken
    }

    /// Whether a door in this state can be walked through.
    pub fn is_passable(&self) -> (b: bool)
        ensures
            b == self.passable(),
    {
        match self {
            DoorState::Open => true,
            DoorState::Broken => true,
            DoorState::ClosedLocked => false,
            DoorState::Closed => false,
        }
    }
}

/// One cell of the board. `Void` is a cell outside the area that was built:
/// it is not an empty floor, and nothing can enter it.
#[derive(Debug, PartialEq, Eq)]
pub enum Tile {
    Wall,
    Floor(TileStack),
    Door(DoorState, TileStack),
    Void,
}

/// The mathematical view of a tile: its terrain, and its tokens from the
/// bottom of the stack to the top.
#[verifier::ext_equal]
pub enum TileView {
    Wall,
    Floor(Seq<Token>),
    Door(DoorState, Seq<Token>),
    Void,
}

impl TileView {
    /// Whether a moving actor may enter the tile: a floor, or a door that is
    /// open or broken.
    pub open spec fn passable(self) -> bool {
        match self {
            TileView::Floor(_) => true,
            TileView::Door(state, _) => state.passable(),
            TileView::Wall => false,
            TileView::Void => false,
        }
    }

    /// Whether the tile carries a stack of tokens: floors and doors do.
    pub open spec fn has_stack(self) -> bool {
        self is Floor || self is Door
    }

    /// The tokens on the tile; none where the tile carries no stack.
    pub open spec fn stack(self) -> Seq<Token> {
        match self {
            TileView::Floor(s) => s,
            TileView::Door(_, s) => s,
            TileView::Wall => Seq::empty(),
            TileView::Void => Seq::empty(),
        }
    }

    /// The same terrain with the tokens `s` on it; a tile that carries no
    /// stack stays as it is.
    pub open spec fn with_stack(self, s: Seq<Token>) -> TileView {
        match self {
            TileView::Floor(_) => TileView::Floor(s),
            TileView::Door(state, _) => TileView::Door(state, s),
            TileView::Wall => TileView::Wall,
            TileView::Void => TileView::Void,
        }
    }

    /// The tile after `token` was put on it. A tile without a stack takes
    /// no token.
    pub open spec fn with_token(self, token: Token) -> TileView {
        self.with_stack(pushed(self.stack(), token))
    }

    /// The tile with the player's token on top of its stack.
    pub open spec fn with_player(self) -> TileView {
        self.with_token(player_token())
    }

    /// The tile without its lowest player token, the other tokens in the
    /// order they had.
    pub open spec fn without_player(self) -> TileView {
        self.with_stack(self.stack().remove_value(player_token()))
    }

    /// Whether a player token stands on the tile.
    pub open spec fn holds_player(self) -> bool {
        self.stack().contains(player_token())
    }

    /// Whether the tile can be entered and its stack is full.
    pub open spec fn crowded(self) -> bool {
        self.passable() && self.stack().len() >= STACK_CAPACITY
    }

    /// The tokens on the tile are a valid stack.
    pub open spec fn inv(self) -> bool {
        stack_inv(self.stack())
    }
}

impl View for Tile {
    type V = TileView;

    open spec fn view(&self) -> TileView {
        match self {
            Tile::Wall => TileView::Wall,
            Tile::Floor(s) => TileView::Floor(s@),
            Tile::Door(state, s) => TileView::Door(*state, s@),
            Tile::Void => TileView::Void,
        }
    }
}

impl Clone for Tile {
    /// A tile of the same terrain with the same tokens.
    fn clone(&self) -> (copy: Tile)
        ensures
            copy@ == self@,
    {
        match self {
            Tile::Wall => Tile::Wall,
            Tile::Floor(s) => Tile::Floor(s.clone()),
            Tile::Door(state, s) => Tile::Door(*state, s.clone()),
            Tile::Void => Tile::Void,
        }
    }
}

impl Tile {
    /// The stack that the tile carries, if any, is valid.
    pub open spec fn wf(&self) -> bool {
        self@.inv()
    }

    /// Whether a moving actor may enter the tile.
    pub fn is_passable(&self) -> (b: bool)
        ensures
            b == self@.passable(),
    {
        match self {
            Tile::Floor(_) => true,
            Tile::Door(state, _) => state.is_passable(),
            Tile::Wall => false,
            Tile::Void => false,
        }
    }

    /// Puts `token` on top of the tile's stack and says whether the tile has
    /// a stack to take it. The stack must have room for an occupant.
    pub fn place(&mut self, token: Token) -> (placed: bool)
        requires
            old(self).wf(),
            token.is_occupant() ==> old(self)@.stack().len() < STACK_CAPACITY,
        ensures
            final(self).wf(),
            placed == old(self)@.has_stack(),
            final(self)@ == old(self)@.with_token(token),
    {
        match self {
            Tile::Floor(s) => {
                s.push(token);
                true
            },
            Tile::Door(_, s) => {
                s.push(token);
                true
            },
            Tile::Wall => false,
            Tile::Void => false,
        }
    }

    /// Takes the lowest player token off the tile and says whether there was
    /// one. The other tokens keep their order.
    pub fn remove_player(&mut self) -> (found: bool)
        requires
            old(self).wf(),
        ensures
            final(self).wf(),
            found == old(self)@.holds_player(),
            final(self)@ == old(self)@.without_player(),
    {
        match self {
            Tile::Floor(s) => s.remove_player(),
            Tile::Door(_, s) => s.remove_player(),
            Tile::Wall => {
                proof {
                    Seq::<Token>::empty().index_of_first_ensures(player_token());
                }
                false
            },
            Tile::Void => {
                proof {
                    Seq::<Token>::empty().index_of_first_ensures(player_token());
                }
                false
            },
        }
    }

    /// Whether a player token stands on the tile.
    pub fn holds_player(&self) -> (b: bool)
        ensures
            b == self@.holds_player(),
    {
        match self {
            Tile::Floor(s) => s.holds_player(),
            Tile::Door(_, s) => s.holds_player(),
            Tile::Wall => false,
            Tile::Void => false,
        }
    }

    /// Whether the tile can be entered and its stack is full, so that a
    /// token that moves there finds no room.
    pub fn is_crowded(&self) -> (b: bool)
        ensures
            b == self@.crowded(),
    {
        match self {
            Tile::Floor(s) => !s.has_room(),
            Tile::Door(state, s) => state.is_passable() && !s.has_room(),
            Tile::Wall => false,
            Tile::Void => false,
        }
    }

    /// The stack that the tile carries: floors and doors have one.
    pub fn stack(&self) -> (stack: Option<&TileStack>)
        ensures
            stack is Some == self@.has_stack(),
            stack matches Some(s) ==> s@ == self@.stack(),
    {
        match self {
            Tile::Floor(s) => Some(s),
            Tile::Door(_, s) => Some(s),
            Tile::Wall => None,
            Tile::Void => None,
        }
    }
}

} // verus!
