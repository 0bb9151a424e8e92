//! What holds of every move and of the default layout, stated over the
//! views of worlds and boards.

use vstd::prelude::*;
use crate::board::{default_layout, default_tile, empty_board, BoardView};
use crate::coordinate::{BlockReason, Coordinate, InputDirection, MoveOutcome};
use crate::stack::{lemma_player_count_contains, lemma_push_player, lemma_remove_player, player_token};
use crate::tile::{DoorState, TileView};
use crate::world::{lemma_step_keeps_inv, WorldView};

verus! {

/// A step onto a tile that can be entered takes the player there, whatever
/// the direction. The move is reported with the cell that the player left
/// and the cell that it reached, and the player's cell is the one reached.
/// The stack that the player left holds no player token any more and is
/// otherwise as it was; the stack that it reached is as it was with the
/// player's token on top; and no other tile has changed.
pub proof fn move_reaches_passable_neighbor(w: WorldView, d: InputDirection, to: Coordinate)
    requires
        w.inv(),
        w.player.neighbor(d, w.board.size) == Some(to),
        w.board.tiles[to].passable(),
    ensures
        w.step(d).1 == (MoveOutcome::Moved { from: w.player, to }),
        w.step(d).0.player == to,
        !w.step(d).0.board.tiles[w.player].holds_player(),
        w.step(d).0.board.tiles[to].holds_player(),
        w.step(d).0.board.tiles[w.player] == w.board.tiles[w.player].without_player(),
        w.step(d).0.board.tiles[to].stack() == w.board.tiles[to].stack().push(player_token()),
        forall|c: Coordinate|
            c.within(w.board.size) && c != w.player && c != to ==> w.step(d).0.board.tiles[c]
                == w.board.tiles[c],
{
    lemma_step_keeps_inv(w, d);
    let after = w.step(d).0;
    assert(to != w.player);
    lemma_player_count_contains(after.board.tiles[w.player].stack());
    lemma_player_count_contains(after.board.tiles[to].stack());
}

/// A step that leaves the board is blocked by the edge of the world, and a
/// step onto a tile that cannot be entered (a wall, a closed door, a cell on
/// which nothing is built) is blocked by an obstacle. Either way the world
/// stays as it was: the player's cell and every stack. To try again comes to
/// the same.
pub proof fn blocked_move_changes_nothing(w: WorldView, d: InputDirection)
    requires
        match w.player.neighbor(d, w.board.size) {
            None => true,
            Some(to) => !w.board.tiles[to].passable(),
        },
    ensures
        w.step(d).1 == MoveOutcome::Blocked(
            if w.player.neighbor(d, w.board.size) is None {
                BlockReason::EdgeOfWorld
            } else {
                BlockReason::Obstacle
            },
        ),
        w.step(d).0 == w,
        w.step(d).0.step(d) == w.step(d),
{
}

/// A move takes place exactly if the step stays on the board and leads onto
/// a tile that can be entered; every attempt comes to one of the two.
pub proof fn move_takes_place_iff_passable(w: WorldView, d: InputDirection)
    ensures
        w.step(d).1 is Moved <==> (w.player.neighbor(d, w.board.size) matches Some(to)
            && w.board.tiles[to].passable()),
        w.step(d).1 is Blocked <==> !(w.step(d).1 is Moved),
{
}

/// A door that is closed, locked or not, blocks the player from whichever
/// side it comes: the move is blocked by an obstacle, and the world stays as
/// it was.
pub proof fn closed_door_blocks(w: WorldView, d: InputDirection, door: Coordinate)
    requires
        w.player.neighbor(d, w.board.size) == Some(door),
        w.board.tiles[door] matches TileView::Door(state, _) && (state == DoorState::ClosedLocked
            || state == DoorState::Closed),
    ensures
        w.step(d).1 == MoveOutcome::Blocked(BlockReason::Obstacle),
        w.step(d).0 == w,
{
}

/// A step and the step back bring the world back to what it was, where the
/// first step took place and the player's token was the top of its stack:
/// the player's cell and every stack are as before.
pub proof fn there_and_back_restores(w: WorldView, d: InputDirection)
    requires
        w.inv(),
        w.player_on_top(),
        w.step(d).1 is Moved,
    ensures
        w.step(d).0.step(d.reversed()).1 is Moved,
        w.step(d).0.step(d.reversed()).0 == w,
{
    let from = w.player;
    let to = w.player.neighbor(d, w.board.size).unwrap();
    let there = w.step(d).0;
    lemma_step_keeps_inv(w, d);
    assert(there.player.neighbor(d.reversed(), there.board.size) == Some(from));
    let origin = w.board.tiles[from].stack();
    let target = w.board.tiles[to].stack();
    lemma_player_count_contains(origin);
    lemma_player_count_contains(target);
    lemma_remove_player(origin);
    lemma_push_player(target);
    let back = there.step(d.reversed()).0;
    assert(back.board.tiles[from] == w.board.tiles[from]);
    assert(back.board.tiles[to] == w.board.tiles[to]);
    assert(back.board.tiles =~= w.board.tiles);
}

/// A step and the step back bring the player back to its cell and leave
/// every token on its tile, where the first step took place. Every tile but
/// the player's is as it was. The player's tile has the terrain and the
/// tokens that it had; the tokens other than the player's are in the order
/// that they had, and the player's token is now the top of the stack.
pub proof fn there_and_back_keeps_tokens(w: WorldView, d: InputDirection)
    requires
        w.inv(),
        w.step(d).1 is Moved,
    ensures
        w.step(d).0.step(d.reversed()).1 is Moved,
        w.step(d).0.step(d.reversed()).0.player == w.player,
        w.step(d).0.step(d.reversed()).0.board.size == w.board.size,
        forall|c: Coordinate|
            c.within(w.board.size) && c != w.player ==> w.step(d).0.step(
                d.reversed(),
            ).0.board.tiles[c] == w.board.tiles[c],
        w.step(d).0.step(d.reversed()).0.board.tiles[w.player] == w.board.tiles[w.player].with_stack(
            w.board.tiles[w.player].stack().remove_value(player_token()).push(player_token()),
        ),
        w.step(d).0.step(d.reversed()).0.board.tiles[w.player].stack().to_multiset()
            == w.board.tiles[w.player].stack().to_multiset(),
{
    let from = w.player;
    let to = w.player.neighbor(d, w.board.size).unwrap();
    let there = w.step(d).0;
    lemma_step_keeps_inv(w, d);
    assert(there.player.neighbor(d.reversed(), there.board.size) == Some(from));
    let origin = w.board.tiles[from].stack();
    let target = w.board.tiles[to].stack();
    lemma_player_count_contains(origin);
    lemma_player_count_contains(target);
    lemma_remove_player(origin);
    lemma_push_player(target);
    let back = there.step(d.reversed()).0;
    assert(back.board.tiles[to] == w.board.tiles[to]);
}

/// The default layout of a board of any size: every cell of the first and
/// of the last row is a wall; every cell off those rows and off the first
/// and the last column is a floor without tokens; every other cell is
/// `Void`. It is what the default room makes of a board on which nothing
/// was built.
pub proof fn default_layout_shape(size: nat)
    ensures
        default_layout(size).size == size,
        empty_board(size).with_default_room() == default_layout(size),
        forall|c: Coordinate|
            c.within(size) ==> #[trigger] default_layout(size).tiles[c] == if c.x == 0 || c.x + 1
                == size {
                TileView::Wall
            } else if 1 <= c.y && c.y + 1 < size {
                TileView::Floor(Seq::empty())
            } else {
                TileView::Void
            },
{
    assert(empty_board(size).with_default_room().tiles =~= default_layout(size).tiles);
}

/// To build the default room a second time changes nothing.
pub proof fn default_room_built_twice(b: BoardView)
    ensures
        b.with_default_room().with_default_room() == b.with_default_room(),
{
    assert(b.with_default_room().with_default_room().tiles =~= b.with_default_room().tiles);
}

/// The default room leaves a valid board valid.
pub proof fn default_room_keeps_board_valid(b: BoardView)
    requires
        b.inv(),
    ensures
        b.with_default_room().inv(),
{
    let room = b.with_default_room();
    assert forall|c: Coordinate| c.within(room.size) implies (#[trigger] room.tiles[c]).inv() by {
        match default_tile(b.size, c) {
            Some(tile) => {
                assert(tile.stack() =~= Seq::<crate::token::Token>::empty());
            },
            None => {
                assert(b.tiles[c].inv());
            },
        }
    }
}

} // verus!
