//! The world: a board, and the player who moves on it.

use vstd::prelude::*;
use crate::board::{
    default_layout,
    lemma_default_room_on_empty_board,
    BoardView,
    GameBoard,
    DEFAULT_SIZE,
};
use crate::coordinate::{Coordinate, InputDirection, MoveOutcome};
use crate::stack::{
    lemma_player_count_contains,
    lemma_push_player,
    lemma_remove_player,
    player_count,
    player_token,
};
use crate::token::{Token, TokenType};

verus! {

/// Why a board and a start make no world.
#[derive(Clone, Copy, Debug, PartialEq, Eq, Structural)]
pub enum WorldError {
    /// The start is no cell of the board.
    StartOutOfBounds,
    /// The tile at the start cannot be entered.
    StartBlocked,
    /// A player token stands on the board already.
    PlayerOnBoard,
    /// A tile that can be entered has a full stack: the player would find no
    /// room on it.
    NoRoom,
}

/// The cell on which the player starts on a board with the default layout.
pub open spec fn start_cell() -> Coordinate {
    Coordinate { x: 1, y: 1 }
}

/// The mathematical view of a world: the board, and the cell of the player.
#[verifier::ext_equal]
pub struct WorldView {
    pub board: BoardView,
    pub player: Coordinate,
}

impl WorldView {
    /// What holds of every world. The player's cell is on the board and can
    /// be entered. The stack of that cell holds one player token and no
    /// other stack holds any: where the player is said to be and where its
    /// token lies agree. Every other tile that can be entered has room for
    /// the player's token.
    pub open spec fn inv(self) -> bool {
        &&& self.board.inv()
        &&& self.board.passable(self.player)
        &&& forall|c: Coordinate|
            c.within(self.board.size) ==> player_count((#[trigger] self.board.tiles[c]).stack())
                == if c == self.player {
                1nat
            } else {
                0nat
            }
        &&& forall|c: Coordinate|
            c.within(self.board.size) && c != self.player ==> !(#[trigger] self.board.tiles[c]).crowded()
    }

    /// One attempt of the player to move one step in direction `d`: the
    /// world after it, and what it came to. If the step stays on the board
    /// and leads onto a tile that can be entered, the player's token goes
    /// there and so does the player's cell. If not, the world stays as it
    /// was.
    pub open spec fn step(self, d: InputDirection) -> (WorldView, MoveOutcome) {
        let (board, outcome) = self.board.step(self.player, d);
        let player = match outcome {
            MoveOutcome::Moved { from, to } => to,
            MoveOutcome::Blocked(_) => self.player,
        };
        (WorldView { board, player }, outcome)
    }

    /// Whether the player's token is the top of the stack on which it lies.
    pub open spec fn player_on_top(self) -> bool {
        let stack = self.board.tiles[self.player].stack();
        stack.len() > 0 && stack.last() == player_token()
    }
}

/// Whether a player token stands somewhere on the board.
pub open spec fn board_holds_player(b: BoardView) -> bool {
    exists|c: Coordinate| c.within(b.size) && (#[trigger] b.tiles[c]).holds_player()
}

/// Whether some tile of the board can be entered and has a full stack.
pub open spec fn board_is_crowded(b: BoardView) -> bool {
    exists|c: Coordinate| c.within(b.size) && (#[trigger] b.tiles[c]).crowded()
}

/// Why the player cannot be placed at `start` on the board `b`, or `None`
/// if it can. The reasons are looked for in this order: the start is off
/// the board; its tile cannot be entered; a player token is on the board
/// already; a tile that can be entered is full.
pub open spec fn placement_error(b: BoardView, start: Coordinate) -> Option<WorldError> {
    if !start.within(b.size) {
        Some(WorldError::StartOutOfBounds)
    } else if !b.tiles[start].passable() {
        Some(WorldError::StartBlocked)
    } else if board_holds_player(b) {
        Some(WorldError::PlayerOnBoard)
    } else if board_is_crowded(b) {
        Some(WorldError::NoRoom)
    } else {
        None
    }
}

/// The world made of the board `b` and the player at `start`: the player's
/// token lies on top of the stack at `start`.
pub open spec fn place_player(b: BoardView, start: Coordinate) -> WorldView {
    WorldView { board: b.put(start, b.tiles[start].with_player()), player: start }
}

/// The world in which a game begins on a board of `size` rows and columns:
/// the default layout, and the player on its first floor cell.
pub open spec fn initial_world(size: nat) -> WorldView {
    place_player(default_layout(size), start_cell())
}

/// Where the player can be placed, to place it makes a valid world with the
/// player's token on top of its stack.
pub proof fn lemma_place_player(b: BoardView, start: Coordinate)
    requires
        b.inv(),
        placement_error(b, start) is None,
    ensures
        place_player(b, start).inv(),
        place_player(b, start).player_on_top(),
{
    let w = place_player(b, start);
    let stack = b.tiles[start].stack();
    assert(!b.tiles[start].crowded());
    assert(b.tiles[start].inv());
    lemma_push_player(stack);
    assert forall|c: Coordinate| c.within(b.size) implies player_count(
        (#[trigger] w.board.tiles[c]).stack(),
    ) == if c == start {
        1nat
    } else {
        0nat
    } by {
        assert(!b.tiles[c].holds_player());
        lemma_player_count_contains(b.tiles[c].stack());
    }
    assert forall|c: Coordinate| c.within(w.board.size) implies (#[trigger] w.board.tiles[c]).inv() by {
        assert(b.tiles[c].inv());
    }
    assert forall|c: Coordinate| c.within(b.size) && c != start implies !(
    #[trigger] w.board.tiles[c]).crowded() by {
        assert(!b.tiles[c].crowded());
    }
}

/// A game can begin on every board of three rows or more that has the
/// default layout: the layout is a valid board, the player can be placed on
/// its start cell, and the world that this makes is valid.
pub proof fn lemma_initial_world(size: nat)
    requires
        3 <= size <= usize::MAX,
    ensures
        default_layout(size).inv(),
        placement_error(default_layout(size), start_cell()) is None,
        initial_world(size).inv(),
        initial_world(size).player_on_top(),
{
    let layout = default_layout(size);
    assert forall|c: Coordinate| c.within(size) implies !(#[trigger] layout.tiles[c]).holds_player()
        && !layout.tiles[c].crowded() && layout.tiles[c].inv() by {
        assert(layout.tiles[c].stack() =~= Seq::empty());
    }
    lemma_place_player(layout, start_cell());
}

/// A move keeps a valid world valid. It finds the player's token where it
/// looks for it, and room where it puts it. After a move that took place the
/// player's token is the top of its stack, and a move that was blocked
/// leaves it there if it was.
pub proof fn lemma_step_keeps_inv(w: WorldView, d: InputDirection)
    requires
        w.inv(),
    ensures
        w.step(d).0.inv(),
        w.board.tiles[w.player].holds_player(),
        w.board.has_room_for_step(w.player, d),
        w.step(d).1 is Moved || w.player_on_top() ==> w.step(d).0.player_on_top(),
{
    let from = w.player;
    let origin = w.board.tiles[from].stack();
    lemma_player_count_contains(origin);
    match from.neighbor(d, w.board.size) {
        None => {},
        Some(to) => {
            assert(to != from);
            assert(!w.board.tiles[to].crowded());
            if w.board.tiles[to].passable() {
                let after = w.step(d).0;
                let target = w.board.tiles[to].stack();
                assert(w.board.tiles[from].inv());
                assert(w.board.tiles[to].inv());
                lemma_remove_player(origin);
                lemma_push_player(target);
                assert forall|c: Coordinate| c.within(w.board.size) implies player_count(
                    (#[trigger] after.board.tiles[c]).stack(),
                ) == if c == to {
                    1nat
                } else {
                    0nat
                } by {
                    if c != from && c != to {
                        assert(after.board.tiles[c] == w.board.tiles[c]);
                    }
                }
                assert forall|c: Coordinate| c.within(after.board.size) implies (
                #[trigger] after.board.tiles[c]).inv() by {
                    assert(w.board.tiles[c].inv());
                }
                assert forall|c: Coordinate| c.within(w.board.size) && c != to implies !(
                #[trigger] after.board.tiles[c]).crowded() by {
                    if c != from {
                        assert(!w.board.tiles[c].crowded());
                    }
                }
            }
        },
    }
}

/// The state of a game: the board, and the cell of the player, whose token
/// lies on the stack of that cell.
#[derive(Debug, PartialEq, Eq)]
pub struct AppState {
    game_board: GameBoard,
    player: Coordinate,
}

impl View for AppState {
    type V = WorldView;

    closed spec fn view(&self) -> WorldView {
        WorldView { board: self.game_board@, player: self.player }
    }
}

impl Clone for AppState {
    /// A world with the same board and the same player's cell.
    fn clone(&self) -> (copy: AppState)
        ensures
            self.wf() ==> copy.wf() && copy@ == self@,
    {
        AppState { game_board: self.game_board.clone(), player: self.player }
    }
}

impl AppState {
    /// The board is well-formed, and the world is valid.
    pub closed spec fn wf(&self) -> bool {
        &&& self.game_board.wf()
        &&& self@.inv()
    }

    /// A well-formed world has a valid view.
    pub proof fn lemma_wf_view(&self)
        requires
            self.wf(),
        ensures
            self@.inv(),
    {
    }

    /// The cell on which the player starts on a board with the default
    /// layout.
    pub fn start() -> (c: Coordinate)
        ensures
            c == start_cell(),
    {
        Coordinate { x: 1, y: 1 }
    }

    /// Puts the player's token at `start`, where that makes a world.
    fn place(board: GameBoard, start: Coordinate) -> (world: AppState)
        requires
            board.wf(),
            placement_error(board@, start) is None,
        ensures
            world.wf(),
            world@ == place_player(board@, start),
    {
        let mut game_board = board;
        proof {
            board.lemma_wf_view();
            lemma_place_player(board@, start);
        }
        match game_board.get_mut(start) {
            Ok(tile) => {
                tile.place(Token::new(TokenType::Player));
            },
            Err(_) => {},
        }
        AppState { game_board, player: start }
    }

    /// The world made of `board` with the player at `start`: the player's
    /// token is put on top of the stack at `start`. The board is refused,
    /// with the reason, where the start is no cell of it, where the tile at
    /// the start cannot be entered, where a player token stands on the board
    /// already, or where a tile that can be entered has a full stack; the
    /// reasons are looked for in this order.
    pub fn with_board(board: GameBoard, start: Coordinate) -> (world: Result<AppState, WorldError>)
        requires
            board.wf(),
        ensures
            match world {
                Ok(w) => {
                    &&& placement_error(board@, start) is None
                    &&& w.wf()
                    &&& w@ == place_player(board@, start)
                },
                Err(e) => placement_error(board@, start) == Some(e),
            },
    {
        if !start.is_within(board.size()) {
            return Err(WorldError::StartOutOfBounds);
        }
        if !board.is_passable(start) {
            return Err(WorldError::StartBlocked);
        }
        if board.find_player().is_some() {
            return Err(WorldError::PlayerOnBoard);
        }
        if board.find_crowded().is_some() {
            return Err(WorldError::NoRoom);
        }
        Ok(AppState::place(board, start))
    }

    /// A world of `size` rows and columns in which a game begins: the board
    /// has the default layout, and the player stands on its start cell. The
    /// board needs three rows to have a floor, and the number of its cells
    /// must fit the machine's word.
    pub fn new(size: usize) -> (world: AppState)
        requires
            3 <= size,
            size * size <= usize::MAX,
        ensures
            world.wf(),
            world@ == initial_world(size as nat),
    {
        let mut board = GameBoard::with_size(size);
        board.build_default_layout();
        proof {
            lemma_default_room_on_empty_board(size as nat);
            lemma_initial_world(size as nat);
        }
        AppState::place(board, AppState::start())
    }

    /// A world of the default size in which a game begins.
    pub fn new_server_state() -> (world: AppState)
        ensures
            world.wf(),
            world@ == initial_world(DEFAULT_SIZE as nat),
    {
        AppState::new(DEFAULT_SIZE)
    }

    /// Begins a new game on a board of the same size: the board is built
    /// anew with the default layout, and the player stands on its start
    /// cell. The board needs three rows to have a floor.
    pub fn new_game_board(self) -> (world: AppState)
        requires
            self.wf(),
            3 <= self@.board.size,
        ensures
            world.wf(),
            world@ == initial_world(self@.board.size),
    {
        proof {
            self.game_board.lemma_wf_view();
        }
        AppState::new(self.game_board.size())
    }

    /// The player tries to move one step in `direction`. Where the step
    /// leaves the board the move is blocked by the edge of the world; where
    /// it leads onto a tile that cannot be entered it is blocked by an
    /// obstacle; in both cases nothing changes. Otherwise the player's token
    /// goes from its stack onto the top of the target's stack, and the
    /// player's cell is the target.
    pub fn attempt_move(&mut self, direction: InputDirection) -> (outcome: MoveOutcome)
        requires
            old(self).wf(),
        ensures
            final(self).wf(),
            (final(self)@, outcome) == old(self)@.step(direction),
    {
        proof {
            lemma_step_keeps_inv(self@, direction);
        }
        let outcome = self.game_board.update_game_state(self.player, direction);
        match outcome {
            MoveOutcome::Moved { from, to } => {
                self.player = to;
            },
            MoveOutcome::Blocked(_) => {},
        }
        outcome
    }

    /// The board and the player's cell, to read.
    pub fn snapshot(&self) -> (seen: (&GameBoard, Coordinate))
        requires
            self.wf(),
        ensures
            seen.0.wf(),
            seen.0@ == self@.board,
            seen.1 == self@.player,
    {
        (&self.game_board, self.player)
    }

    /// The cell of the player.
    pub fn player(&self) -> (c: Coordinate)
        ensures
            c == self@.player,
    {
        self.player
    }
}

} // verus!
