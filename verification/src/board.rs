//! The board: a square grid of tiles, stored row after row.

use vstd::prelude::*;
use crate::coordinate::{BlockReason, Coordinate, InputDirection, MoveOutcome};
use crate::stack::{TileStack, STACK_CAPACITY};
use crate::tile::{Tile, TileView};
use crate::token::{Token, TokenType};

verus! {

/// The number of rows and of columns of a board made without a size.
pub const DEFAULT_SIZE: usize = 100;

/// Why the board refused an access.
#[derive(Clone, Copy, Debug, PartialEq, Eq, Structural)]
pub enum BoardError {
    /// The coordinate names no cell of the board.
    OutOfBounds,
}

/// The mathematical view of a board: its number of rows and columns, and the
/// tile of each of its cells.
#[verifier::ext_equal]
pub struct BoardView {
    pub size: nat,
    pub tiles: Map<Coordinate, TileView>,
}

impl BoardView {
    /// The size fits the machine's word, the cells of the map are those of a
    /// square of `size` rows and columns, and each tile carries a valid
    /// stack.
    pub open spec fn inv(self) -> bool {
        &&& self.size <= usize::MAX
        &&& forall|c: Coordinate| self.tiles.dom().contains(c) <==> c.within(self.size)
        &&& forall|c: Coordinate| c.within(self.size) ==> (#[trigger] self.tiles[c]).inv()
    }

    /// Whether `c` is a cell of the board that a moving actor may enter.
    pub open spec fn passable(self, c: Coordinate) -> bool {
        c.within(self.size) && self.tiles[c].passable()
    }

    /// The board with the tile `t` at `c`.
    pub open spec fn put(self, c: Coordinate, t: TileView) -> BoardView {
        BoardView { size: self.size, tiles: self.tiles.insert(c, t) }
    }

    /// The board after the default room was built on it: in the first and
    /// in the last row every cell is a wall, and every cell that lies in
    /// neither of them and in neither the first nor the last column is a
    /// floor without tokens. The other cells, which are those of the first
    /// and the last column between the two walls, are as they were.
    pub open spec fn with_default_room(self) -> BoardView {
        BoardView {
            size: self.size,
            tiles: Map::new(
                |c: Coordinate| c.within(self.size),
                |c: Coordinate|
                    match default_tile(self.size, c) {
                        Some(tile) => tile,
                        None => self.tiles[c],
                    },
            ),
        }
    }

    /// The board after the player's token went from `from` to `to`: it is
    /// off the stack at `from` and on top of the stack at `to`.
    pub open spec fn relocate_player(self, from: Coordinate, to: Coordinate) -> BoardView {
        self.put(from, self.tiles[from].without_player()).put(to, self.tiles[to].with_player())
    }

    /// One attempt to move the player's token from `from` one step in
    /// direction `d`: the board after it, and what it came to. A step off
    /// the board or onto a tile that cannot be entered leaves the board as
    /// it was.
    pub open spec fn step(self, from: Coordinate, d: InputDirection) -> (BoardView, MoveOutcome) {
        match from.neighbor(d, self.size) {
            None => (self, MoveOutcome::Blocked(BlockReason::EdgeOfWorld)),
            Some(to) => if self.tiles[to].passable() {
                (self.relocate_player(from, to), MoveOutcome::Moved { from, to })
            } else {
                (self, MoveOutcome::Blocked(BlockReason::Obstacle))
            },
        }
    }

    /// Whether `found` is the first cell, read row after row, on which a
    /// player token stands; `None` says that no cell has one.
    pub open spec fn is_first_with_player(self, found: Option<Coordinate>) -> bool {
        match found {
            Some(c) => {
                &&& c.within(self.size)
                &&& self.tiles[c].holds_player()
                &&& forall|k: Coordinate|
                    k.within(self.size) && k.precedes(c) ==> !(#[trigger] self.tiles[k]).holds_player()
            },
            None => forall|k: Coordinate|
                k.within(self.size) ==> !(#[trigger] self.tiles[k]).holds_player(),
        }
    }

    /// Whether `found` is the first cell, read row after row, that can be
    /// entered and whose stack is full; `None` says that there is no such
    /// cell.
    pub open spec fn is_first_crowded(self, found: Option<Coordinate>) -> bool {
        match found {
            Some(c) => {
                &&& c.within(self.size)
                &&& self.tiles[c].crowded()
                &&& forall|k: Coordinate|
                    k.within(self.size) && k.precedes(c) ==> !(#[trigger] self.tiles[k]).crowded()
            },
            None => forall|k: Coordinate|
                k.within(self.size) ==> !(#[trigger] self.tiles[k]).crowded(),
        }
    }

    /// Whether a step from `from` in direction `d` finds room for the
    /// player's token: it does unless it leads onto a tile that can be
    /// entered and whose stack is full.
    pub open spec fn has_room_for_step(self, from: Coordinate, d: InputDirection) -> bool {
        match from.neighbor(d, self.size) {
            None => true,
            Some(to) => self.tiles[to].passable() ==> self.tiles[to].stack().len() < STACK_CAPACITY,
        }
    }
}

/// The board of `size` rows and columns on which nothing was built: every
/// cell is `Void`.
pub open spec fn empty_board(size: nat) -> BoardView {
    BoardView { size, tiles: Map::new(|c: Coordinate| c.within(size), |c: Coordinate| TileView::Void) }
}

/// What the default room has at cell `c` of a board of `size` rows and
/// columns: a wall in the first and in the last row, a floor without tokens
/// off the first and last row and column, and nothing of its own in what is
/// left of the first and the last column. On a board on which nothing else
/// is built those cells are `Void`, so that nothing can enter the border of
/// the room on any side.
pub open spec fn default_tile(size: nat, c: Coordinate) -> Option<TileView> {
    if c.x == 0 || c.x + 1 == size {
        Some(TileView::Wall)
    } else if 1 <= c.y && c.y + 1 < size {
        Some(TileView::Floor(Seq::empty()))
    } else {
        None
    }
}

/// The default layout of a board of `size` rows and columns: the default
/// room, and `Void` where the room has nothing.
pub open spec fn default_layout(size: nat) -> BoardView {
    BoardView {
        size,
        tiles: Map::new(
            |c: Coordinate| c.within(size),
            |c: Coordinate|
                match default_tile(size, c) {
                    Some(tile) => tile,
                    None => TileView::Void,
                },
        ),
    }
}

/// The board `b` while the default room is being built on it: the two wall
/// rows stand in the columns before `walls`, and the floor lies in the rows
/// before `rows` and, in row `rows`, in the columns before `columns`.
spec fn room_in_progress(b: BoardView, walls: nat, rows: nat, columns: nat) -> BoardView {
    BoardView {
        size: b.size,
        tiles: Map::new(
            |c: Coordinate| c.within(b.size),
            |c: Coordinate|
                match default_tile(b.size, c) {
                    Some(TileView::Wall) => if c.y < walls {
                        TileView::Wall
                    } else {
                        b.tiles[c]
                    },
                    Some(tile) => if c.x < rows || (c.x == rows && c.y < columns) {
                        tile
                    } else {
                        b.tiles[c]
                    },
                    None => b.tiles[c],
                },
        ),
    }
}

/// On a board on which nothing was built, the default room makes the default
/// layout.
pub proof fn lemma_default_room_on_empty_board(size: nat)
    ensures
        empty_board(size).with_default_room() == default_layout(size),
{
    assert(empty_board(size).with_default_room().tiles =~= default_layout(size).tiles);
}

/// The cell `c` lies at a place in storage, row after row.
proof fn lemma_cell_index(size: nat, c: Coordinate)
    requires
        c.within(size),
    ensures
        0 <= c.x * size,
        c.x * size + c.y < size * size,
{
    assert(0 <= c.x * size && c.x * size + size <= size * size) by (nonlinear_arith)
        requires
            0 <= c.x,
            c.x + 1 <= size,
    ;
}

/// Two cells of the board lie at different places in storage.
proof fn lemma_cell_index_differs(size: nat, a: Coordinate, b: Coordinate)
    requires
        a.within(size),
        b.within(size),
        a != b,
    ensures
        a.x * size + a.y != b.x * size + b.y,
{
    if a.x < b.x {
        assert(a.x * size + size <= b.x * size) by (nonlinear_arith)
            requires
                a.x + 1 <= b.x,
        ;
    } else if b.x < a.x {
        assert(b.x * size + size <= a.x * size) by (nonlinear_arith)
            requires
                b.x + 1 <= a.x,
        ;
    }
}

/// The tiles of a board of `size` rows and columns that is stored in `tiles`.
spec fn tiles_view(size: nat, tiles: Seq<Tile>) -> Map<Coordinate, TileView> {
    Map::new(|c: Coordinate| c.within(size), |c: Coordinate| tiles[c.x * size + c.y]@)
}

/// To store a tile at the place of cell `c` changes the tile of `c` and of
/// no other cell.
proof fn lemma_store(size: nat, tiles: Seq<Tile>, c: Coordinate, tile: Tile)
    requires
        c.within(size),
        tiles.len() == size * size,
    ensures
        tiles_view(size, tiles.update(c.x * size + c.y, tile)) == tiles_view(size, tiles).insert(
            c,
            tile@,
        ),
{
    lemma_cell_index(size, c);
    assert forall|k: Coordinate| #[trigger] k.within(size) implies 0 <= k.x * size + k.y < size
        * size && (k != c ==> k.x * size + k.y != c.x * size + c.y) by {
        lemma_cell_index(size, k);
        if k != c {
            lemma_cell_index_differs(size, k, c);
        }
    }
    assert(tiles_view(size, tiles.update(c.x * size + c.y, tile)) =~= tiles_view(
        size,
        tiles,
    ).insert(c, tile@));
}

/// A square grid of tiles. The tile of row `x` and column `y` is stored at
/// place `x * size + y`.
#[derive(Debug, PartialEq, Eq)]
pub struct GameBoard {
    size: usize,
    game_board: Vec<Tile>,
}

impl View for GameBoard {
    type V = BoardView;

    closed spec fn view(&self) -> BoardView {
        BoardView {
            size: self.size as nat,
            tiles: tiles_view(self.size as nat, self.game_board@),
        }
    }
}

impl Clone for GameBoard {
    /// A board of the same size with the same tiles.
    fn clone(&self) -> (copy: GameBoard)
        ensures
            self.wf() ==> copy.wf() && copy@ == self@,
    {
        let tiles = self.game_board.clone();
        let copy = GameBoard { size: self.size, game_board: tiles };
        proof {
            if self.wf() {
                assert forall|i: int| 0 <= i < tiles@.len() implies (#[trigger] tiles@[i])@
                    == self.game_board@[i]@ by {
                    assert(cloned::<Tile>(self.game_board[i], tiles[i]));
                }
                assert forall|c: Coordinate| c.within(self.size as nat) implies copy@.tiles[c]
                    == self@.tiles[c] by {
                    lemma_cell_index(self.size as nat, c);
                }
                assert(copy@.tiles =~= self@.tiles);
            }
        }
        copy
    }
}

impl GameBoard {
    /// The storage holds one valid tile for each cell of the square.
    pub closed spec fn wf(&self) -> bool {
        &&& self.size * self.size <= usize::MAX
        &&& self.game_board@.len() == self.size * self.size
        &&& forall|i: int| 0 <= i < self.game_board@.len() ==> (#[trigger] self.game_board@[i]).wf()
    }

    /// A well-formed board has a valid view.
    pub proof fn lemma_wf_view(&self)
        requires
            self.wf(),
        ensures
            self@.inv(),
            self@.size * self@.size <= usize::MAX,
    {
        assert forall|c: Coordinate| c.within(self@.size) implies (#[trigger] self@.tiles[c]).inv() by {
            lemma_cell_index(self.size as nat, c);
            assert(self.game_board@[c.x * self.size + c.y].wf());
        }
    }

    /// A board of `size` rows and `size` columns on which nothing is built.
    /// The number of its cells must fit the machine's word.
    pub fn with_size(size: usize) -> (board: GameBoard)
        requires
            size * size <= usize::MAX,
        ensures
            board.wf(),
            board@ == empty_board(size as nat),
    {
        let total: usize = size * size;
        let mut tiles: Vec<Tile> = Vec::new();
        let mut i: usize = 0;
        while i < total
            invariant
                i <= total,
                tiles@.len() == i,
                forall|j: int| 0 <= j < i ==> (#[trigger] tiles@[j])@ == TileView::Void,
            decreases total - i,
        {
            tiles.push(Tile::Void);
            i += 1;
        }
        let board = GameBoard { size, game_board: tiles };
        proof {
            assert forall|c: Coordinate| c.within(size as nat) implies board@.tiles[c]
                == TileView::Void by {
                lemma_cell_index(size as nat, c);
            }
            assert(board@.tiles =~= empty_board(size as nat).tiles);
        }
        board
    }

    /// A board of the default size on which nothing is built.
    pub fn new_empty() -> (board: GameBoard)
        ensures
            board.wf(),
            board@ == empty_board(DEFAULT_SIZE as nat),
    {
        GameBoard::with_size(DEFAULT_SIZE)
    }

    /// The number of rows, which is the number of columns.
    pub fn size(&self) -> (n: usize)
        ensures
            n == self@.size,
    {
        self.size
    }

    /// The place of cell `c` in storage.
    fn index_of(&self, c: Coordinate) -> (i: usize)
        requires
            self.wf(),
            c.within(self.size as nat),
        ensures
            i == c.x * self.size + c.y,
            i < self.game_board@.len(),
    {
        proof {
            lemma_cell_index(self.size as nat, c);
        }
        c.x * self.size + c.y
    }

    /// Stores `tile` at cell `c`.
    fn put(&mut self, c: Coordinate, tile: Tile)
        requires
            old(self).wf(),
            c.within(old(self)@.size),
            tile.wf(),
        ensures
            final(self).wf(),
            final(self)@ == old(self)@.put(c, tile@),
    {
        let i: usize = self.index_of(c);
        proof {
            lemma_store(self.size as nat, self.game_board@, c, tile);
        }
        self.game_board[i] = tile;
    }

    /// The tile at `c`, to read. A coordinate off the board is refused.
    pub fn get(&self, c: Coordinate) -> (tile: Result<&Tile, BoardError>)
        requires
            self.wf(),
        ensures
            match tile {
                Ok(t) => c.within(self@.size) && t@ == self@.tiles[c] && t.wf(),
                Err(e) => !c.within(self@.size) && e == BoardError::OutOfBounds,
            },
    {
        if c.x < self.size && c.y < self.size {
            let i: usize = self.index_of(c);
            Ok(&self.game_board[i])
        } else {
            Err(BoardError::OutOfBounds)
        }
    }

    /// The tile at `c`, to change. A coordinate off the board is refused,
    /// and the board stays as it was. The board is the old one with the
    /// tile that the caller leaves at `c`; it is well-formed if that tile is.
    pub fn get_mut(&mut self, c: Coordinate) -> (tile: Result<&mut Tile, BoardError>)
        requires
            old(self).wf(),
        ensures
            match tile {
                Ok(t) => {
                    &&& c.within(old(self)@.size)
                    &&& t@ == old(self)@.tiles[c]
                    &&& t.wf()
                    &&& final(self)@ == old(self)@.put(c, final(t)@)
                    &&& final(t).wf() ==> final(self).wf()
                },
                Err(e) => {
                    &&& !c.within(old(self)@.size)
                    &&& e == BoardError::OutOfBounds
                    &&& final(self)@ == old(self)@
                    &&& final(self).wf()
                },
            },
    {
        if c.x < self.size && c.y < self.size {
            let i: usize = self.index_of(c);
            let t = &mut self.game_board[i];
            proof {
                let size = old(self).size as nat;
                let tiles = old(self).game_board@;
                assert forall|tile: Tile| #[trigger]
                    tiles_view(size, tiles.update(i as int, tile)) == tiles_view(
                        size,
                        tiles,
                    ).insert(c, tile@) by {
                    lemma_store(size, tiles, c, tile);
                }
            }
            Ok(t)
        } else {
            Err(BoardError::OutOfBounds)
        }
    }

    /// The first cell, read row after row, on which a player token stands.
    pub fn find_player(&self) -> (found: Option<Coordinate>)
        requires
            self.wf(),
        ensures
            self@.is_first_with_player(found),
    {
        let n: usize = self.size;
        let mut x: usize = 0;
        while x < n
            invariant
                x <= n,
                n == self.size,
                self.wf(),
                forall|k: Coordinate|
                    k.within(n as nat) && k.x < x ==> !(#[trigger] self@.tiles[k]).holds_player(),
            decreases n - x,
        {
            let mut y: usize = 0;
            while y < n
                invariant
                    x < n,
                    y <= n,
                    n == self.size,
                    self.wf(),
                    forall|k: Coordinate|
                        k.within(n as nat) && (k.x < x || (k.x == x && k.y < y)) ==> !(
                        #[trigger] self@.tiles[k]).holds_player(),
                decreases n - y,
            {
                let c = Coordinate { x, y };
                let i: usize = self.index_of(c);
                if self.game_board[i].holds_player() {
                    return Some(c);
                }
                y += 1;
            }
            x += 1;
        }
        None
    }

    /// The first cell, read row after row, that can be entered and whose
    /// stack is full.
    pub fn find_crowded(&self) -> (found: Option<Coordinate>)
        requires
            self.wf(),
        ensures
            self@.is_first_crowded(found),
    {
        let n: usize = self.size;
        let mut x: usize = 0;
        while x < n
            invariant
                x <= n,
                n == self.size,
                self.wf(),
                forall|k: Coordinate|
                    k.within(n as nat) && k.x < x ==> !(#[trigger] self@.tiles[k]).crowded(),
            decreases n - x,
        {
            let mut y: usize = 0;
            while y < n
                invariant
                    x < n,
                    y <= n,
                    n == self.size,
                    self.wf(),
                    forall|k: Coordinate|
                        k.within(n as nat) && (k.x < x || (k.x == x && k.y < y)) ==> !(
                        #[trigger] self@.tiles[k]).crowded(),
                decreases n - y,
            {
                let c = Coordinate { x, y };
                let i: usize = self.index_of(c);
                if self.game_board[i].is_crowded() {
                    return Some(c);
                }
                y += 1;
            }
            x += 1;
        }
        None
    }

    /// Builds the default room on the board: a wall along the first and the
    /// last row, and floor without tokens wherever a cell lies in neither of
    /// them and in neither the first nor the last column. What is left of
    /// the first and the last column stays as it was.
    pub fn build_default_layout(&mut self)
        requires
            old(self).wf(),
        ensures
            final(self).wf(),
            final(self)@ == old(self)@.with_default_room(),
    {
        let n: usize = self.size;
        if n == 0 {
            assert(self@.tiles =~= old(self)@.with_default_room().tiles);
            return ;
        }
        assert(self@.tiles =~= room_in_progress(old(self)@, 0, 0, 0).tiles);
        let mut y: usize = 0;
        while y < n
            invariant
                0 < n,
                y <= n,
                n == self.size,
                self.wf(),
                self@ == room_in_progress(old(self)@, y as nat, 0, 0),
            decreases n - y,
        {
            self.put(Coordinate { x: 0, y }, Tile::Wall);
            self.put(Coordinate { x: n - 1, y }, Tile::Wall);
            y += 1;
            assert(self@.tiles =~= room_in_progress(old(self)@, y as nat, 0, 0).tiles);
        }
        if n < 3 {
            assert(self@.tiles =~= old(self)@.with_default_room().tiles);
            return ;
        }
        assert(self@.tiles =~= room_in_progress(old(self)@, n as nat, 1, 0).tiles);
        let mut x: usize = 1;
        while x < n - 1
            invariant
                3 <= n,
                1 <= x <= n - 1,
                n == self.size,
                self.wf(),
                self@ == room_in_progress(old(self)@, n as nat, x as nat, 0),
            decreases n - x,
        {
            assert(self@.tiles =~= room_in_progress(old(self)@, n as nat, x as nat, 1).tiles);
            let mut y: usize = 1;
            while y < n - 1
                invariant
                    3 <= n,
                    1 <= x < n - 1,
                    1 <= y <= n - 1,
                    n == self.size,
                    self.wf(),
                    self@ == room_in_progress(old(self)@, n as nat, x as nat, y as nat),
                decreases n - y,
            {
                self.put(Coordinate { x, y }, Tile::Floor(TileStack::new()));
                y += 1;
                assert(self@.tiles =~= room_in_progress(
                    old(self)@,
                    n as nat,
                    x as nat,
                    y as nat,
                ).tiles);
            }
            x += 1;
            assert(self@.tiles =~= room_in_progress(old(self)@, n as nat, x as nat, 0).tiles);
        }
        assert(self@.tiles =~= old(self)@.with_default_room().tiles);
    }

    /// Moves the player's token from `from` one step in direction
    /// `direction`, if the step stays on the board and the tile it leads to
    /// can be entered. The token is taken off the stack at `from` and put on
    /// top of the stack at the target; no other token is touched. A player
    /// token must stand at `from`, and the target's stack must have room.
    pub fn update_game_state(&mut self, from: Coordinate, direction: InputDirection) -> (outcome:
        MoveOutcome)
        requires
            old(self).wf(),
            from.within(old(self)@.size),
            old(self)@.tiles[from].holds_player(),
            old(self)@.has_room_for_step(from, direction),
        ensures
            final(self).wf(),
            (final(self)@, outcome) == old(self)@.step(from, direction),
    {
        match from.step(direction, self.size) {
            None => MoveOutcome::Blocked(BlockReason::EdgeOfWorld),
            Some(to) => {
                if self.is_passable(to) {
                    let i: usize = self.index_of(from);
                    let j: usize = self.index_of(to);
                    proof {
                        lemma_cell_index_differs(self.size as nat, from, to);
                    }
                    let origin = &mut self.game_board[i];
                    origin.remove_player();
                    proof {
                        lemma_store(
                            old(self).size as nat,
                            old(self).game_board@,
                            from,
                            self.game_board@[i as int],
                        );
                    }
                    let ghost between = self.game_board@;
                    let target = &mut self.game_board[j];
                    target.place(Token::new(TokenType::Player));
                    proof {
                        lemma_store(old(self).size as nat, between, to, self.game_board@[j as int]);
                        assert(self@.tiles =~= old(self)@.relocate_player(from, to).tiles);
                    }
                    MoveOutcome::Moved { from, to }
                } else {
                    MoveOutcome::Blocked(BlockReason::Obstacle)
                }
            },
        }
    }

    /// Whether `c` is a cell of the board that a moving actor may enter: a
    /// floor, or a door that is open or broken.
    pub fn is_passable(&self, c: Coordinate) -> (b: bool)
        requires
            self.wf(),
        ensures
            b == self@.passable(c),
    {
        match self.get(c) {
            Ok(tile) => tile.is_passable(),
            Err(_) => false,
        }
    }
}

} // verus!
