//! The game: a grid of tiles and the reveal / flag state machine on it.

use vstd::prelude::*;
use crate::tile::{Tile, TileState, TileValue};
use crate::cascade::{
    lemma_done, lemma_leave, lemma_open, lemma_pass, lemma_start, lemma_take, revealed, spreading,
    visiting,
};
use crate::grid::{
    adjacent_bombs, bomb_at, cell_index, count_bombs, count_hidden, in_grid,
    lemma_count_hidden_bounds, lemma_index_distinct, lemma_index_in_range,
};

verus! {

/// Whether the tile at `(x, y)` carries the right number: a mine-free tile
/// holds the count of mines around it.
pub open spec fn numbered(tiles: Seq<Tile>, w: int, h: int, x: int, y: int) -> bool {
    match tiles[cell_index(w, x, y)].value {
        TileValue::Bomb => true,
        TileValue::Safe(n) => n as int == adjacent_bombs(tiles, w, h, x, y),
    }
}

/// A fully determined board: dimensions, mine count and tiles agree.
pub open spec fn board_ok(tiles: Seq<Tile>, w: int, h: int, bombs: int) -> bool {
    &&& w > 0
    &&& h > 0
    &&& tiles.len() == w * h
    &&& 0 <= bombs < w * h
    &&& count_bombs(tiles) == bombs
    &&& forall|x: int, y: int| in_grid(w, h, x, y) ==> #[trigger] numbered(tiles, w, h, x, y)
}

/// The state a flag toggle leads to.
pub open spec fn toggled(s: TileState) -> TileState {
    match s {
        TileState::Hidden => TileState::Flag,
        TileState::Flag => TileState::Hidden,
        TileState::Open => TileState::Open,
    }
}

/// The state that setting or clearing a flag leads to.
pub open spec fn flagged(s: TileState, flag: bool) -> TileState {
    match s {
        TileState::Open => TileState::Open,
        _ => if flag { TileState::Flag } else { TileState::Hidden },
    }
}

/// The tiles after the state of `(x, y)` has become `s`; outside the grid
/// nothing changes.
pub open spec fn with_state(tiles: Seq<Tile>, w: int, h: int, x: int, y: int, s: TileState) -> Seq<
    Tile,
> {
    if in_grid(w, h, x, y) {
        tiles.update(
            cell_index(w, x, y),
            Tile { state: s, value: tiles[cell_index(w, x, y)].value },
        )
    } else {
        tiles
    }
}

/// The tiles after a flag toggle on `(x, y)`.
pub open spec fn flag_toggled(tiles: Seq<Tile>, w: int, h: int, x: int, y: int) -> Seq<Tile> {
    with_state(tiles, w, h, x, y, toggled(tiles[cell_index(w, x, y)].state))
}

/// The tiles after the flag on `(x, y)` has been set or cleared.
pub open spec fn flag_set(tiles: Seq<Tile>, w: int, h: int, x: int, y: int, flag: bool) -> Seq<
    Tile,
> {
    with_state(tiles, w, h, x, y, flagged(tiles[cell_index(w, x, y)].state, flag))
}

/// Boards that agree on where the mines are agree on every count of
/// neighbouring mines.
pub proof fn lemma_same_bombs(before: Seq<Tile>, after: Seq<Tile>, w: int, h: int)
    requires
        w > 0,
        h > 0,
        before.len() == w * h,
        after.len() == before.len(),
        forall|k: int|
            0 <= k < before.len() ==> (#[trigger] after[k]).value.bomb() == before[k].value.bomb(),
    ensures
        forall|x: int, y: int| #[trigger]
            adjacent_bombs(after, w, h, x, y) == adjacent_bombs(before, w, h, x, y),
{
    assert forall|x: int, y: int| bomb_at(after, w, h, x, y) == #[trigger] bomb_at(
        before,
        w,
        h,
        x,
        y,
    ) by {
        if in_grid(w, h, x, y) {
            lemma_index_in_range(w, h, x, y);
        }
    }
    assert forall|x: int, y: int| #[trigger]
        adjacent_bombs(after, w, h, x, y) == adjacent_bombs(before, w, h, x, y) by {
        assert(bomb_at(after, w, h, x - 1, y - 1) == bomb_at(before, w, h, x - 1, y - 1));
        assert(bomb_at(after, w, h, x, y - 1) == bomb_at(before, w, h, x, y - 1));
        assert(bomb_at(after, w, h, x + 1, y - 1) == bomb_at(before, w, h, x + 1, y - 1));
        assert(bomb_at(after, w, h, x - 1, y) == bomb_at(before, w, h, x - 1, y));
        assert(bomb_at(after, w, h, x + 1, y) == bomb_at(before, w, h, x + 1, y));
        assert(bomb_at(after, w, h, x - 1, y + 1) == bomb_at(before, w, h, x - 1, y + 1));
        assert(bomb_at(after, w, h, x, y + 1) == bomb_at(before, w, h, x, y + 1));
        assert(bomb_at(after, w, h, x + 1, y + 1) == bomb_at(before, w, h, x + 1, y + 1));
    }
}

/// A board that differs from a good one in tile states only is good.
pub proof fn lemma_states_only(before: Seq<Tile>, after: Seq<Tile>, w: int, h: int, bombs: int)
    requires
        board_ok(before, w, h, bombs),
        after.len() == before.len(),
        forall|k: int| 0 <= k < before.len() ==> (#[trigger] after[k]).value == before[k].value,
    ensures
        board_ok(after, w, h, bombs),
{
    lemma_same_values_same_count(before, after);
    lemma_same_bombs(before, after, w, h);
    assert forall|x: int, y: int| in_grid(w, h, x, y) implies #[trigger] numbered(
        after,
        w,
        h,
        x,
        y,
    ) by {
        lemma_index_in_range(w, h, x, y);
        assert(numbered(before, w, h, x, y));
        assert(adjacent_bombs(after, w, h, x, y) == adjacent_bombs(before, w, h, x, y));
    }
}

proof fn lemma_same_values_same_count(a: Seq<Tile>, b: Seq<Tile>)
    requires
        a.len() == b.len(),
        forall|k: int| 0 <= k < a.len() ==> (#[trigger] b[k]).value == a[k].value,
    ensures
        count_bombs(a) == count_bombs(b),
    decreases a.len(),
{
    if a.len() > 0 {
        lemma_same_values_same_count(a.drop_last(), b.drop_last());
    }
}

/// The coordinate `c + d - 1`, where it lies below `limit`.
fn shifted(c: usize, d: usize, limit: usize) -> (r: Option<usize>)
    requires
        c < limit,
        d <= 2,
    ensures
        r == (if 0 <= c + d - 1 < limit {
            Some((c + d - 1) as usize)
        } else {
            None
        }),
{
    if d == 0 {
        if c == 0 {
            None
        } else {
            Some(c - 1)
        }
    } else {
        let n: usize = c + (d - 1);
        if n < limit {
            Some(n)
        } else {
            None
        }
    }
}

/// A minesweeper game: the board and what the player has uncovered of it.
#[derive(Debug)]
pub struct Game {
    width: usize,
    height: usize,
    bombs: usize,
    tiles: Vec<Tile>,
}

impl Game {
    /// The number of columns.
    pub closed spec fn spec_width(&self) -> int {
        self.width as int
    }

    /// The number of rows.
    pub closed spec fn spec_height(&self) -> int {
        self.height as int
    }

    /// The number of mines.
    pub closed spec fn spec_bombs(&self) -> int {
        self.bombs as int
    }

    /// The tiles in row-major order.
    pub closed spec fn tiles(&self) -> Seq<Tile> {
        self.tiles@
    }

    /// Whether `(x, y)` is a cell of the grid.
    pub open spec fn contains(&self, x: int, y: int) -> bool {
        in_grid(self.spec_width(), self.spec_height(), x, y)
    }

    /// The tile at `(x, y)`.
    pub open spec fn tile_at(&self, x: int, y: int) -> Tile {
        self.tiles()[cell_index(self.spec_width(), x, y)]
    }

    /// The invariant of every game.
    pub open spec fn wf(&self) -> bool {
        board_ok(self.tiles(), self.spec_width(), self.spec_height(), self.spec_bombs())
    }

    /// The same board: dimensions, mine count and every tile's value.
    pub open spec fn same_board(&self, other: &Game) -> bool {
        &&& self.spec_width() == other.spec_width()
        &&& self.spec_height() == other.spec_height()
        &&& self.spec_bombs() == other.spec_bombs()
        &&& self.tiles().len() == other.tiles().len()
        &&& forall|k: int|
            0 <= k < self.tiles().len() ==> (#[trigger] self.tiles()[k]).value
                == other.tiles()[k].value
    }

    /// The tiles after a flag toggle on `(x, y)`.
    pub open spec fn after_flag(&self, x: int, y: int) -> Seq<Tile> {
        flag_toggled(self.tiles(), self.spec_width(), self.spec_height(), x, y)
    }

    /// The tiles after the flag on `(x, y)` has been set or cleared.
    pub open spec fn after_set_flag(&self, x: int, y: int, flag: bool) -> Seq<Tile> {
        flag_set(self.tiles(), self.spec_width(), self.spec_height(), x, y, flag)
    }

    /// Assembles a game from a board that is known to be consistent.
    pub(crate) fn assemble(width: usize, height: usize, bombs: usize, tiles: Vec<Tile>) -> (g: Game)
        requires
            board_ok(tiles@, width as int, height as int, bombs as int),
        ensures
            g.wf(),
            g.spec_width() == width,
            g.spec_height() == height,
            g.spec_bombs() == bombs,
            g.tiles() == tiles@,
    {
        Game { width, height, bombs, tiles }
    }

    /// The position of an in-grid cell among the tiles.
    fn index_of(&self, x: usize, y: usize) -> (i: usize)
        requires
            self.wf(),
            self.contains(x as int, y as int),
        ensures
            i == cell_index(self.spec_width(), x as int, y as int),
            i < self.tiles().len(),
    {
        let total: usize = self.tiles.len();
        proof {
            lemma_index_in_range(self.width as int, self.height as int, x as int, y as int);
            assert(total == self.width * self.height);
            assert(y * self.width >= 0) by (nonlinear_arith)
                requires y >= 0, self.width > 0;
        }
        y * self.width + x
    }

    /// The number of columns.
    pub fn get_width(&self) -> (w: usize)
        ensures
            w == self.spec_width(),
    {
        self.width
    }

    /// The number of rows.
    pub fn get_height(&self) -> (h: usize)
        ensures
            h == self.spec_height(),
    {
        self.height
    }

    /// The number of mines on the board.
    pub fn get_bombs(&self) -> (b: usize)
        ensures
            b == self.spec_bombs(),
    {
        self.bombs
    }

    /// The tile at `(x, y)`, or nothing outside the grid.
    pub fn get(&self, x: usize, y: usize) -> (r: Option<Tile>)
        requires
            self.wf(),
        ensures
            r == (if self.contains(x as int, y as int) {
                Some(self.tile_at(x as int, y as int))
            } else {
                None
            }),
    {
        if x >= self.width || y >= self.height {
            return None;
        }
        let i: usize = self.index_of(x, y);
        Some(self.tiles[i])
    }

    /// Puts the tile at `(x, y)` into state `s`, keeping its value.
    fn put_state(&mut self, x: usize, y: usize, s: TileState)
        requires
            old(self).wf(),
            old(self).contains(x as int, y as int),
        ensures
            final(self).wf(),
            final(self).same_board(old(self)),
            final(self).tiles() == with_state(
                old(self).tiles(),
                old(self).spec_width(),
                old(self).spec_height(),
                x as int,
                y as int,
                s,
            ),
            forall|a: int, b: int|
                final(self).contains(a, b) ==> #[trigger] final(self).tile_at(a, b) == (if a == x
                    && b == y {
                    Tile { state: s, value: old(self).tile_at(a, b).value }
                } else {
                    old(self).tile_at(a, b)
                }),
    {
        let i: usize = self.index_of(x, y);
        let value = self.tiles[i].value;
        let ghost before = self.tiles@;
        self.tiles[i] = Tile { state: s, value };
        proof {
            lemma_index_distinct(self.width as int, x as int, y as int);
            assert forall|a: int, b: int| self.contains(a, b) implies #[trigger] self.tile_at(a, b)
                == (if a == x && b == y {
                Tile { state: s, value: before[cell_index(self.width as int, a, b)].value }
            } else {
                before[cell_index(self.width as int, a, b)]
            }) by {
                lemma_index_in_range(self.width as int, self.height as int, a, b);
            }
            lemma_states_only(
                before,
                self.tiles@,
                self.width as int,
                self.height as int,
                self.bombs as int,
            );
        }
    }

    /// Toggles the flag on a cell that is not open. An open cell and a
    /// position outside the grid are left alone.
    pub fn flag(&mut self, x: usize, y: usize)
        requires
            old(self).wf(),
        ensures
            final(self).wf(),
            final(self).same_board(old(self)),
            final(self).tiles() == old(self).after_flag(x as int, y as int),
            forall|a: int, b: int|
                final(self).contains(a, b) ==> #[trigger] final(self).tile_at(a, b) == (if a == x
                    && b == y {
                    Tile {
                        state: toggled(old(self).tile_at(a, b).state),
                        value: old(self).tile_at(a, b).value,
                    }
                } else {
                    old(self).tile_at(a, b)
                }),
    {
        if x >= self.width || y >= self.height {
            return ;
        }
        let i: usize = self.index_of(x, y);
        let state = self.tiles[i].state;
        let next = match state {
            TileState::Hidden => TileState::Flag,
            TileState::Flag => TileState::Hidden,
            TileState::Open => TileState::Open,
        };
        self.put_state(x, y, next);
    }

    /// Sets or clears the flag on a cell that is not open. An open cell and
    /// a position outside the grid are left alone.
    pub fn set_flag(&mut self, x: usize, y: usize, flag: bool)
        requires
            old(self).wf(),
        ensures
            final(self).wf(),
            final(self).same_board(old(self)),
            final(self).tiles() == old(self).after_set_flag(x as int, y as int, flag),
            forall|a: int, b: int|
                final(self).contains(a, b) ==> #[trigger] final(self).tile_at(a, b) == (if a == x
                    && b == y {
                    Tile {
                        state: flagged(old(self).tile_at(a, b).state, flag),
                        value: old(self).tile_at(a, b).value,
                    }
                } else {
                    old(self).tile_at(a, b)
                }),
    {
        if x >= self.width || y >= self.height {
            return ;
        }
        let i: usize = self.index_of(x, y);
        let state = self.tiles[i].state;
        let next = match state {
            TileState::Open => TileState::Open,
            _ => if flag {
                TileState::Flag
            } else {
                TileState::Hidden
            },
        };
        self.put_state(x, y, next);
    }

    /// Whether a reveal of `(x, y)` does anything: the cell lies in the
    /// grid and is hidden. A flag blocks a reveal.
    pub open spec fn can_reveal(&self, x: int, y: int) -> bool {
        self.contains(x, y) && self.tile_at(x, y).state == TileState::Hidden
    }

    /// The tile at `(a, b)` after a reveal of `(x, y)`.
    pub open spec fn after_reveal(&self, x: int, y: int, a: int, b: int) -> Tile {
        if self.can_reveal(x, y) {
            revealed(self.tiles(), self.spec_width(), self.spec_height(), x, y, a, b)
        } else {
            self.tile_at(a, b)
        }
    }

    /// Opens the hidden cell `(x, y)` and returns its value. Where no mine
    /// is around it, the hidden cells around it open too, and so on from
    /// each of those around which no mine is. Flagged and open cells stay
    /// as they are and stop the spread. On an open or flagged cell, and
    /// outside the grid, nothing happens and nothing is returned.
    pub fn reveal_at(&mut self, x: usize, y: usize) -> (r: Option<TileValue>)
        requires
            old(self).wf(),
        ensures
            final(self).wf(),
            final(self).same_board(old(self)),
            r == (if old(self).can_reveal(x as int, y as int) {
                Some(old(self).tile_at(x as int, y as int).value)
            } else {
                None
            }),
            !old(self).can_reveal(x as int, y as int) ==> final(self).tiles() == old(self).tiles(),
            old(self).can_reveal(x as int, y as int) ==> final(self).tile_at(x as int, y as int).state
                == TileState::Open,
            forall|a: int, b: int|
                final(self).contains(a, b) ==> #[trigger] final(self).tile_at(a, b) == old(
                    self,
                ).after_reveal(x as int, y as int, a, b),
    {
        if x >= self.width || y >= self.height {
            return None;
        }
        let start: usize = self.index_of(x, y);
        let tile = self.tiles[start];
        match tile.state {
            TileState::Hidden => {},
            _ => {
                return None;
            },
        }
        let ghost before = self.tiles@;
        let ghost w = self.width as int;
        let ghost h = self.height as int;
        let ghost bombs = self.bombs as int;
        let width: usize = self.width;
        let height: usize = self.height;
        self.tiles[start] = Tile { state: TileState::Open, value: tile.value };
        let mut pending: Vec<(usize, usize)> = Vec::new();
        if is_zero(tile.value) {
            pending.push((x, y));
        }
        proof {
            lemma_start(before, self.tiles@, w, h, x as int, y as int, pending@);
        }
        while pending.len() > 0
            invariant
                self.width == width,
                self.height == height,
                self.bombs == bombs,
                w == width as int,
                h == height as int,
                board_ok(before, w, h, bombs),
                spreading(before, self.tiles@, w, h, x as int, y as int, pending@, None),
            decreases count_hidden(self.tiles@) + pending@.len(),
        {
            let ghost queue = pending@;
            let cell = pending.pop().unwrap();
            let cx: usize = cell.0;
            let cy: usize = cell.1;
            proof {
                lemma_take(before, self.tiles@, w, h, x as int, y as int, queue);
                lemma_count_hidden_bounds(self.tiles@);
            }
            let ghost bound = count_hidden(self.tiles@) + pending@.len();
            let mut k: usize = 0;
            while k < 9
                invariant
                    k <= 9,
                    self.width == width,
                    self.height == height,
                    self.bombs == bombs,
                    w == width as int,
                    h == height as int,
                    visiting(
                        before,
                        self.tiles@,
                        w,
                        h,
                        x as int,
                        y as int,
                        pending@,
                        cx as int,
                        cy as int,
                        k as int,
                    ),
                    count_hidden(self.tiles@) + pending@.len() <= bound,
                decreases 9 - k,
            {
                let nx = shifted(cx, k % 3, width);
                let ny = shifted(cy, k / 3, height);
                let mut worked = false;
                if nx.is_some() && ny.is_some() {
                    let nx: usize = nx.unwrap();
                    let ny: usize = ny.unwrap();
                    let total: usize = self.tiles.len();
                    proof {
                        lemma_index_in_range(w, h, nx as int, ny as int);
                        assert(ny * width >= 0) by (nonlinear_arith)
                            requires ny >= 0, width > 0;
                    }
                    let ni: usize = ny * width + nx;
                    let t = self.tiles[ni];
                    if is_hidden(t.state) {
                        let ghost now = self.tiles@;
                        let ghost queue = pending@;
                        self.tiles[ni] = Tile { state: TileState::Open, value: t.value };
                        if is_zero(t.value) {
                            pending.push((nx, ny));
                            proof {
                                assert(pending@.drop_last() =~= queue);
                            }
                        }
                        proof {
                            lemma_open(
                                before,
                                now,
                                self.tiles@,
                                w,
                                h,
                                x as int,
                                y as int,
                                queue,
                                pending@,
                                cx as int,
                                cy as int,
                                k as int,
                            );
                        }
                        worked = true;
                    }
                }
                if !worked {
                    proof {
                        lemma_pass(
                            before,
                            self.tiles@,
                            w,
                            h,
                            x as int,
                            y as int,
                            pending@,
                            cx as int,
                            cy as int,
                            k as int,
                        );
                    }
                }
                k += 1;
            }
            proof {
                lemma_leave(
                    before,
                    self.tiles@,
                    w,
                    h,
                    x as int,
                    y as int,
                    pending@,
                    cx as int,
                    cy as int,
                );
                lemma_count_hidden_bounds(self.tiles@);
            }
        }
        proof {
            assert(pending@ =~= Seq::<(usize, usize)>::empty());
            lemma_done(before, self.tiles@, w, h, x as int, y as int);
            lemma_states_only(before, self.tiles@, w, h, bombs);
        }
        Some(tile.value)
    }
}

fn is_zero(value: TileValue) -> (r: bool)
    ensures
        r == (value == TileValue::Safe(0)),
{
    match value {
        TileValue::Safe(n) => n == 0,
        TileValue::Bomb => false,
    }
}

fn is_hidden(state: TileState) -> (r: bool)
    ensures
        r == (state == TileState::Hidden),
{
    match state {
        TileState::Hidden => true,
        _ => false,
    }
}

} // verus!
