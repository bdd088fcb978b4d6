//! Coordinates, adjacency and counting over a row-major grid.

use vstd::prelude::*;
use vstd::arithmetic::div_mod::lemma_fundamental_div_mod_converse;
use crate::tile::{Tile, TileState};

verus! {

/// The position of cell `(x, y)` in a row-major grid of width `w`.
pub open spec fn cell_index(w: int, x: int, y: int) -> int {
    y * w + x
}

/// Whether `(x, y)` is a cell of a grid `w` wide and `h` high.
pub open spec fn in_grid(w: int, h: int, x: int, y: int) -> bool {
    0 <= x < w && 0 <= y < h
}

/// Two distinct cells that share an edge or a corner.
pub open spec fn adjacent(ax: int, ay: int, bx: int, by: int) -> bool {
    &&& -1 <= ax - bx <= 1
    &&& -1 <= ay - by <= 1
    &&& !(ax == bx && ay == by)
}

/// Whether `(x, y)` lies in the grid and holds a mine.
pub open spec fn bomb_at(tiles: Seq<Tile>, w: int, h: int, x: int, y: int) -> bool {
    in_grid(w, h, x, y) && tiles[cell_index(w, x, y)].value.bomb()
}

/// 1 for true, 0 for false.
pub open spec fn unit(b: bool) -> int {
    if b { 1 } else { 0 }
}

/// The number of mines among the up to eight neighbours of `(x, y)`;
/// positions outside the grid count as empty.
pub open spec fn adjacent_bombs(tiles: Seq<Tile>, w: int, h: int, x: int, y: int) -> int {
    unit(bomb_at(tiles, w, h, x - 1, y - 1)) + unit(bomb_at(tiles, w, h, x, y - 1))
        + unit(bomb_at(tiles, w, h, x + 1, y - 1)) + unit(bomb_at(tiles, w, h, x - 1, y))
        + unit(bomb_at(tiles, w, h, x + 1, y)) + unit(bomb_at(tiles, w, h, x - 1, y + 1))
        + unit(bomb_at(tiles, w, h, x, y + 1)) + unit(bomb_at(tiles, w, h, x + 1, y + 1))
}

/// The number of mines in a sequence of tiles.
pub open spec fn count_bombs(tiles: Seq<Tile>) -> int
    decreases tiles.len(),
{
    if tiles.len() == 0 {
        0
    } else {
        count_bombs(tiles.drop_last()) + unit(tiles.last().value.bomb())
    }
}

/// The number of mine-free tiles in a sequence of tiles.
pub open spec fn count_safe(tiles: Seq<Tile>) -> int
    decreases tiles.len(),
{
    if tiles.len() == 0 {
        0
    } else {
        count_safe(tiles.drop_last()) + unit(!tiles.last().value.bomb())
    }
}

/// The number of tiles that are still hidden.
pub open spec fn count_hidden(tiles: Seq<Tile>) -> int
    decreases tiles.len(),
{
    if tiles.len() == 0 {
        0
    } else {
        count_hidden(tiles.drop_last()) + unit(tiles.last().state == TileState::Hidden)
    }
}

/// The index of a cell of the grid lies below the number of cells.
pub proof fn lemma_index_in_range(w: int, h: int, x: int, y: int)
    requires
        in_grid(w, h, x, y),
    ensures
        0 <= cell_index(w, x, y) < w * h,
{
    assert(y * w >= 0) by (nonlinear_arith)
        requires y >= 0, w > 0;
    assert((y + 1) * w <= h * w) by (nonlinear_arith)
        requires y + 1 <= h, w > 0;
    assert((y + 1) * w == y * w + w) by (nonlinear_arith);
    assert(h * w == w * h) by (nonlinear_arith);
}

/// A cell's index determines its coordinates.
pub proof fn lemma_coords(w: int, x: int, y: int)
    requires
        0 <= x < w,
    ensures
        cell_index(w, x, y) % w == x,
        cell_index(w, x, y) / w == y,
{
    lemma_fundamental_div_mod_converse(cell_index(w, x, y), w, y, x);
}

/// Distinct cells have distinct indices.
pub proof fn lemma_index_distinct(w: int, x: int, y: int)
    requires
        0 <= x < w,
    ensures
        forall|a: int, b: int|
            0 <= a < w && !(a == x && b == y) ==> #[trigger] cell_index(w, a, b) != cell_index(
                w,
                x,
                y,
            ),
{
    assert forall|a: int, b: int| 0 <= a < w && !(a == x && b == y) implies #[trigger] cell_index(
        w,
        a,
        b,
    ) != cell_index(w, x, y) by {
        lemma_coords(w, a, b);
        lemma_coords(w, x, y);
    }
}

/// Turning one mine-free tile into a mine raises the count by one; any
/// change that keeps a tile's value keeps the count.
pub proof fn lemma_count_bombs_update(tiles: Seq<Tile>, i: int, t: Tile)
    requires
        0 <= i < tiles.len(),
    ensures
        count_bombs(tiles.update(i, t)) == count_bombs(tiles) - unit(tiles[i].value.bomb()) + unit(
            t.value.bomb(),
        ),
    decreases tiles.len(),
{
    let next = tiles.update(i, t);
    if i == tiles.len() - 1 {
        assert(next.drop_last() =~= tiles.drop_last());
    } else {
        assert(next.drop_last() =~= tiles.drop_last().update(i, t));
        lemma_count_bombs_update(tiles.drop_last(), i, t);
    }
}

/// Changing one tile's state changes the hidden count by that tile alone.
pub proof fn lemma_count_hidden_update(tiles: Seq<Tile>, i: int, t: Tile)
    requires
        0 <= i < tiles.len(),
    ensures
        count_hidden(tiles.update(i, t)) == count_hidden(tiles) - unit(
            tiles[i].state == TileState::Hidden,
        ) + unit(t.state == TileState::Hidden),
    decreases tiles.len(),
{
    let next = tiles.update(i, t);
    if i == tiles.len() - 1 {
        assert(next.drop_last() =~= tiles.drop_last());
    } else {
        assert(next.drop_last() =~= tiles.drop_last().update(i, t));
        lemma_count_hidden_update(tiles.drop_last(), i, t);
    }
}

/// There are no more hidden tiles than tiles.
pub proof fn lemma_count_hidden_bounds(tiles: Seq<Tile>)
    ensures
        0 <= count_hidden(tiles) <= tiles.len(),
    decreases tiles.len(),
{
    if tiles.len() > 0 {
        lemma_count_hidden_bounds(tiles.drop_last());
    }
}

} // verus!
