//! What holds of every game, stated over the models that the contracts use.

use vstd::prelude::*;
use vstd::arithmetic::div_mod::{lemma_fundamental_div_mod, lemma_mod_pos_bound};
use crate::tile::{Tile, TileState, TileValue};
use crate::grid::{
    adjacent, adjacent_bombs, bomb_at, cell_index, count_bombs, count_safe, in_grid, lemma_coords,
    lemma_index_in_range, unit,
};
use crate::cascade::{cascade_path, cascades, revealed, zero_at};
use crate::game::{board_ok, flag_set, flag_toggled, lemma_same_bombs, numbered, Game};
use crate::construct::{built, built_by_chance, fresh};
use crate::generate::{config_error, eligible, laid_out, ConfigError, SafeZone};

verus! {

/// Every tile is a mine or mine-free: the two counts add up to the number
/// of tiles.
pub proof fn lemma_bombs_and_safe(tiles: Seq<Tile>)
    ensures
        count_bombs(tiles) + count_safe(tiles) == tiles.len(),
        0 <= count_bombs(tiles),
        0 <= count_safe(tiles),
    decreases tiles.len(),
{
    if tiles.len() > 0 {
        lemma_bombs_and_safe(tiles.drop_last());
    }
}

/// A game holds exactly as many mines as it was built with, and every
/// other cell is mine-free.
pub proof fn lemma_counts(g: &Game)
    requires
        g.wf(),
    ensures
        count_bombs(g.tiles()) == g.spec_bombs(),
        count_safe(g.tiles()) == g.spec_width() * g.spec_height() - g.spec_bombs(),
{
    lemma_bombs_and_safe(g.tiles());
}

/// The number on a mine-free cell is the number of mines among its
/// neighbours in the grid.
pub proof fn lemma_number(g: &Game, x: int, y: int, n: u8)
    requires
        g.wf(),
        g.contains(x, y),
        g.tile_at(x, y).value == TileValue::Safe(n),
    ensures
        n as int == adjacent_bombs(g.tiles(), g.spec_width(), g.spec_height(), x, y),
{
    assert(numbered(g.tiles(), g.spec_width(), g.spec_height(), x, y));
}

/// A game built with a safe cell has no mine on it.
pub proof fn lemma_safe_cell(g: &Game, w: int, h: int, bombs: int, cx: usize, cy: usize)
    requires
        fresh(g, w, h, bombs, SafeZone::Cell(cx, cy)),
        g.contains(cx as int, cy as int),
    ensures
        !g.tile_at(cx as int, cy as int).value.bomb(),
{
}

/// A game built with a safe neighbourhood has no mine on the chosen cell
/// nor on any cell of the grid around it, so the chosen cell shows 0.
pub proof fn lemma_safe_neighbourhood(g: &Game, w: int, h: int, bombs: int, cx: usize, cy: usize)
    requires
        fresh(g, w, h, bombs, SafeZone::Around(cx, cy)),
    ensures
        forall|x: int, y: int|
            g.contains(x, y) && ((x == cx && y == cy) || adjacent(cx as int, cy as int, x, y))
                ==> !(#[trigger] g.tile_at(x, y)).value.bomb(),
        g.contains(cx as int, cy as int) ==> g.tile_at(cx as int, cy as int).value
            == TileValue::Safe(0),
{
    let t = g.tiles();
    let x = cx as int;
    let y = cy as int;
    if g.contains(x, y) {
        assert(numbered(t, w, h, x, y));
        assert(!g.tile_at(x, y).value.bomb());
        assert(!bomb_at(t, w, h, x - 1, y - 1)) by {
            if g.contains(x - 1, y - 1) {
                assert(!g.tile_at(x - 1, y - 1).value.bomb());
            }
        }
        assert(!bomb_at(t, w, h, x, y - 1)) by {
            if g.contains(x, y - 1) {
                assert(!g.tile_at(x, y - 1).value.bomb());
            }
        }
        assert(!bomb_at(t, w, h, x + 1, y - 1)) by {
            if g.contains(x + 1, y - 1) {
                assert(!g.tile_at(x + 1, y - 1).value.bomb());
            }
        }
        assert(!bomb_at(t, w, h, x - 1, y)) by {
            if g.contains(x - 1, y) {
                assert(!g.tile_at(x - 1, y).value.bomb());
            }
        }
        assert(!bomb_at(t, w, h, x + 1, y)) by {
            if g.contains(x + 1, y) {
                assert(!g.tile_at(x + 1, y).value.bomb());
            }
        }
        assert(!bomb_at(t, w, h, x - 1, y + 1)) by {
            if g.contains(x - 1, y + 1) {
                assert(!g.tile_at(x - 1, y + 1).value.bomb());
            }
        }
        assert(!bomb_at(t, w, h, x, y + 1)) by {
            if g.contains(x, y + 1) {
                assert(!g.tile_at(x, y + 1).value.bomb());
            }
        }
        assert(!bomb_at(t, w, h, x + 1, y + 1)) by {
            if g.contains(x + 1, y + 1) {
                assert(!g.tile_at(x + 1, y + 1).value.bomb());
            }
        }
    }
}

/// Every index below `w * h` is the index of a cell of the grid.
pub proof fn lemma_cell_of_index(w: int, h: int, k: int)
    requires
        w > 0,
        0 <= k < w * h,
    ensures
        in_grid(w, h, k % w, k / w),
        cell_index(w, k % w, k / w) == k,
{
    lemma_fundamental_div_mod(k, w);
    let q = k / w;
    assert(w * q == q * w) by (nonlinear_arith);
    if q >= h {
        assert(w * q >= w * h) by (nonlinear_arith)
            requires q >= h, w > 0;
    }
    if q < 0 {
        assert(w * q <= -w) by (nonlinear_arith)
            requires q <= -1, w > 0;
    }
}

/// The configuration and the draws determine the board: two games laid
/// out from the same ones hold the same tiles.
pub proof fn lemma_same_layout(
    g1: &Game,
    g2: &Game,
    w: int,
    h: int,
    bombs: int,
    zone: SafeZone,
    draws: Seq<u64>,
)
    requires
        laid_out(g1, w, h, bombs, zone, draws),
        laid_out(g2, w, h, bombs, zone, draws),
    ensures
        g1.tiles() == g2.tiles(),
{
    let a = g1.tiles();
    let b = g2.tiles();
    assert forall|k: int| 0 <= k < a.len() implies (#[trigger] b[k]).value.bomb()
        == a[k].value.bomb() by {
        assert(a[k].state == TileState::Hidden);
    }
    lemma_same_bombs(a, b, w, h);
    assert forall|k: int| 0 <= k < a.len() implies a[k] == b[k] by {
        lemma_cell_of_index(w, h, k);
        let x = k % w;
        let y = k / w;
        assert(numbered(a, w, h, x, y));
        assert(numbered(b, w, h, x, y));
        assert(adjacent_bombs(b, w, h, x, y) == adjacent_bombs(a, w, h, x, y));
        assert(a[k].state == TileState::Hidden);
        assert(b[k].state == TileState::Hidden);
        assert(b[k].value.bomb() == a[k].value.bomb());
    }
    assert(a =~= b);
}

/// A reveal opens no mine but the one it is aimed at: every other cell
/// that opens touches a cell around which no mine is.
pub proof fn lemma_cascade_spares_mines(
    tiles: Seq<Tile>,
    w: int,
    h: int,
    bombs: int,
    sx: int,
    sy: int,
    x: int,
    y: int,
)
    requires
        board_ok(tiles, w, h, bombs),
        cascades(tiles, w, h, sx, sy, x, y),
        !(x == sx && y == sy),
    ensures
        !tiles[cell_index(w, x, y)].value.bomb(),
{
    let p = choose|p: Seq<(int, int)>|
        #[trigger] cascade_path(tiles, w, h, p) && p[0] == (sx, sy) && p.last() == (x, y);
    assert(p.len() >= 2);
    let i = p.len() - 2;
    let a = p[i].0;
    let b = p[i].1;
    assert(in_grid(w, h, a, b));
    assert(zero_at(tiles, w, a, b) && adjacent(a, b, p[i + 1].0, p[i + 1].1));
    assert(in_grid(w, h, p[i + 1].0, p[i + 1].1));
    assert(numbered(tiles, w, h, a, b));
    assert(adjacent_bombs(tiles, w, h, a, b) == 0);
    assert(!bomb_at(tiles, w, h, x, y));
}

/// A reveal of a cell that has a mine around it, or is a mine, opens that
/// cell alone.
pub proof fn lemma_numbered_cell_opens_alone(
    tiles: Seq<Tile>,
    w: int,
    h: int,
    sx: int,
    sy: int,
    x: int,
    y: int,
)
    requires
        !zero_at(tiles, w, sx, sy),
        cascades(tiles, w, h, sx, sy, x, y),
    ensures
        x == sx && y == sy,
{
    let p = choose|p: Seq<(int, int)>|
        #[trigger] cascade_path(tiles, w, h, p) && p[0] == (sx, sy) && p.last() == (x, y);
    if p.len() > 1 {
        assert(zero_at(tiles, w, p[0].0, p[0].1));
    }
}

/// Two flag toggles on the same cell restore the tiles.
pub proof fn lemma_flag_twice(tiles: Seq<Tile>, w: int, h: int, x: int, y: int)
    requires
        w > 0,
        h > 0,
        tiles.len() == w * h,
    ensures
        flag_toggled(flag_toggled(tiles, w, h, x, y), w, h, x, y) == tiles,
{
    if in_grid(w, h, x, y) {
        lemma_index_in_range(w, h, x, y);
    }
    assert(flag_toggled(flag_toggled(tiles, w, h, x, y), w, h, x, y) =~= tiles);
}

/// A flag toggle leaves an open cell, and the whole board with it, alone.
pub proof fn lemma_flag_open(tiles: Seq<Tile>, w: int, h: int, x: int, y: int)
    requires
        w > 0,
        h > 0,
        tiles.len() == w * h,
        in_grid(w, h, x, y),
        tiles[cell_index(w, x, y)].state == TileState::Open,
    ensures
        flag_toggled(tiles, w, h, x, y) == tiles,
        flag_set(tiles, w, h, x, y, true) == tiles,
        flag_set(tiles, w, h, x, y, false) == tiles,
{
    lemma_index_in_range(w, h, x, y);
    assert(flag_toggled(tiles, w, h, x, y) =~= tiles);
    assert(flag_set(tiles, w, h, x, y, true) =~= tiles);
    assert(flag_set(tiles, w, h, x, y, false) =~= tiles);
}

/// Setting a flag twice is setting it once.
pub proof fn lemma_set_flag_idempotent(tiles: Seq<Tile>, w: int, h: int, x: int, y: int, flag: bool)
    requires
        w > 0,
        h > 0,
        tiles.len() == w * h,
    ensures
        flag_set(flag_set(tiles, w, h, x, y, flag), w, h, x, y, flag) == flag_set(
            tiles,
            w,
            h,
            x,
            y,
            flag,
        ),
{
    if in_grid(w, h, x, y) {
        lemma_index_in_range(w, h, x, y);
    }
    assert(flag_set(flag_set(tiles, w, h, x, y, flag), w, h, x, y, flag) =~= flag_set(
        tiles,
        w,
        h,
        x,
        y,
        flag,
    ));
}

/// An open cell stays open, whatever is revealed or flagged.
pub proof fn lemma_open_is_final(
    tiles: Seq<Tile>,
    w: int,
    h: int,
    x: int,
    y: int,
    a: int,
    b: int,
    flag: bool,
)
    requires
        w > 0,
        h > 0,
        tiles.len() == w * h,
        in_grid(w, h, a, b),
        tiles[cell_index(w, a, b)].state == TileState::Open,
    ensures
        revealed(tiles, w, h, x, y, a, b).state == TileState::Open,
        flag_toggled(tiles, w, h, x, y)[cell_index(w, a, b)].state == TileState::Open,
        flag_set(tiles, w, h, x, y, flag)[cell_index(w, a, b)].state == TileState::Open,
{
    lemma_index_in_range(w, h, a, b);
    if in_grid(w, h, x, y) {
        lemma_index_in_range(w, h, x, y);
    }
}

/// Without a safe zone every cell may hold a mine.
pub proof fn lemma_eligible_anywhere(w: int, n: nat)
    ensures
        eligible(SafeZone::Anywhere, w, n).len() == n,
    decreases n,
{
    if n > 0 {
        lemma_eligible_anywhere(w, (n - 1) as nat);
    }
}

/// A safe cell takes its own index from the pool, and no other.
pub proof fn lemma_eligible_cell(w: int, n: nat, cx: usize, cy: usize)
    requires
        w > 0,
    ensures
        eligible(SafeZone::Cell(cx, cy), w, n).len() == n - unit(
            cx < w && cell_index(w, cx as int, cy as int) < n,
        ),
    decreases n,
{
    if n > 0 {
        lemma_eligible_cell(w, (n - 1) as nat, cx, cy);
        let i = n - 1;
        if i % w == cx && i / w == cy {
            lemma_fundamental_div_mod(i, w);
            lemma_mod_pos_bound(i, w);
            assert(w * (i / w) == (i / w) * w) by (nonlinear_arith);
        }
        if cx < w {
            lemma_coords(w, cx as int, cy as int);
        }
    }
}

/// A grid that fits the machine and holds fewer mines than cells can
/// always be built without a safe zone.
pub proof fn lemma_room_anywhere(w: int, h: int, bombs: int)
    requires
        0 < w,
        0 < h,
        w * h <= usize::MAX,
        0 <= bombs < w * h,
    ensures
        config_error(w, h, bombs, SafeZone::Anywhere, bombs) is None,
{
    lemma_eligible_anywhere(w, (w * h) as nat);
}

/// A grid that fits the machine and holds fewer mines than cells can
/// always be built around a safe cell.
pub proof fn lemma_room_beside_cell(w: int, h: int, bombs: int, cx: usize, cy: usize)
    requires
        0 < w,
        0 < h,
        w * h <= usize::MAX,
        0 <= bombs < w * h,
    ensures
        config_error(w, h, bombs, SafeZone::Cell(cx, cy), bombs) is None,
{
    lemma_eligible_cell(w, (w * h) as nat, cx, cy);
}

/// 1 where the cell at offset `(dx, dy)` from `(cx, cy)` is a cell of the
/// grid's rows with an index below `n`, else 0.
pub open spec fn zone_hit(w: int, cx: int, cy: int, dx: int, dy: int, n: int) -> int {
    unit(0 <= cx + dx < w && 0 <= cell_index(w, cx + dx, cy + dy) < n)
}

/// The number of cells with an index below `n` among `(cx, cy)` and the
/// eight places around it.
pub open spec fn zone_hits(w: int, cx: int, cy: int, n: int) -> int {
    zone_hit(w, cx, cy, -1, -1, n) + zone_hit(w, cx, cy, 0, -1, n) + zone_hit(w, cx, cy, 1, -1, n)
        + zone_hit(w, cx, cy, -1, 0, n) + zone_hit(w, cx, cy, 0, 0, n) + zone_hit(
        w,
        cx,
        cy,
        1,
        0,
        n,
    ) + zone_hit(w, cx, cy, -1, 1, n) + zone_hit(w, cx, cy, 0, 1, n) + zone_hit(w, cx, cy, 1, 1, n)
}

/// A safe neighbourhood takes from the pool no more than its own cells,
/// of which there are at most nine.
pub proof fn lemma_eligible_around(w: int, n: nat, cx: usize, cy: usize)
    requires
        w > 0,
    ensures
        eligible(SafeZone::Around(cx, cy), w, n).len() >= n - zone_hits(w, cx as int, cy as int, n as int),
        zone_hits(w, cx as int, cy as int, n as int) <= 9,
    decreases n,
{
    if n > 0 {
        lemma_eligible_around(w, (n - 1) as nat, cx, cy);
        let i = n - 1;
        let x = i % w;
        let y = i / w;
        let dx = x - cx;
        let dy = y - cy;
        if -1 <= dx <= 1 && -1 <= dy <= 1 {
            lemma_fundamental_div_mod(i, w);
            lemma_mod_pos_bound(i, w);
            assert(w * y == y * w) by (nonlinear_arith);
            assert(cell_index(w, cx + dx, cy + dy) == i);
            assert(zone_hit(w, cx as int, cy as int, dx, dy, n as int) == 1);
            assert(zone_hit(w, cx as int, cy as int, dx, dy, n - 1) == 0);
        }
    }
}

/// A grid that fits the machine and has nine cells more than mines can
/// always be built around a safe neighbourhood.
pub proof fn lemma_room_around(w: int, h: int, bombs: int, cx: usize, cy: usize)
    requires
        0 < w,
        0 < h,
        w * h <= usize::MAX,
        0 <= bombs,
        bombs + 9 <= w * h,
    ensures
        config_error(w, h, bombs, SafeZone::Around(cx, cy), bombs) is None,
{
    lemma_eligible_around(w, (w * h) as nat, cx, cy);
}

/// A constructor with a seed returns a game for every configuration that
/// is in order.
pub proof fn lemma_seeded_game_is_returned(
    r: Result<Game, ConfigError>,
    w: int,
    h: int,
    bombs: int,
    zone: SafeZone,
)
    requires
        built(r, w, h, bombs, zone),
        config_error(w, h, bombs, zone, bombs) is None,
    ensures
        r is Ok,
{
}

/// A constructor without a seed returns a game for every configuration
/// that is in order, unless mines are to be drawn and the system gives no
/// random numbers.
pub proof fn lemma_chance_game_is_returned(
    r: Result<Game, ConfigError>,
    w: int,
    h: int,
    bombs: int,
    zone: SafeZone,
)
    requires
        built_by_chance(r, w, h, bombs, zone),
        config_error(w, h, bombs, zone, bombs) is None,
    ensures
        r is Ok || (bombs > 0 && r == Err::<Game, ConfigError>(ConfigError::NoEntropy)),
{
}

} // verus!
