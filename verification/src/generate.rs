//! Board generation: which cells may hold a mine, which of them are drawn,
//! and the numbers on the cells in between.

use vstd::prelude::*;
use crate::tile::{Tile, TileState, TileValue};
use crate::grid::{
    adjacent_bombs, bomb_at, cell_index, count_bombs, in_grid, lemma_coords,
    lemma_count_bombs_update, lemma_index_distinct, lemma_index_in_range, unit,
};
use crate::game::{lemma_same_bombs, numbered, Game};

verus! {

/// The cells that must stay free of mines.
#[derive(Clone, Copy, Debug, PartialEq, Eq, Structural)]
pub enum SafeZone {
    /// No constraint.
    Anywhere,
    /// One cell.
    Cell(usize, usize),
    /// One cell and the cells around it.
    Around(usize, usize),
}

/// Why a board cannot be built.
#[derive(Clone, Copy, Debug, PartialEq, Eq, Structural)]
pub enum ConfigError {
    /// The width or the height is zero.
    EmptyGrid,
    /// The number of cells does not fit the machine's word.
    GridTooLarge,
    /// There are at least as many mines as cells.
    TooManyBombs,
    /// The safe zone leaves fewer cells than there are mines.
    ZoneTooLarge,
    /// Fewer random draws than mines were supplied.
    TooFewDraws,
    /// The system gave no random numbers to draw the mines with.
    NoEntropy,
}

/// Whether `(x, y)` lies in the safe zone.
pub open spec fn excluded(zone: SafeZone, x: int, y: int) -> bool {
    match zone {
        SafeZone::Anywhere => false,
        SafeZone::Cell(cx, cy) => x == cx && y == cy,
        SafeZone::Around(cx, cy) => -1 <= x - cx <= 1 && -1 <= y - cy <= 1,
    }
}

/// The cells with an index below `n` that may hold a mine, in rising order.
pub open spec fn eligible(zone: SafeZone, w: int, n: nat) -> Seq<usize>
    decreases n,
{
    if n == 0 {
        Seq::empty()
    } else {
        let rest = eligible(zone, w, (n - 1) as nat);
        if excluded(zone, (n - 1) % w, (n - 1) / w) {
            rest
        } else {
            rest.push((n - 1) as usize)
        }
    }
}

/// The partner of position `i` in a pool of `len` cells for a given draw.
pub open spec fn pick(i: int, len: int, draw: u64) -> int {
    i + (draw as int) % (len - i)
}

/// The sequence with the entries at `i` and `j` exchanged.
pub open spec fn swapped(s: Seq<usize>, i: int, j: int) -> Seq<usize> {
    s.update(i, s[j]).update(j, s[i])
}

/// The pool after `k` steps of the partial shuffle: step `i` exchanges
/// position `i` with the partner that draw `i` picks at or behind it.
pub open spec fn drawn(pool: Seq<usize>, draws: Seq<u64>, k: nat) -> Seq<usize>
    decreases k,
{
    if k == 0 {
        pool
    } else {
        let p = drawn(pool, draws, (k - 1) as nat);
        swapped(p, k - 1, pick(k - 1, p.len() as int, draws[k - 1]))
    }
}

/// Whether cell `k` stands among the first `n` of the pool.
pub open spec fn among(pool: Seq<usize>, n: int, k: int) -> bool {
    exists|a: int| 0 <= a < n && #[trigger] pool[a] as int == k
}

/// Whether cell `k` receives a mine.
pub open spec fn mined(zone: SafeZone, w: int, h: int, bombs: int, draws: Seq<u64>, k: int) -> bool {
    among(drawn(eligible(zone, w, (w * h) as nat), draws, bombs as nat), bombs, k)
}

/// The error, if any, that a configuration gives. It is never
/// `NoEntropy`: that one comes from the system, not from the configuration.
pub open spec fn config_error(
    w: int,
    h: int,
    bombs: int,
    zone: SafeZone,
    n_draws: int,
) -> Option<ConfigError> {
    if w == 0 || h == 0 {
        Some(ConfigError::EmptyGrid)
    } else if w * h > usize::MAX {
        Some(ConfigError::GridTooLarge)
    } else if bombs >= w * h {
        Some(ConfigError::TooManyBombs)
    } else if eligible(zone, w, (w * h) as nat).len() < bombs {
        Some(ConfigError::ZoneTooLarge)
    } else if n_draws < bombs {
        Some(ConfigError::TooFewDraws)
    } else {
        None
    }
}

/// The board that a configuration and its draws determine: every tile
/// hidden, and a mine exactly on the drawn cells.
pub open spec fn laid_out(
    g: &Game,
    w: int,
    h: int,
    bombs: int,
    zone: SafeZone,
    draws: Seq<u64>,
) -> bool {
    &&& g.wf()
    &&& g.spec_width() == w
    &&& g.spec_height() == h
    &&& g.spec_bombs() == bombs
    &&& forall|k: int|
        0 <= k < w * h ==> (#[trigger] g.tiles()[k]).state == TileState::Hidden && (
        g.tiles()[k].value.bomb() <==> mined(zone, w, h, bombs, draws, k))
}

/// Every eligible cell lies below the bound and outside the zone, and the
/// pool holds no cell twice.
pub proof fn lemma_eligible(zone: SafeZone, w: int, n: nat)
    requires
        n <= usize::MAX,
    ensures
        eligible(zone, w, n).len() <= n,
        forall|a: int|
            0 <= a < eligible(zone, w, n).len() ==> (#[trigger] eligible(zone, w, n)[a]) < n
                && !excluded(
                zone,
                eligible(zone, w, n)[a] as int % w,
                eligible(zone, w, n)[a] as int / w,
            ),
        forall|a: int, b: int|
            0 <= a < b < eligible(zone, w, n).len() ==> #[trigger] eligible(zone, w, n)[a]
                != #[trigger] eligible(zone, w, n)[b],
    decreases n,
{
    if n > 0 {
        lemma_eligible(zone, w, (n - 1) as nat);
        let rest = eligible(zone, w, (n - 1) as nat);
        let pool = eligible(zone, w, n);
        if excluded(zone, (n - 1) % w, (n - 1) / w) {
            assert(pool == rest);
        } else {
            assert(pool == rest.push((n - 1) as usize));
            assert forall|a: int| 0 <= a < pool.len() implies (#[trigger] pool[a]) < n
                && !excluded(zone, pool[a] as int % w, pool[a] as int / w) by {
                if a < rest.len() {
                    assert(pool[a] == rest[a]);
                }
            }
            assert forall|a: int, b: int| 0 <= a < b < pool.len() implies #[trigger] pool[a]
                != #[trigger] pool[b] by {
                assert(pool[a] == rest[a]);
                if b < rest.len() {
                    assert(pool[b] == rest[b]);
                }
            }
        }
    }
}

fn is_excluded(zone: SafeZone, x: usize, y: usize) -> (r: bool)
    ensures
        r == excluded(zone, x as int, y as int),
{
    match zone {
        SafeZone::Anywhere => false,
        SafeZone::Cell(cx, cy) => x == cx && y == cy,
        SafeZone::Around(cx, cy) => {
            let near_x = if x >= cx { x - cx <= 1 } else { cx - x <= 1 };
            let near_y = if y >= cy { y - cy <= 1 } else { cy - y <= 1 };
            near_x && near_y
        },
    }
}

/// Collects the cells that may hold a mine.
fn eligible_cells(zone: SafeZone, width: usize, total: usize) -> (pool: Vec<usize>)
    requires
        width > 0,
    ensures
        pool@ == eligible(zone, width as int, total as nat),
{
    let mut pool: Vec<usize> = Vec::new();
    let mut n: usize = 0;
    while n < total
        invariant
            width > 0,
            n <= total,
            pool@ == eligible(zone, width as int, n as nat),
        decreases total - n,
    {
        if !is_excluded(zone, n % width, n / width) {
            pool.push(n);
        }
        n += 1;
    }
    pool
}

/// A row of `total` hidden tiles without mines.
fn blank_tiles(total: usize) -> (tiles: Vec<Tile>)
    ensures
        tiles@.len() == total,
        count_bombs(tiles@) == 0,
        forall|k: int|
            0 <= k < total ==> #[trigger] tiles@[k] == (Tile {
                state: TileState::Hidden,
                value: TileValue::Safe(0),
            }),
{
    let mut tiles: Vec<Tile> = Vec::new();
    let mut n: usize = 0;
    while n < total
        invariant
            n <= total,
            tiles@.len() == n,
            count_bombs(tiles@) == 0,
            forall|k: int|
                0 <= k < n ==> #[trigger] tiles@[k] == (Tile {
                    state: TileState::Hidden,
                    value: TileValue::Safe(0),
                }),
        decreases total - n,
    {
        let ghost before = tiles@;
        tiles.push(Tile { state: TileState::Hidden, value: TileValue::Safe(0) });
        proof {
            assert(tiles@.drop_last() =~= before);
        }
        n += 1;
    }
    tiles
}

/// Whether the neighbour of `(x, y)` at offset `(dx - 1, dy - 1)` holds a
/// mine, as 0 or 1.
fn probe(tiles: &Vec<Tile>, width: usize, height: usize, x: usize, y: usize, dx: usize, dy: usize) -> (r: u8)
    requires
        tiles@.len() == width * height,
        x < width,
        y < height,
        dx <= 2,
        dy <= 2,
    ensures
        r as int == unit(bomb_at(tiles@, width as int, height as int, x + dx - 1, y + dy - 1)),
{
    if (dx == 0 && x == 0) || (dy == 0 && y == 0) {
        return 0;
    }
    if (dx == 2 && x >= width - 1) || (dy == 2 && y >= height - 1) {
        return 0;
    }
    let nx: usize = if dx == 0 { x - 1 } else { x + (dx - 1) };
    let ny: usize = if dy == 0 { y - 1 } else { y + (dy - 1) };
    let total: usize = tiles.len();
    proof {
        lemma_index_in_range(width as int, height as int, nx as int, ny as int);
        assert(ny * width >= 0) by (nonlinear_arith)
            requires ny >= 0, width > 0;
    }
    if tiles[ny * width + nx].value.is_bomb() {
        1
    } else {
        0
    }
}

/// The number of mines around `(x, y)`.
fn count_around(tiles: &Vec<Tile>, width: usize, height: usize, x: usize, y: usize) -> (n: u8)
    requires
        tiles@.len() == width * height,
        x < width,
        y < height,
    ensures
        n as int == adjacent_bombs(tiles@, width as int, height as int, x as int, y as int),
{
    let a: u8 = probe(tiles, width, height, x, y, 0, 0);
    let b: u8 = probe(tiles, width, height, x, y, 1, 0);
    let c: u8 = probe(tiles, width, height, x, y, 2, 0);
    let d: u8 = probe(tiles, width, height, x, y, 0, 1);
    let e: u8 = probe(tiles, width, height, x, y, 2, 1);
    let f: u8 = probe(tiles, width, height, x, y, 0, 2);
    let g: u8 = probe(tiles, width, height, x, y, 1, 2);
    let h: u8 = probe(tiles, width, height, x, y, 2, 2);
    a + b + c + d + e + f + g + h
}

/// What the shuffle keeps true of the pool: its cells lie in the grid and
/// outside the zone, and none occurs twice.
pub open spec fn pool_ok(pool: Seq<usize>, zone: SafeZone, w: int, total: int) -> bool {
    &&& forall|a: int|
        0 <= a < pool.len() ==> (#[trigger] pool[a]) < total && !excluded(
            zone,
            pool[a] as int % w,
            pool[a] as int / w,
        )
    &&& forall|a: int, b: int|
        0 <= a < b < pool.len() ==> #[trigger] pool[a] != #[trigger] pool[b]
}

/// Draws `bombs` cells from the pool by a partial shuffle and puts a mine
/// on each.
fn place_mines(
    pool: Vec<usize>,
    tiles: Vec<Tile>,
    bombs: usize,
    draws: &Vec<u64>,
    Ghost(zone): Ghost<SafeZone>,
    Ghost(w): Ghost<int>,
) -> (r: (Vec<usize>, Vec<Tile>))
    requires
        pool_ok(pool@, zone, w, tiles@.len() as int),
        bombs <= pool@.len(),
        bombs <= draws@.len(),
        count_bombs(tiles@) == 0,
        forall|k: int|
            0 <= k < tiles@.len() ==> #[trigger] tiles@[k] == (Tile {
                state: TileState::Hidden,
                value: TileValue::Safe(0),
            }),
    ensures
        r.0@ == drawn(pool@, draws@, bombs as nat),
        pool_ok(r.0@, zone, w, tiles@.len() as int),
        r.0@.len() == pool@.len(),
        r.1@.len() == tiles@.len(),
        count_bombs(r.1@) == bombs,
        forall|k: int|
            0 <= k < tiles@.len() ==> (#[trigger] r.1@[k]).state == TileState::Hidden && (
            r.1@[k].value.bomb() <==> among(r.0@, bombs as int, k)),
{
    let ghost pool0 = pool@;
    let ghost total = tiles@.len() as int;
    let mut pool = pool;
    let mut tiles = tiles;
    let mut i: usize = 0;
    while i < bombs
        invariant
            i <= bombs,
            bombs <= pool@.len(),
            bombs <= draws@.len(),
            pool@.len() == pool0.len(),
            pool@ == drawn(pool0, draws@, i as nat),
            pool_ok(pool@, zone, w, total),
            tiles@.len() == total,
            count_bombs(tiles@) == i,
            forall|k: int|
                0 <= k < total ==> (#[trigger] tiles@[k]).state == TileState::Hidden && (
                tiles@[k].value.bomb() <==> among(pool@, i as int, k)),
        decreases bombs - i,
    {
        let len: usize = pool.len();
        let span: usize = len - i;
        let j: usize = i + (draws[i] % (span as u64)) as usize;
        let first: usize = pool[i];
        let cell: usize = pool[j];
        let ghost prev = pool@;
        let ghost before = tiles@;
        pool[i] = cell;
        pool[j] = first;
        tiles[cell] = Tile { state: TileState::Hidden, value: TileValue::Bomb };
        proof {
            assert(j as int == pick(i as int, len as int, draws@[i as int]));
            assert(pool@ =~= swapped(prev, i as int, j as int));
            assert(pool@ == drawn(pool0, draws@, (i + 1) as nat));
            assert forall|a: int| 0 <= a < pool@.len() implies (#[trigger] pool@[a]) < total
                && !excluded(zone, pool@[a] as int % w, pool@[a] as int / w) by {
                if a == i {
                    assert(pool@[a] == prev[j as int]);
                } else if a == j {
                    assert(pool@[a] == prev[i as int]);
                } else {
                    assert(pool@[a] == prev[a]);
                }
            }
            assert forall|a: int, b: int| 0 <= a < b < pool@.len() implies #[trigger] pool@[a]
                != #[trigger] pool@[b] by {
                let pa = if a == i { j as int } else if a == j { i as int } else { a };
                let pb = if b == i { j as int } else if b == j { i as int } else { b };
                assert(pool@[a] == prev[pa]);
                assert(pool@[b] == prev[pb]);
                if pa < pb {
                    assert(prev[pa] != prev[pb]);
                } else {
                    assert(prev[pb] != prev[pa]);
                }
            }
            if among(prev, i as int, cell as int) {
                let a = choose|a: int| 0 <= a < i && #[trigger] prev[a] as int == cell as int;
                assert(prev[a] != prev[j as int]);
            }
            lemma_count_bombs_update(
                before,
                cell as int,
                Tile { state: TileState::Hidden, value: TileValue::Bomb },
            );
            assert forall|k: int| 0 <= k < total implies (#[trigger] tiles@[k]).state
                == TileState::Hidden && (tiles@[k].value.bomb() <==> among(
                pool@,
                i as int + 1,
                k,
            )) by {
                if k == cell as int {
                    assert(pool@[i as int] as int == k);
                } else {
                    assert(tiles@[k] == before[k]);
                    if among(prev, i as int, k) {
                        let a = choose|a: int| 0 <= a < i && #[trigger] prev[a] as int == k;
                        assert(pool@[a] == prev[a]);
                    }
                    if among(pool@, i as int + 1, k) {
                        let a = choose|a: int| 0 <= a < i + 1 && #[trigger] pool@[a] as int == k;
                        assert(a != i);
                        assert(pool@[a] == prev[a]);
                    }
                }
            }
        }
        i += 1;
    }
    (pool, tiles)
}

/// Writes on every mine-free tile the number of mines around it.
fn number_tiles(tiles: Vec<Tile>, width: usize, height: usize) -> (out: Vec<Tile>)
    requires
        width > 0,
        height > 0,
        tiles@.len() == width * height,
        forall|k: int| 0 <= k < tiles@.len() ==> (#[trigger] tiles@[k]).state == TileState::Hidden,
    ensures
        out@.len() == tiles@.len(),
        count_bombs(out@) == count_bombs(tiles@),
        forall|k: int|
            0 <= k < tiles@.len() ==> (#[trigger] out@[k]).state == TileState::Hidden
                && out@[k].value.bomb() == tiles@[k].value.bomb(),
        forall|x: int, y: int|
            in_grid(width as int, height as int, x, y) ==> #[trigger] numbered(
                out@,
                width as int,
                height as int,
                x,
                y,
            ),
{
    let ghost start = tiles@;
    let ghost w = width as int;
    let ghost h = height as int;
    let mut tiles = tiles;
    let mut y: usize = 0;
    while y < height
        invariant
            w == width as int,
            h == height as int,
            width > 0,
            height > 0,
            y <= height,
            start.len() == w * h,
            tiles@.len() == start.len(),
            count_bombs(tiles@) == count_bombs(start),
            forall|k: int|
                0 <= k < start.len() ==> (#[trigger] tiles@[k]).state == TileState::Hidden
                    && tiles@[k].value.bomb() == start[k].value.bomb(),
            forall|a: int, b: int|
                in_grid(w, h, a, b) && b < y ==> #[trigger] numbered(tiles@, w, h, a, b),
        decreases height - y,
    {
        let mut x: usize = 0;
        while x < width
            invariant
                w == width as int,
                h == height as int,
                width > 0,
                height > 0,
                y < height,
                x <= width,
                start.len() == w * h,
                tiles@.len() == start.len(),
                count_bombs(tiles@) == count_bombs(start),
                forall|k: int|
                    0 <= k < start.len() ==> (#[trigger] tiles@[k]).state == TileState::Hidden
                        && tiles@[k].value.bomb() == start[k].value.bomb(),
                forall|a: int, b: int|
                    in_grid(w, h, a, b) && (b < y || (b == y && a < x)) ==> #[trigger] numbered(
                        tiles@,
                        w,
                        h,
                        a,
                        b,
                    ),
            decreases width - x,
        {
            let total: usize = tiles.len();
            proof {
                lemma_index_in_range(w, h, x as int, y as int);
                assert(y * width >= 0) by (nonlinear_arith)
                    requires y >= 0, width > 0;
            }
            let i: usize = y * width + x;
            if !tiles[i].value.is_bomb() {
                let n: u8 = count_around(&tiles, width, height, x, y);
                let ghost before = tiles@;
                let t = Tile { state: TileState::Hidden, value: TileValue::Safe(n) };
                tiles[i] = t;
                proof {
                    lemma_count_bombs_update(before, i as int, t);
                    lemma_same_bombs(before, tiles@, w, h);
                    lemma_index_distinct(w, x as int, y as int);
                    assert forall|a: int, b: int|
                        in_grid(w, h, a, b) && (b < y || (b == y && a < x + 1)) implies #[trigger] numbered(
                        tiles@,
                        w,
                        h,
                        a,
                        b,
                    ) by {
                        lemma_index_in_range(w, h, a, b);
                        assert(adjacent_bombs(tiles@, w, h, a, b) == adjacent_bombs(
                            before,
                            w,
                            h,
                            a,
                            b,
                        ));
                        if a == x && b == y {
                        } else {
                            assert(cell_index(w, a, b) != cell_index(w, x as int, y as int));
                            assert(numbered(before, w, h, a, b));
                        }
                    }
                }
            }
            x += 1;
        }
        y += 1;
    }
    tiles
}

/// Checks a configuration and collects the cells that may hold a mine.
pub(crate) fn checked_pool(width: usize, height: usize, bombs: usize, zone: SafeZone) -> (r: Result<
    Vec<usize>,
    ConfigError,
>)
    ensures
        match r {
            Ok(pool) => {
                &&& config_error(width as int, height as int, bombs as int, zone, bombs as int)
                    is None
                &&& pool@ == eligible(zone, width as int, (width * height) as nat)
            },
            Err(e) => config_error(width as int, height as int, bombs as int, zone, bombs as int)
                == Some(e),
        },
{
    if width == 0 || height == 0 {
        return Err(ConfigError::EmptyGrid);
    }
    let total: usize = match width.checked_mul(height) {
        Some(t) => t,
        None => { return Err(ConfigError::GridTooLarge); },
    };
    if bombs >= total {
        return Err(ConfigError::TooManyBombs);
    }
    let pool = eligible_cells(zone, width, total);
    if pool.len() < bombs {
        return Err(ConfigError::ZoneTooLarge);
    }
    Ok(pool)
}

/// Lays the mines of a checked configuration out by the draws and numbers
/// the cells between them.
pub(crate) fn lay_out(
    width: usize,
    height: usize,
    bombs: usize,
    zone: SafeZone,
    pool: Vec<usize>,
    draws: &Vec<u64>,
) -> (g: Game)
    requires
        config_error(width as int, height as int, bombs as int, zone, draws@.len() as int) is None,
        pool@ == eligible(zone, width as int, (width * height) as nat),
    ensures
        laid_out(&g, width as int, height as int, bombs as int, zone, draws@),
        forall|x: int, y: int|
            g.contains(x, y) && excluded(zone, x, y) ==> !(#[trigger] g.tile_at(x, y)).value.bomb(),
{
    let total: usize = width * height;
    proof {
        lemma_eligible(zone, width as int, total as nat);
    }
    let blank = blank_tiles(total);
    let (chosen, marked) = place_mines(pool, blank, bombs, draws, Ghost(zone), Ghost(width as int));
    let tiles = number_tiles(marked, width, height);
    let g = Game::assemble(width, height, bombs, tiles);
    proof {
        let w = width as int;
        assert forall|x: int, y: int| g.contains(x, y) && excluded(zone, x, y) implies !(
        #[trigger] g.tile_at(x, y)).value.bomb() by {
            lemma_index_in_range(w, height as int, x, y);
            lemma_coords(w, x, y);
            let k = cell_index(w, x, y);
            if tiles@[k].value.bomb() {
                assert(marked@[k].value.bomb());
                let a = choose|a: int| 0 <= a < bombs && #[trigger] chosen@[a] as int == k;
                assert(!excluded(zone, chosen@[a] as int % w, chosen@[a] as int / w));
            }
        }
    }
    g
}

/// Checks a configuration without building the board.
pub fn validate(width: usize, height: usize, bombs: usize, zone: SafeZone) -> (r: Result<
    (),
    ConfigError,
>)
    ensures
        r == (match config_error(width as int, height as int, bombs as int, zone, bombs as int) {
            Some(e) => Err::<(), ConfigError>(e),
            None => Ok(()),
        }),
{
    match checked_pool(width, height, bombs, zone) {
        Ok(_) => Ok(()),
        Err(e) => Err(e),
    }
}

/// Builds the board that a configuration and a list of random draws
/// determine. Draw `i` decides which of the cells not yet chosen receives
/// mine `i`; draws beyond the number of mines are ignored.
pub fn from_draws(width: usize, height: usize, bombs: usize, zone: SafeZone, draws: &Vec<u64>) -> (r:
    Result<Game, ConfigError>)
    ensures
        match r {
            Ok(g) => {
                &&& config_error(
                    width as int,
                    height as int,
                    bombs as int,
                    zone,
                    draws@.len() as int,
                ) is None
                &&& laid_out(&g, width as int, height as int, bombs as int, zone, draws@)
                &&& forall|x: int, y: int|
                    g.contains(x, y) && excluded(zone, x, y) ==> !(#[trigger] g.tile_at(
                        x,
                        y,
                    )).value.bomb()
            },
            Err(e) => config_error(
                width as int,
                height as int,
                bombs as int,
                zone,
                draws@.len() as int,
            ) == Some(e),
        },
{
    let pool = match checked_pool(width, height, bombs, zone) {
        Ok(pool) => pool,
        Err(e) => { return Err(e); },
    };
    if draws.len() < bombs {
        return Err(ConfigError::TooFewDraws);
    }
    Ok(lay_out(width, height, bombs, zone, pool, draws))
}

} // verus!
