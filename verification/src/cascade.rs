//! The cascade of a reveal: which cells open, and why the work list that
//! opens them reaches exactly those.

use vstd::prelude::*;
use crate::tile::{Tile, TileState, TileValue};
use crate::grid::{
    adjacent, cell_index, count_hidden, in_grid, lemma_count_hidden_update, lemma_index_distinct,
    lemma_index_in_range,
};

verus! {

/// Whether the tile at `(x, y)` is hidden.
pub open spec fn hidden_at(tiles: Seq<Tile>, w: int, x: int, y: int) -> bool {
    tiles[cell_index(w, x, y)].state == TileState::Hidden
}

/// Whether the tile at `(x, y)` is mine-free with no mine around it.
pub open spec fn zero_at(tiles: Seq<Tile>, w: int, x: int, y: int) -> bool {
    tiles[cell_index(w, x, y)].value == TileValue::Safe(0)
}

/// A chain along which a reveal spreads: every cell of it is hidden and in
/// the grid, and every cell but the last has no mine around it and touches
/// the next.
pub open spec fn cascade_path(tiles: Seq<Tile>, w: int, h: int, path: Seq<(int, int)>) -> bool {
    &&& path.len() > 0
    &&& forall|i: int|
        0 <= i < path.len() ==> in_grid(w, h, (#[trigger] path[i]).0, path[i].1) && hidden_at(
            tiles,
            w,
            path[i].0,
            path[i].1,
        )
    &&& forall|i: int|
        0 <= i < path.len() - 1 ==> zero_at(tiles, w, (#[trigger] path[i]).0, path[i].1)
            && adjacent(path[i].0, path[i].1, path[i + 1].0, path[i + 1].1)
}

/// Whether a reveal of the hidden cell `(sx, sy)` opens `(x, y)`.
pub open spec fn cascades(tiles: Seq<Tile>, w: int, h: int, sx: int, sy: int, x: int, y: int) -> bool {
    exists|path: Seq<(int, int)>|
        #[trigger] cascade_path(tiles, w, h, path) && path[0] == (sx, sy) && path.last() == (x, y)
}

/// Whether `(x, y)` was hidden before and is open now.
pub open spec fn opened(before: Seq<Tile>, now: Seq<Tile>, w: int, x: int, y: int) -> bool {
    hidden_at(before, w, x, y) && now[cell_index(w, x, y)].state == TileState::Open
}

/// Whether the neighbour `(nx, ny)` of `(x, y)` has been dealt with.
pub open spec fn settled(
    before: Seq<Tile>,
    now: Seq<Tile>,
    w: int,
    h: int,
    x: int,
    y: int,
    nx: int,
    ny: int,
) -> bool {
    in_grid(w, h, nx, ny) && adjacent(x, y, nx, ny) && hidden_at(before, w, nx, ny) ==> now[cell_index(
        w,
        nx,
        ny,
    )].state == TileState::Open
}

/// Whether `(x, y)` waits on the work list.
pub open spec fn queued(pending: Seq<(usize, usize)>, x: int, y: int) -> bool {
    exists|i: int| 0 <= i < pending.len() && (#[trigger] pending[i]).0 == x && pending[i].1 == y
}

/// The place of a neighbour among the nine cells around `(x, y)`, row by row.
pub open spec fn rank(x: int, y: int, nx: int, ny: int) -> int {
    (ny - y + 1) * 3 + (nx - x + 1)
}

/// What holds between two steps of the work list.
pub open spec fn spreading(
    before: Seq<Tile>,
    now: Seq<Tile>,
    w: int,
    h: int,
    sx: int,
    sy: int,
    pending: Seq<(usize, usize)>,
    busy: Option<(int, int)>,
) -> bool {
    &&& w > 0
    &&& h > 0
    &&& before.len() == w * h
    &&& now.len() == before.len()
    &&& in_grid(w, h, sx, sy)
    &&& opened(before, now, w, sx, sy)
    &&& forall|k: int| 0 <= k < before.len() ==> (#[trigger] now[k]).value == before[k].value
    &&& forall|a: int, b: int|
        in_grid(w, h, a, b) ==> (#[trigger] opened(before, now, w, a, b)) || now[cell_index(w, a, b)]
            == before[cell_index(w, a, b)]
    &&& forall|a: int, b: int|
        in_grid(w, h, a, b) && #[trigger] opened(before, now, w, a, b) ==> cascades(
            before,
            w,
            h,
            sx,
            sy,
            a,
            b,
        )
    &&& forall|i: int|
        0 <= i < pending.len() ==> in_grid(w, h, (#[trigger] pending[i]).0 as int, pending[i].1 as int)
            && opened(before, now, w, pending[i].0 as int, pending[i].1 as int) && zero_at(
            before,
            w,
            pending[i].0 as int,
            pending[i].1 as int,
        )
    &&& forall|a: int, b: int, c: int, d: int|
        in_grid(w, h, a, b) && opened(before, now, w, a, b) && zero_at(before, w, a, b) && !queued(
            pending,
            a,
            b,
        ) && busy != Some((a, b)) ==> #[trigger] settled(before, now, w, h, a, b, c, d)
}

/// What holds while the neighbours of `(cx, cy)` are visited, the first `k`
/// of them done.
pub open spec fn visiting(
    before: Seq<Tile>,
    now: Seq<Tile>,
    w: int,
    h: int,
    sx: int,
    sy: int,
    pending: Seq<(usize, usize)>,
    cx: int,
    cy: int,
    k: int,
) -> bool {
    &&& spreading(before, now, w, h, sx, sy, pending, Some((cx, cy)))
    &&& in_grid(w, h, cx, cy)
    &&& opened(before, now, w, cx, cy)
    &&& zero_at(before, w, cx, cy)
    &&& forall|c: int, d: int|
        rank(cx, cy, c, d) < k ==> #[trigger] settled(before, now, w, h, cx, cy, c, d)
}

/// Opening the start cell begins the cascade.
pub proof fn lemma_start(before: Seq<Tile>, now: Seq<Tile>, w: int, h: int, sx: int, sy: int, pending: Seq<(usize, usize)>)
    requires
        w > 0,
        h > 0,
        before.len() == w * h,
        in_grid(w, h, sx, sy),
        hidden_at(before, w, sx, sy),
        now == before.update(
            cell_index(w, sx, sy),
            Tile { state: TileState::Open, value: before[cell_index(w, sx, sy)].value },
        ),
        zero_at(before, w, sx, sy) ==> pending.len() == 1 && pending[0].0 == sx && pending[0].1 == sy,
        !zero_at(before, w, sx, sy) ==> pending.len() == 0,
    ensures
        spreading(before, now, w, h, sx, sy, pending, None),
        count_hidden(now) == count_hidden(before) - 1,
{
    lemma_index_in_range(w, h, sx, sy);
    lemma_index_distinct(w, sx, sy);
    lemma_count_hidden_update(
        before,
        cell_index(w, sx, sy),
        Tile { state: TileState::Open, value: before[cell_index(w, sx, sy)].value },
    );
    let alone = seq![(sx, sy)];
    assert(cascade_path(before, w, h, alone));
    assert(alone[0] == (sx, sy) && alone.last() == (sx, sy));
    assert(cascades(before, w, h, sx, sy, sx, sy));
    assert forall|a: int, b: int| in_grid(w, h, a, b) implies (#[trigger] opened(
        before,
        now,
        w,
        a,
        b,
    )) || now[cell_index(w, a, b)] == before[cell_index(w, a, b)] by {
        lemma_index_in_range(w, h, a, b);
        if !(a == sx && b == sy) {
            assert(cell_index(w, a, b) != cell_index(w, sx, sy));
        }
    }
    assert forall|a: int, b: int| in_grid(w, h, a, b) && #[trigger] opened(
        before,
        now,
        w,
        a,
        b,
    ) implies cascades(before, w, h, sx, sy, a, b) by {
        lemma_index_in_range(w, h, a, b);
        if !(a == sx && b == sy) {
            assert(cell_index(w, a, b) != cell_index(w, sx, sy));
        }
    }
    assert forall|a: int, b: int, c: int, d: int|
        in_grid(w, h, a, b) && opened(before, now, w, a, b) && zero_at(before, w, a, b) && !queued(
            pending,
            a,
            b,
        ) implies #[trigger] settled(before, now, w, h, a, b, c, d) by {
        lemma_index_in_range(w, h, a, b);
        if !(a == sx && b == sy) {
            assert(cell_index(w, a, b) != cell_index(w, sx, sy));
        } else {
            assert(pending[0].0 == sx);
            assert(queued(pending, a, b));
        }
    }
}

/// Taking the last cell off the work list begins its visit.
pub proof fn lemma_take(
    before: Seq<Tile>,
    now: Seq<Tile>,
    w: int,
    h: int,
    sx: int,
    sy: int,
    pending: Seq<(usize, usize)>,
)
    requires
        spreading(before, now, w, h, sx, sy, pending, None),
        pending.len() > 0,
    ensures
        visiting(
            before,
            now,
            w,
            h,
            sx,
            sy,
            pending.drop_last(),
            pending.last().0 as int,
            pending.last().1 as int,
            0,
        ),
{
    let rest = pending.drop_last();
    let cx = pending.last().0 as int;
    let cy = pending.last().1 as int;
    assert(pending[pending.len() - 1] == pending.last());
    assert forall|i: int| 0 <= i < rest.len() implies in_grid(
        w,
        h,
        (#[trigger] rest[i]).0 as int,
        rest[i].1 as int,
    ) && opened(before, now, w, rest[i].0 as int, rest[i].1 as int) && zero_at(
        before,
        w,
        rest[i].0 as int,
        rest[i].1 as int,
    ) by {
        assert(rest[i] == pending[i]);
    }
    assert forall|a: int, b: int, c: int, d: int|
        in_grid(w, h, a, b) && opened(before, now, w, a, b) && zero_at(before, w, a, b) && !queued(
            rest,
            a,
            b,
        ) && Some((cx, cy)) != Some((a, b)) implies #[trigger] settled(
        before,
        now,
        w,
        h,
        a,
        b,
        c,
        d,
    ) by {
        if queued(pending, a, b) {
            let i = choose|i: int|
                0 <= i < pending.len() && (#[trigger] pending[i]).0 == a && pending[i].1 == b;
            assert(i < rest.len());
            assert(rest[i] == pending[i]);
            assert(queued(rest, a, b));
        }
    }
}

/// A neighbour that lies outside the grid or is not hidden needs no work.
pub proof fn lemma_pass(
    before: Seq<Tile>,
    now: Seq<Tile>,
    w: int,
    h: int,
    sx: int,
    sy: int,
    pending: Seq<(usize, usize)>,
    cx: int,
    cy: int,
    k: int,
)
    requires
        visiting(before, now, w, h, sx, sy, pending, cx, cy, k),
        0 <= k < 9,
        !in_grid(w, h, cx + k % 3 - 1, cy + k / 3 - 1) || !hidden_at(
            now,
            w,
            cx + k % 3 - 1,
            cy + k / 3 - 1,
        ),
    ensures
        visiting(before, now, w, h, sx, sy, pending, cx, cy, k + 1),
{
    let nx = cx + k % 3 - 1;
    let ny = cy + k / 3 - 1;
    assert forall|c: int, d: int| rank(cx, cy, c, d) < k + 1 implies #[trigger] settled(
        before,
        now,
        w,
        h,
        cx,
        cy,
        c,
        d,
    ) by {
        if rank(cx, cy, c, d) == k && adjacent(cx, cy, c, d) && in_grid(w, h, c, d) {
            assert(c == nx && d == ny);
            assert(opened(before, now, w, c, d) || now[cell_index(w, c, d)] == before[cell_index(
                w,
                c,
                d,
            )]);
        }
    }
}

/// Opening a hidden neighbour, and queueing it where no mine is around it,
/// keeps the visit in order and leaves one hidden tile fewer.
pub proof fn lemma_open(
    before: Seq<Tile>,
    now: Seq<Tile>,
    next: Seq<Tile>,
    w: int,
    h: int,
    sx: int,
    sy: int,
    pending: Seq<(usize, usize)>,
    grown: Seq<(usize, usize)>,
    cx: int,
    cy: int,
    k: int,
)
    requires
        visiting(before, now, w, h, sx, sy, pending, cx, cy, k),
        0 <= k < 9,
        in_grid(w, h, cx + k % 3 - 1, cy + k / 3 - 1),
        hidden_at(now, w, cx + k % 3 - 1, cy + k / 3 - 1),
        next == now.update(
            cell_index(w, cx + k % 3 - 1, cy + k / 3 - 1),
            Tile {
                state: TileState::Open,
                value: now[cell_index(w, cx + k % 3 - 1, cy + k / 3 - 1)].value,
            },
        ),
        zero_at(now, w, cx + k % 3 - 1, cy + k / 3 - 1) ==> grown.len() == pending.len() + 1
            && grown.drop_last() == pending && grown.last().0 == cx + k % 3 - 1 && grown.last().1
            == cy + k / 3 - 1,
        !zero_at(now, w, cx + k % 3 - 1, cy + k / 3 - 1) ==> grown == pending,
    ensures
        visiting(before, next, w, h, sx, sy, grown, cx, cy, k + 1),
        count_hidden(next) == count_hidden(now) - 1,
{
    let nx = cx + k % 3 - 1;
    let ny = cy + k / 3 - 1;
    let ni = cell_index(w, nx, ny);
    lemma_index_in_range(w, h, nx, ny);
    lemma_index_in_range(w, h, cx, cy);
    lemma_index_distinct(w, nx, ny);
    lemma_count_hidden_update(now, ni, Tile { state: TileState::Open, value: now[ni].value });
    assert(opened(before, now, w, nx, ny) || now[ni] == before[ni]);
    assert(hidden_at(before, w, nx, ny));
    assert(opened(before, next, w, nx, ny));
    assert(!(nx == cx && ny == cy));
    assert(adjacent(cx, cy, nx, ny));
    // every cell that was open stays open
    assert forall|a: int, b: int| in_grid(w, h, a, b) && !(a == nx && b == ny) implies next[cell_index(
        w,
        a,
        b,
    )] == now[#[trigger] cell_index(w, a, b)] by {
        lemma_index_in_range(w, h, a, b);
    }
    assert(opened(before, next, w, sx, sy)) by {
        if !(sx == nx && sy == ny) {
            assert(next[cell_index(w, sx, sy)] == now[cell_index(w, sx, sy)]);
        }
    }
    // the chain to the neighbour runs through the cell being visited
    assert(cascades(before, w, h, sx, sy, nx, ny)) by {
        assert(cascades(before, w, h, sx, sy, cx, cy));
        let p = choose|p: Seq<(int, int)>|
            #[trigger] cascade_path(before, w, h, p) && p[0] == (sx, sy) && p.last() == (cx, cy);
        let q = p.push((nx, ny));
        assert forall|i: int| 0 <= i < q.len() implies in_grid(w, h, (#[trigger] q[i]).0, q[i].1)
            && hidden_at(before, w, q[i].0, q[i].1) by {
            if i < p.len() {
                assert(q[i] == p[i]);
            }
        }
        assert forall|i: int| 0 <= i < q.len() - 1 implies zero_at(
            before,
            w,
            (#[trigger] q[i]).0,
            q[i].1,
        ) && adjacent(q[i].0, q[i].1, q[i + 1].0, q[i + 1].1) by {
            assert(q[i] == p[i]);
            if i < p.len() - 1 {
                assert(q[i + 1] == p[i + 1]);
            } else {
                assert(p[i] == p.last());
            }
        }
        assert(cascade_path(before, w, h, q));
        assert(q[0] == p[0]);
        assert(q.last() == (nx, ny));
    }
    assert forall|a: int, b: int| in_grid(w, h, a, b) implies (#[trigger] opened(
        before,
        next,
        w,
        a,
        b,
    )) || next[cell_index(w, a, b)] == before[cell_index(w, a, b)] by {
        if !(a == nx && b == ny) {
            assert(next[cell_index(w, a, b)] == now[cell_index(w, a, b)]);
            assert(opened(before, now, w, a, b) || now[cell_index(w, a, b)] == before[cell_index(
                w,
                a,
                b,
            )]);
        }
    }
    assert forall|a: int, b: int| in_grid(w, h, a, b) && #[trigger] opened(
        before,
        next,
        w,
        a,
        b,
    ) implies cascades(before, w, h, sx, sy, a, b) by {
        if !(a == nx && b == ny) {
            assert(next[cell_index(w, a, b)] == now[cell_index(w, a, b)]);
            assert(opened(before, now, w, a, b));
        }
    }
    assert forall|i: int| 0 <= i < grown.len() implies in_grid(
        w,
        h,
        (#[trigger] grown[i]).0 as int,
        grown[i].1 as int,
    ) && opened(before, next, w, grown[i].0 as int, grown[i].1 as int) && zero_at(
        before,
        w,
        grown[i].0 as int,
        grown[i].1 as int,
    ) by {
        if i < pending.len() {
            if zero_at(now, w, nx, ny) {
                assert(grown.drop_last()[i] == grown[i]);
            }
            assert(grown[i] == pending[i]);
            let a = pending[i].0 as int;
            let b = pending[i].1 as int;
            assert(opened(before, now, w, a, b));
            if !(a == nx && b == ny) {
                assert(next[cell_index(w, a, b)] == now[cell_index(w, a, b)]);
            }
        } else {
            assert(grown[i] == grown.last());
        }
    }
    assert forall|a: int, b: int, c: int, d: int|
        in_grid(w, h, a, b) && opened(before, next, w, a, b) && zero_at(before, w, a, b) && !queued(
            grown,
            a,
            b,
        ) && Some((cx, cy)) != Some((a, b)) implies #[trigger] settled(
        before,
        next,
        w,
        h,
        a,
        b,
        c,
        d,
    ) by {
        if a == nx && b == ny {
            assert(zero_at(now, w, nx, ny));
            assert(grown[grown.len() - 1] == grown.last());
            assert(queued(grown, a, b));
        } else {
            assert(next[cell_index(w, a, b)] == now[cell_index(w, a, b)]);
            assert(opened(before, now, w, a, b));
            if queued(pending, a, b) {
                let i = choose|i: int|
                    0 <= i < pending.len() && (#[trigger] pending[i]).0 == a && pending[i].1 == b;
                if zero_at(now, w, nx, ny) {
                    assert(grown.drop_last()[i] == grown[i]);
                }
                assert(grown[i] == pending[i]);
                assert(queued(grown, a, b));
            }
            assert(settled(before, now, w, h, a, b, c, d));
            if in_grid(w, h, c, d) && !(c == nx && d == ny) {
                assert(next[cell_index(w, c, d)] == now[cell_index(w, c, d)]);
            }
        }
    }
    assert forall|c: int, d: int| rank(cx, cy, c, d) < k + 1 implies #[trigger] settled(
        before,
        next,
        w,
        h,
        cx,
        cy,
        c,
        d,
    ) by {
        if in_grid(w, h, c, d) && adjacent(cx, cy, c, d) {
            if c == nx && d == ny {
            } else {
                assert(rank(cx, cy, c, d) < k);
                assert(settled(before, now, w, h, cx, cy, c, d));
                assert(next[cell_index(w, c, d)] == now[cell_index(w, c, d)]);
            }
        }
    }
    assert forall|j: int| 0 <= j < before.len() implies (#[trigger] next[j]).value
        == before[j].value by {
        assert(now[j].value == before[j].value);
    }
}

/// When all nine places around a cell are done, the cell is done.
pub proof fn lemma_leave(
    before: Seq<Tile>,
    now: Seq<Tile>,
    w: int,
    h: int,
    sx: int,
    sy: int,
    pending: Seq<(usize, usize)>,
    cx: int,
    cy: int,
)
    requires
        visiting(before, now, w, h, sx, sy, pending, cx, cy, 9),
    ensures
        spreading(before, now, w, h, sx, sy, pending, None),
{
    assert forall|a: int, b: int, c: int, d: int|
        in_grid(w, h, a, b) && opened(before, now, w, a, b) && zero_at(before, w, a, b) && !queued(
            pending,
            a,
            b,
        ) implies #[trigger] settled(before, now, w, h, a, b, c, d) by {
        if a == cx && b == cy {
            if adjacent(cx, cy, c, d) {
                assert(rank(cx, cy, c, d) < 9);
            }
        } else {
            assert(Some((cx, cy)) != Some((a, b)));
        }
    }
}

/// Once the work list is empty, every cell along a chain is open.
pub proof fn lemma_reach(
    before: Seq<Tile>,
    now: Seq<Tile>,
    w: int,
    h: int,
    sx: int,
    sy: int,
    path: Seq<(int, int)>,
    i: int,
)
    requires
        spreading(before, now, w, h, sx, sy, Seq::<(usize, usize)>::empty(), None),
        cascade_path(before, w, h, path),
        path[0] == (sx, sy),
        0 <= i < path.len(),
    ensures
        opened(before, now, w, path[i].0, path[i].1),
    decreases i,
{
    if i > 0 {
        lemma_reach(before, now, w, h, sx, sy, path, i - 1);
        let a = path[i - 1].0;
        let b = path[i - 1].1;
        assert(in_grid(w, h, a, b) && hidden_at(before, w, a, b));
        assert(zero_at(before, w, a, b) && adjacent(a, b, path[i - 1 + 1].0, path[i - 1 + 1].1));
        assert(!queued(Seq::<(usize, usize)>::empty(), a, b));
        assert(settled(before, now, w, h, a, b, path[i].0, path[i].1));
        assert(in_grid(w, h, path[i].0, path[i].1) && hidden_at(before, w, path[i].0, path[i].1));
    }
}

/// The tile that a reveal of the hidden cell `(sx, sy)` leaves at `(x, y)`.
pub open spec fn revealed(tiles: Seq<Tile>, w: int, h: int, sx: int, sy: int, x: int, y: int) -> Tile {
    if cascades(tiles, w, h, sx, sy, x, y) {
        Tile { state: TileState::Open, value: tiles[cell_index(w, x, y)].value }
    } else {
        tiles[cell_index(w, x, y)]
    }
}

/// Once the work list is empty, the cells that have opened are exactly
/// those that a chain reaches.
pub proof fn lemma_done(before: Seq<Tile>, now: Seq<Tile>, w: int, h: int, sx: int, sy: int)
    requires
        spreading(before, now, w, h, sx, sy, Seq::<(usize, usize)>::empty(), None),
    ensures
        forall|a: int, b: int|
            in_grid(w, h, a, b) ==> now[#[trigger] cell_index(w, a, b)] == revealed(
                before,
                w,
                h,
                sx,
                sy,
                a,
                b,
            ),
{
    assert forall|a: int, b: int| in_grid(w, h, a, b) implies now[#[trigger] cell_index(w, a, b)]
        == revealed(before, w, h, sx, sy, a, b) by {
        lemma_index_in_range(w, h, a, b);
        let i = cell_index(w, a, b);
        assert(now[i].value == before[i].value);
        assert(opened(before, now, w, a, b) || now[i] == before[i]);
        if cascades(before, w, h, sx, sy, a, b) {
            let p = choose|p: Seq<(int, int)>|
                #[trigger] cascade_path(before, w, h, p) && p[0] == (sx, sy) && p.last() == (a, b);
            lemma_reach(before, now, w, h, sx, sy, p, p.len() - 1);
            assert(opened(before, now, w, a, b));
        } else {
            if opened(before, now, w, a, b) {
                assert(cascades(before, w, h, sx, sy, a, b));
            }
        }
    }
}

} // verus!
