//! The game as a host sees it: plain records in place of the engine's
//! variants.

use vstd::prelude::*;
use vstd::std_specs::convert::FromSpecImpl;
use crate::tile::{Tile, TileState, TileValue};
use crate::game::Game;
use crate::construct::{built, built_by_chance};
use crate::generate::{laid_out, ConfigError, SafeZone};
use crate::rng::seeded_stream;

verus! {

/// A tile's value as a record: whether it is a mine, and the number on it
/// (0 on a mine).
#[derive(Clone, Copy, Debug, PartialEq, Eq, Structural)]
pub struct WasmValue {
    pub number: u8,
    pub bomb: bool,
}

/// A tile's state.
#[derive(Clone, Copy, Debug, PartialEq, Eq, Structural)]
pub enum WasmState {
    Hidden,
    Flag,
    Open,
}

/// A tile as a record.
#[derive(Clone, Copy, Debug, PartialEq, Eq, Structural)]
pub struct WasmTile {
    pub state: WasmState,
    pub value: Option<WasmValue>,
}

/// A value as a record.
pub open spec fn value_record(value: TileValue) -> WasmValue {
    match value {
        TileValue::Bomb => WasmValue { number: 0, bomb: true },
        TileValue::Safe(n) => WasmValue { number: n, bomb: false },
    }
}

/// A state as a record's state.
pub open spec fn state_record(state: TileState) -> WasmState {
    match state {
        TileState::Flag => WasmState::Flag,
        TileState::Hidden => WasmState::Hidden,
        TileState::Open => WasmState::Open,
    }
}

/// A tile as a record. The value is always given: hiding it from the
/// player is left to the host.
pub open spec fn tile_record(tile: Tile) -> WasmTile {
    WasmTile { state: state_record(tile.state), value: Some(value_record(tile.value)) }
}

impl From<TileValue> for WasmValue {
    fn from(value: TileValue) -> (r: Self) {
        match value {
            TileValue::Bomb => WasmValue { number: 0, bomb: true },
            TileValue::Safe(n) => WasmValue { number: n, bomb: false },
        }
    }
}

impl FromSpecImpl<TileValue> for WasmValue {
    open spec fn obeys_from_spec() -> bool {
        true
    }

    open spec fn from_spec(value: TileValue) -> Self {
        value_record(value)
    }
}

impl From<TileState> for WasmState {
    fn from(value: TileState) -> (r: Self) {
        match value {
            TileState::Flag => WasmState::Flag,
            TileState::Hidden => WasmState::Hidden,
            TileState::Open => WasmState::Open,
        }
    }
}

impl FromSpecImpl<TileState> for WasmState {
    open spec fn obeys_from_spec() -> bool {
        true
    }

    open spec fn from_spec(value: TileState) -> Self {
        state_record(value)
    }
}

impl From<Tile> for WasmTile {
    fn from(value: Tile) -> (r: Self) {
        WasmTile { state: WasmState::from(value.state), value: Some(WasmValue::from(value.value)) }
    }
}

impl FromSpecImpl<Tile> for WasmTile {
    open spec fn obeys_from_spec() -> bool {
        true
    }

    open spec fn from_spec(value: Tile) -> Self {
        tile_record(value)
    }
}

/// The engine's result inside a constructor's result.
pub open spec fn unwrapped(r: Result<WasmGame, ConfigError>) -> Result<Game, ConfigError> {
    match r {
        Ok(g) => Ok(g.game),
        Err(e) => Err(e),
    }
}

/// A game that speaks in records.
#[derive(Debug)]
pub struct WasmGame {
    pub game: Game,
}

impl WasmGame {
    /// A game with mines anywhere on the board.
    pub fn new(width: usize, height: usize, bombs: usize) -> (r: Result<WasmGame, ConfigError>)
        ensures
            built_by_chance(
                unwrapped(r),
                width as int,
                height as int,
                bombs as int,
                SafeZone::Anywhere,
            ),
    {
        match Game::new(width, height, bombs) {
            Ok(game) => Ok(WasmGame { game }),
            Err(e) => Err(e),
        }
    }

    /// A game with no mine on `(cx, cy)`.
    pub fn new_safe(width: usize, height: usize, bombs: usize, cx: usize, cy: usize) -> (r: Result<
        WasmGame,
        ConfigError,
    >)
        ensures
            built_by_chance(
                unwrapped(r),
                width as int,
                height as int,
                bombs as int,
                SafeZone::Cell(cx, cy),
            ),
    {
        match Game::new_safe(width, height, bombs, cx, cy) {
            Ok(game) => Ok(WasmGame { game }),
            Err(e) => Err(e),
        }
    }

    /// A game with no mine on `(cx, cy)` nor on any cell around it.
    pub fn new_safe_zero(width: usize, height: usize, bombs: usize, cx: usize, cy: usize) -> (r:
        Result<WasmGame, ConfigError>)
        ensures
            built_by_chance(
                unwrapped(r),
                width as int,
                height as int,
                bombs as int,
                SafeZone::Around(cx, cy),
            ),
    {
        match Game::new_safe_zero(width, height, bombs, cx, cy) {
            Ok(game) => Ok(WasmGame { game }),
            Err(e) => Err(e),
        }
    }

    /// A game with no mine on `(cx, cy)` nor on any cell around it, laid out
    /// by the draws that the seed gives.
    pub fn new_safe_zero_seeded(
        width: usize,
        height: usize,
        bombs: usize,
        cx: usize,
        cy: usize,
        seed: u64,
    ) -> (r: Result<WasmGame, ConfigError>)
        ensures
            built(
                unwrapped(r),
                width as int,
                height as int,
                bombs as int,
                SafeZone::Around(cx, cy),
            ),
            match r {
                Ok(g) => laid_out(
                    &g.game,
                    width as int,
                    height as int,
                    bombs as int,
                    SafeZone::Around(cx, cy),
                    seeded_stream(seed, bombs),
                ),
                Err(_) => true,
            },
    {
        match Game::new_safe_zero_seeded(width, height, bombs, cx, cy, seed) {
            Ok(game) => Ok(WasmGame { game }),
            Err(e) => Err(e),
        }
    }

    /// Opens a cell as the engine does and returns its value as a record.
    pub fn reveal_at(&mut self, x: usize, y: usize) -> (r: Option<WasmValue>)
        requires
            old(self).game.wf(),
        ensures
            final(self).game.wf(),
            final(self).game.same_board(&old(self).game),
            r == (if old(self).game.can_reveal(x as int, y as int) {
                Some(value_record(old(self).game.tile_at(x as int, y as int).value))
            } else {
                None
            }),
            !old(self).game.can_reveal(x as int, y as int) ==> final(self).game.tiles() == old(
                self,
            ).game.tiles(),
            old(self).game.can_reveal(x as int, y as int) ==> final(self).game.tile_at(
                x as int,
                y as int,
            ).state == TileState::Open,
            forall|a: int, b: int|
                final(self).game.contains(a, b) ==> #[trigger] final(self).game.tile_at(a, b)
                    == old(self).game.after_reveal(x as int, y as int, a, b),
    {
        match self.game.reveal_at(x, y) {
            Some(v) => Some(WasmValue::from(v)),
            None => None,
        }
    }

    /// Toggles the flag on a cell that is not open.
    pub fn flag(&mut self, x: usize, y: usize)
        requires
            old(self).game.wf(),
        ensures
            final(self).game.wf(),
            final(self).game.same_board(&old(self).game),
            final(self).game.tiles() == old(self).game.after_flag(x as int, y as int),
    {
        self.game.flag(x, y)
    }

    /// Sets or clears the flag on a cell that is not open.
    pub fn set_flag(&mut self, x: usize, y: usize, flag: bool)
        requires
            old(self).game.wf(),
        ensures
            final(self).game.wf(),
            final(self).game.same_board(&old(self).game),
            final(self).game.tiles() == old(self).game.after_set_flag(x as int, y as int, flag),
    {
        self.game.set_flag(x, y, flag)
    }

    /// The tile at `(x, y)` as a record, or nothing outside the grid.
    pub fn get(&self, x: usize, y: usize) -> (r: Option<WasmTile>)
        requires
            self.game.wf(),
        ensures
            r == (if self.game.contains(x as int, y as int) {
                Some(tile_record(self.game.tile_at(x as int, y as int)))
            } else {
                None
            }),
    {
        match self.game.get(x, y) {
            Some(t) => Some(WasmTile::from(t)),
            None => None,
        }
    }

    /// The number of columns.
    pub fn get_width(&self) -> (w: usize)
        ensures
            w == self.game.spec_width(),
    {
        self.game.get_width()
    }

    /// The number of rows.
    pub fn get_height(&self) -> (h: usize)
        ensures
            h == self.game.spec_height(),
    {
        self.game.get_height()
    }
}

} // verus!
