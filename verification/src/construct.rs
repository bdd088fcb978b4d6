//! The ways to start a game.

use vstd::prelude::*;
use crate::tile::TileState;
use crate::grid::count_bombs;
use crate::game::Game;
use crate::generate::{
    checked_pool, config_error, excluded, laid_out, lay_out, ConfigError, SafeZone,
};
use crate::rng::{fresh_draws, seeded_draws, seeded_stream};

verus! {

/// A game that has just been generated: a consistent board of the given
/// size and mine count, every tile hidden, no mine in the safe zone, the
/// mines where some list of draws puts them.
pub open spec fn fresh(g: &Game, w: int, h: int, bombs: int, zone: SafeZone) -> bool {
    &&& exists|draws: Seq<u64>| #[trigger] laid_out(g, w, h, bombs, zone, draws)
    &&& g.wf()
    &&& g.spec_width() == w
    &&& g.spec_height() == h
    &&& g.spec_bombs() == bombs
    &&& count_bombs(g.tiles()) == bombs
    &&& forall|k: int| 0 <= k < w * h ==> (#[trigger] g.tiles()[k]).state == TileState::Hidden
    &&& forall|x: int, y: int|
        g.contains(x, y) && excluded(zone, x, y) ==> !(#[trigger] g.tile_at(x, y)).value.bomb()
}

/// What a constructor returns: the error of the configuration if it has
/// one, and a fresh game otherwise.
pub open spec fn built(r: Result<Game, ConfigError>, w: int, h: int, bombs: int, zone: SafeZone) -> bool {
    match r {
        Ok(g) => config_error(w, h, bombs, zone, bombs) is None && fresh(&g, w, h, bombs, zone),
        Err(e) => config_error(w, h, bombs, zone, bombs) == Some(e),
    }
}

/// What a constructor without a seed returns: as `built`, but that a
/// configuration which is in order and asks for at least one mine may
/// also end in `NoEntropy`, where the system gives no random numbers.
pub open spec fn built_by_chance(
    r: Result<Game, ConfigError>,
    w: int,
    h: int,
    bombs: int,
    zone: SafeZone,
) -> bool {
    match r {
        Ok(g) => config_error(w, h, bombs, zone, bombs) is None && fresh(&g, w, h, bombs, zone),
        Err(e) => config_error(w, h, bombs, zone, bombs) == Some(e) || (e == ConfigError::NoEntropy
            && bombs > 0 && config_error(w, h, bombs, zone, bombs) is None),
    }
}

/// Generates a board from the system's draws. Where there is no mine to
/// place, the system is not asked.
fn build_by_chance(width: usize, height: usize, bombs: usize, zone: SafeZone) -> (r: Result<
    Game,
    ConfigError,
>)
    ensures
        built_by_chance(r, width as int, height as int, bombs as int, zone),
{
    let pool = match checked_pool(width, height, bombs, zone) {
        Ok(pool) => pool,
        Err(e) => { return Err(e); },
    };
    let draws: Vec<u64> = if bombs == 0 {
        Vec::new()
    } else {
        match fresh_draws(bombs) {
            Some(d) => d,
            None => { return Err(ConfigError::NoEntropy); },
        }
    };
    let g = lay_out(width, height, bombs, zone, pool, &draws);
    proof {
        assert(laid_out(&g, width as int, height as int, bombs as int, zone, draws@));
    }
    Ok(g)
}

/// Generates a board from the draws that a seed gives.
fn build_seeded(width: usize, height: usize, bombs: usize, zone: SafeZone, seed: u64) -> (r: Result<
    Game,
    ConfigError,
>)
    ensures
        built(r, width as int, height as int, bombs as int, zone),
        match r {
            Ok(g) => laid_out(
                &g,
                width as int,
                height as int,
                bombs as int,
                zone,
                seeded_stream(seed, bombs),
            ),
            Err(_) => true,
        },
{
    let pool = match checked_pool(width, height, bombs, zone) {
        Ok(pool) => pool,
        Err(e) => { return Err(e); },
    };
    let draws = seeded_draws(seed, bombs);
    let g = lay_out(width, height, bombs, zone, pool, &draws);
    proof {
        assert(laid_out(&g, width as int, height as int, bombs as int, zone, draws@));
    }
    Ok(g)
}

impl Game {
    /// A game with mines anywhere on the board.
    pub fn new(width: usize, height: usize, bombs: usize) -> (r: Result<Game, ConfigError>)
        ensures
            built_by_chance(r, width as int, height as int, bombs as int, SafeZone::Anywhere),
    {
        build_by_chance(width, height, bombs, SafeZone::Anywhere)
    }

    /// A game with no mine on `(cx, cy)`.
    pub fn new_safe(width: usize, height: usize, bombs: usize, cx: usize, cy: usize) -> (r: Result<
        Game,
        ConfigError,
    >)
        ensures
            built_by_chance(r, width as int, height as int, bombs as int, SafeZone::Cell(cx, cy)),
    {
        build_by_chance(width, height, bombs, SafeZone::Cell(cx, cy))
    }

    /// A game with no mine on `(cx, cy)` nor on any cell around it.
    pub fn new_safe_zero(width: usize, height: usize, bombs: usize, cx: usize, cy: usize) -> (r:
        Result<Game, ConfigError>)
        ensures
            built_by_chance(
                r,
                width as int,
                height as int,
                bombs as int,
                SafeZone::Around(cx, cy),
            ),
    {
        build_by_chance(width, height, bombs, SafeZone::Around(cx, cy))
    }

    /// A game with no mine on `(cx, cy)` nor on any cell around it, laid out
    /// by the draws that the seed gives: the same arguments give the same
    /// board.
    pub fn new_safe_zero_seeded(
        width: usize,
        height: usize,
        bombs: usize,
        cx: usize,
        cy: usize,
        seed: u64,
    ) -> (r: Result<Game, ConfigError>)
        ensures
            built(r, width as int, height as int, bombs as int, SafeZone::Around(cx, cy)),
            match r {
                Ok(g) => laid_out(
                    &g,
                    width as int,
                    height as int,
                    bombs as int,
                    SafeZone::Around(cx, cy),
                    seeded_stream(seed, bombs),
                ),
                Err(_) => true,
            },
    {
        build_seeded(width, height, bombs, SafeZone::Around(cx, cy), seed)
    }
}

} // verus!
