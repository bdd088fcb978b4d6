use xplode::binding::{WasmGame, WasmState, WasmTile, WasmValue};
use xplode::generate::ConfigError;
use xplode::tile::{Tile, TileState, TileValue};

#[test]
fn values_become_records() {
    assert_eq!(WasmValue::from(TileValue::Bomb), WasmValue { number: 0, bomb: true });
    assert_eq!(WasmValue::from(TileValue::Safe(0)), WasmValue { number: 0, bomb: false });
    assert_eq!(WasmValue::from(TileValue::Safe(8)), WasmValue { number: 8, bomb: false });
}

#[test]
fn states_become_records() {
    assert_eq!(WasmState::from(TileState::Hidden), WasmState::Hidden);
    assert_eq!(WasmState::from(TileState::Flag), WasmState::Flag);
    assert_eq!(WasmState::from(TileState::Open), WasmState::Open);
}

#[test]
fn tiles_become_records() {
    let t = Tile { state: TileState::Flag, value: TileValue::Safe(3) };
    assert_eq!(
        WasmTile::from(t),
        WasmTile { state: WasmState::Flag, value: Some(WasmValue { number: 3, bomb: false }) }
    );
}

#[test]
fn record_game_plays_like_the_engine() {
    let mut g = WasmGame::new(1, 1, 0).ok().unwrap();
    assert_eq!(g.get_width(), 1);
    assert_eq!(g.get_height(), 1);
    assert_eq!(
        g.get(0, 0),
        Some(WasmTile {
            state: WasmState::Hidden,
            value: Some(WasmValue { number: 0, bomb: false })
        })
    );
    assert_eq!(g.reveal_at(0, 0), Some(WasmValue { number: 0, bomb: false }));
    assert_eq!(g.get(0, 0).unwrap().state, WasmState::Open);
    assert_eq!(g.reveal_at(0, 0), None);
    assert_eq!(g.get(1, 0), None);
}

#[test]
fn record_game_flags() {
    let mut g = WasmGame::new_safe(2, 2, 3, 0, 0).ok().unwrap();
    g.flag(1, 1);
    assert_eq!(g.get(1, 1).unwrap().state, WasmState::Flag);
    assert_eq!(g.reveal_at(1, 1), None);
    g.set_flag(1, 1, false);
    assert_eq!(g.get(1, 1).unwrap().state, WasmState::Hidden);
    assert_eq!(g.reveal_at(1, 1), Some(WasmValue { number: 0, bomb: true }));
    assert_eq!(g.reveal_at(0, 0), Some(WasmValue { number: 3, bomb: false }));
}

#[test]
fn record_game_rejects_bad_configurations() {
    assert_eq!(WasmGame::new(3, 3, 9).err(), Some(ConfigError::TooManyBombs));
    assert_eq!(WasmGame::new_safe(0, 0, 0, 0, 0).err(), Some(ConfigError::EmptyGrid));
    assert_eq!(WasmGame::new_safe_zero(2, 2, 1, 0, 0).err(), Some(ConfigError::ZoneTooLarge));
    assert_eq!(
        WasmGame::new_safe_zero_seeded(2, 2, 1, 0, 0, 1).err(),
        Some(ConfigError::ZoneTooLarge)
    );
}

#[test]
fn record_game_seeded_is_repeatable() {
    let a = WasmGame::new_safe_zero_seeded(9, 9, 10, 4, 4, 99).ok().unwrap();
    let b = WasmGame::new_safe_zero_seeded(9, 9, 10, 4, 4, 99).ok().unwrap();
    let mut bombs = 0;
    for y in 0..9 {
        for x in 0..9 {
            assert_eq!(a.get(x, y), b.get(x, y));
            if a.get(x, y).unwrap().value.unwrap().bomb {
                bombs += 1;
            }
        }
    }
    assert_eq!(bombs, 10);
    assert_eq!(a.get(4, 4).unwrap().value, Some(WasmValue { number: 0, bomb: false }));
}
