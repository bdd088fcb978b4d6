use xplode::game::Game;
use xplode::generate::{from_draws, validate, ConfigError, SafeZone};
use xplode::tile::{Tile, TileState, TileValue};

fn tile(g: &Game, x: usize, y: usize) -> Tile {
    g.get(x, y).unwrap()
}

fn count_bombs(g: &Game) -> usize {
    let mut n = 0;
    for y in 0..g.get_height() {
        for x in 0..g.get_width() {
            if tile(g, x, y).value == TileValue::Bomb {
                n += 1;
            }
        }
    }
    n
}

fn bombs_around(g: &Game, x: usize, y: usize) -> u8 {
    let mut n = 0;
    for dy in -1i64..=1 {
        for dx in -1i64..=1 {
            if dx == 0 && dy == 0 {
                continue;
            }
            let nx = x as i64 + dx;
            let ny = y as i64 + dy;
            if nx < 0 || ny < 0 {
                continue;
            }
            if let Some(t) = g.get(nx as usize, ny as usize) {
                if t.value == TileValue::Bomb {
                    n += 1;
                }
            }
        }
    }
    n
}

fn snapshot(g: &Game) -> Vec<Tile> {
    let mut all = Vec::new();
    for y in 0..g.get_height() {
        for x in 0..g.get_width() {
            all.push(tile(g, x, y));
        }
    }
    all
}

#[test]
fn single_cell_board_opens() {
    let mut g = Game::new(1, 1, 0).unwrap();
    assert_eq!(g.reveal_at(0, 0), Some(TileValue::Safe(0)));
    assert_eq!(
        g.get(0, 0),
        Some(Tile { state: TileState::Open, value: TileValue::Safe(0) })
    );
}

#[test]
fn empty_board_opens_whole() {
    let mut g = Game::new_safe_zero(5, 5, 0, 2, 2).unwrap();
    for t in snapshot(&g) {
        assert_eq!(t, Tile { state: TileState::Hidden, value: TileValue::Safe(0) });
    }
    assert_eq!(g.reveal_at(2, 2), Some(TileValue::Safe(0)));
    let after = snapshot(&g);
    assert_eq!(after.len(), 25);
    for t in after {
        assert_eq!(t.state, TileState::Open);
    }
}

#[test]
fn full_board_is_rejected() {
    assert_eq!(Game::new(3, 3, 9).err(), Some(ConfigError::TooManyBombs));
    assert_eq!(Game::new(3, 3, 10).err(), Some(ConfigError::TooManyBombs));
    assert!(Game::new(3, 3, 8).is_ok());
}

#[test]
fn each_error_has_its_input() {
    assert_eq!(Game::new(0, 5, 0).err(), Some(ConfigError::EmptyGrid));
    assert_eq!(Game::new(5, 0, 0).err(), Some(ConfigError::EmptyGrid));
    assert_eq!(Game::new(usize::MAX, 2, 0).err(), Some(ConfigError::GridTooLarge));
    assert_eq!(Game::new_safe(1, 1, 1, 0, 0).err(), Some(ConfigError::TooManyBombs));
    assert_eq!(Game::new_safe(2, 1, 1, 0, 0).err(), None);
    assert_eq!(Game::new_safe_zero(3, 3, 1, 1, 1).err(), Some(ConfigError::ZoneTooLarge));
    assert_eq!(Game::new_safe_zero_seeded(3, 3, 1, 1, 1, 7).err(), Some(ConfigError::ZoneTooLarge));
    assert_eq!(
        from_draws(2, 2, 2, SafeZone::Anywhere, &vec![1]).err(),
        Some(ConfigError::TooFewDraws)
    );
    assert_eq!(validate(3, 3, 9, SafeZone::Anywhere), Err(ConfigError::TooManyBombs));
    assert_eq!(validate(3, 3, 5, SafeZone::Around(0, 0)), Ok(()));
    assert_eq!(validate(3, 3, 6, SafeZone::Around(0, 0)), Err(ConfigError::ZoneTooLarge));
}

#[test]
fn draws_decide_the_layout() {
    // one mine, drawn onto the middle of a 3 x 3 board
    let g = from_draws(3, 3, 1, SafeZone::Anywhere, &vec![4]).unwrap();
    for y in 0..3 {
        for x in 0..3 {
            let want = if x == 1 && y == 1 { TileValue::Bomb } else { TileValue::Safe(1) };
            assert_eq!(tile(&g, x, y), Tile { state: TileState::Hidden, value: want });
        }
    }
    // two mines on a row of three: the first draw takes cell 2, the second cell 1
    let g = from_draws(3, 1, 2, SafeZone::Anywhere, &vec![2, 0]).unwrap();
    assert_eq!(tile(&g, 0, 0).value, TileValue::Safe(1));
    assert_eq!(tile(&g, 1, 0).value, TileValue::Bomb);
    assert_eq!(tile(&g, 2, 0).value, TileValue::Bomb);
    // with the first cell excluded the pool starts at cell 1
    let g = from_draws(3, 1, 1, SafeZone::Cell(0, 0), &vec![0]).unwrap();
    assert_eq!(tile(&g, 0, 0).value, TileValue::Safe(1));
    assert_eq!(tile(&g, 1, 0).value, TileValue::Bomb);
    assert_eq!(tile(&g, 2, 0).value, TileValue::Safe(1));
}

#[test]
fn eight_mines_around_one_cell() {
    let g = Game::new_safe(3, 3, 8, 1, 1).unwrap();
    assert_eq!(tile(&g, 1, 1).value, TileValue::Safe(8));
    assert_eq!(count_bombs(&g), 8);
}

#[test]
fn mine_count_and_numbers_are_exact() {
    for bombs in [0usize, 1, 10, 40, 79] {
        let g = Game::new(10, 8, bombs).unwrap();
        assert_eq!(g.get_width(), 10);
        assert_eq!(g.get_height(), 8);
        assert_eq!(g.get_bombs(), bombs);
        assert_eq!(count_bombs(&g), bombs);
        let mut safe = 0;
        for y in 0..8 {
            for x in 0..10 {
                let t = tile(&g, x, y);
                assert_eq!(t.state, TileState::Hidden);
                if let TileValue::Safe(n) = t.value {
                    safe += 1;
                    assert_eq!(n, bombs_around(&g, x, y));
                }
            }
        }
        assert_eq!(safe, 80 - bombs);
    }
}

#[test]
fn safe_cell_holds_no_mine() {
    for _ in 0..20 {
        let g = Game::new_safe(4, 4, 15, 2, 1).unwrap();
        assert!(matches!(tile(&g, 2, 1).value, TileValue::Safe(_)));
        assert_eq!(count_bombs(&g), 15);
    }
}

#[test]
fn safe_zone_holds_no_mine() {
    for _ in 0..20 {
        let g = Game::new_safe_zero(5, 5, 16, 0, 4).unwrap();
        for (x, y) in [(0, 4), (1, 4), (0, 3), (1, 3)] {
            assert!(matches!(tile(&g, x, y).value, TileValue::Safe(_)));
        }
        assert_eq!(tile(&g, 0, 4).value, TileValue::Safe(0));
        assert_eq!(count_bombs(&g), 16);
    }
    let g = Game::new_safe_zero(6, 6, 27, 3, 3).unwrap();
    for y in 2..5 {
        for x in 2..5 {
            assert!(matches!(tile(&g, x, y).value, TileValue::Safe(_)));
        }
    }
}

#[test]
fn same_seed_same_board() {
    let a = Game::new_safe_zero_seeded(16, 16, 40, 8, 8, 12345).unwrap();
    let b = Game::new_safe_zero_seeded(16, 16, 40, 8, 8, 12345).unwrap();
    assert_eq!(snapshot(&a), snapshot(&b));
    assert_eq!(count_bombs(&a), 40);
    let c = Game::new_safe_zero_seeded(16, 16, 40, 8, 8, 54321).unwrap();
    assert_ne!(snapshot(&a), snapshot(&c));
}

#[test]
fn cascade_stops_at_numbers_and_spares_the_mine() {
    // one mine in the far corner of a 4 x 4 board
    let mut g = from_draws(4, 4, 1, SafeZone::Anywhere, &vec![15]).unwrap();
    assert_eq!(tile(&g, 3, 3).value, TileValue::Bomb);
    assert_eq!(g.reveal_at(0, 0), Some(TileValue::Safe(0)));
    for y in 0..4 {
        for x in 0..4 {
            let t = tile(&g, x, y);
            if x == 3 && y == 3 {
                assert_eq!(t.state, TileState::Hidden);
            } else {
                assert_eq!(t.state, TileState::Open);
            }
        }
    }
    assert_eq!(tile(&g, 2, 2).value, TileValue::Safe(1));
    assert_eq!(g.reveal_at(3, 3), Some(TileValue::Bomb));
    assert_eq!(tile(&g, 3, 3).state, TileState::Open);
}

#[test]
fn cascade_does_not_cross_a_wall_of_numbers() {
    // a column of mines splits a 5 x 1 board: cells 0 | 1 | mine | 3 | 4
    let mut g = from_draws(5, 1, 1, SafeZone::Anywhere, &vec![2]).unwrap();
    assert_eq!(g.reveal_at(0, 0), Some(TileValue::Safe(0)));
    assert_eq!(tile(&g, 0, 0).state, TileState::Open);
    assert_eq!(tile(&g, 1, 0), Tile { state: TileState::Open, value: TileValue::Safe(1) });
    assert_eq!(tile(&g, 2, 0).state, TileState::Hidden);
    assert_eq!(tile(&g, 3, 0).state, TileState::Hidden);
    assert_eq!(tile(&g, 4, 0).state, TileState::Hidden);
}

#[test]
fn numbered_cell_opens_alone() {
    let mut g = from_draws(3, 3, 1, SafeZone::Anywhere, &vec![4]).unwrap();
    assert_eq!(g.reveal_at(0, 0), Some(TileValue::Safe(1)));
    let open = snapshot(&g).iter().filter(|t| t.state == TileState::Open).count();
    assert_eq!(open, 1);
    assert_eq!(g.reveal_at(0, 0), None);
}

#[test]
fn reveal_outside_changes_nothing() {
    let mut g = Game::new(4, 3, 5).unwrap();
    let before = snapshot(&g);
    assert_eq!(g.reveal_at(4, 0), None);
    assert_eq!(g.reveal_at(0, 3), None);
    assert_eq!(g.reveal_at(usize::MAX, usize::MAX), None);
    assert_eq!(snapshot(&g), before);
    assert_eq!(g.get(4, 0), None);
    assert_eq!(g.get(0, 3), None);
}

#[test]
fn flag_twice_restores() {
    let mut g = Game::new(4, 4, 3).unwrap();
    let before = snapshot(&g);
    g.flag(1, 2);
    assert_eq!(tile(&g, 1, 2).state, TileState::Flag);
    g.flag(1, 2);
    assert_eq!(snapshot(&g), before);
    g.flag(9, 9);
    assert_eq!(snapshot(&g), before);
}

#[test]
fn flag_leaves_open_cells() {
    let mut g = Game::new(1, 1, 0).unwrap();
    g.reveal_at(0, 0);
    g.flag(0, 0);
    assert_eq!(tile(&g, 0, 0).state, TileState::Open);
    g.set_flag(0, 0, true);
    assert_eq!(tile(&g, 0, 0).state, TileState::Open);
    g.set_flag(0, 0, false);
    assert_eq!(tile(&g, 0, 0).state, TileState::Open);
}

#[test]
fn set_flag_is_idempotent() {
    let mut g = Game::new(3, 3, 2).unwrap();
    g.set_flag(2, 2, true);
    assert_eq!(tile(&g, 2, 2).state, TileState::Flag);
    g.set_flag(2, 2, true);
    assert_eq!(tile(&g, 2, 2).state, TileState::Flag);
    g.set_flag(2, 2, false);
    assert_eq!(tile(&g, 2, 2).state, TileState::Hidden);
    g.set_flag(2, 2, false);
    assert_eq!(tile(&g, 2, 2).state, TileState::Hidden);
    g.set_flag(3, 3, true);
    assert_eq!(g.get(3, 3), None);
}

#[test]
fn flag_blocks_reveal_and_cascade() {
    let mut g = Game::new(3, 1, 0).unwrap();
    g.flag(1, 0);
    assert_eq!(g.reveal_at(1, 0), None);
    assert_eq!(tile(&g, 1, 0).state, TileState::Flag);
    assert_eq!(g.reveal_at(0, 0), Some(TileValue::Safe(0)));
    assert_eq!(tile(&g, 0, 0).state, TileState::Open);
    assert_eq!(tile(&g, 1, 0).state, TileState::Flag);
    assert_eq!(tile(&g, 2, 0).state, TileState::Hidden);
    g.flag(1, 0);
    assert_eq!(g.reveal_at(1, 0), Some(TileValue::Safe(0)));
    assert_eq!(tile(&g, 2, 0).state, TileState::Open);
}

#[test]
fn large_boards_draw_all_their_mines() {
    let g = Game::new(128, 128, 9000).unwrap();
    assert_eq!(count_bombs(&g), 9000);
    let g = Game::new_safe_zero(128, 128, 16375, 0, 0).unwrap();
    assert_eq!(count_bombs(&g), 16375);
    assert_eq!(tile(&g, 0, 0).value, TileValue::Safe(0));
}

#[test]
fn a_board_without_mines_needs_no_draw() {
    for (w, h) in [(1usize, 1usize), (7, 3), (40, 40)] {
        let g = Game::new(w, h, 0).unwrap();
        assert_eq!(count_bombs(&g), 0);
        let g = Game::new_safe(w, h, 0, 0, 0).unwrap();
        assert_eq!(count_bombs(&g), 0);
        let g = Game::new_safe_zero(w, h, 0, 0, 0).unwrap();
        assert_eq!(count_bombs(&g), 0);
    }
}

#[test]
fn seeded_board_is_the_known_one() {
    // the same seed lays the same mines as the draws it stands for
    let a = Game::new_safe_zero_seeded(8, 8, 10, 3, 3, 2024).unwrap();
    let b = Game::new_safe_zero_seeded(8, 8, 10, 3, 3, 2024).unwrap();
    assert_eq!(snapshot(&a), snapshot(&b));
    for y in 2..5 {
        for x in 2..5 {
            assert!(matches!(tile(&a, x, y).value, TileValue::Safe(_)));
        }
    }
    assert_eq!(tile(&a, 3, 3).value, TileValue::Safe(0));
    assert_eq!(count_bombs(&a), 10);
}
