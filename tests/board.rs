use minesweeper::{
    place_bombs, Board, BoardError, CellState, Coordinates, FlagOutcome, RevealOutcome, Tile,
};

fn at(x: i32, y: i32) -> Coordinates {
    Coordinates::new(x, y)
}

fn board_with(width: u16, height: u16, bombs: &[(i32, i32)]) -> Board {
    let list: Vec<Coordinates> = bombs.iter().map(|&(x, y)| at(x, y)).collect();
    Board::new(width, height, &list).expect("valid layout")
}

fn count_adjacent_bombs(b: &Board, c: Coordinates) -> u8 {
    let mut n = 0;
    for dy in -1..=1 {
        for dx in -1..=1 {
            if dx == 0 && dy == 0 {
                continue;
            }
            if b.tile_at(at(c.x + dx, c.y + dy)) == Some(Tile::Bomb) {
                n += 1;
            }
        }
    }
    n
}

#[test]
fn five_by_five_adjacency_and_flood() {
    let mut b = board_with(5, 5, &[(0, 0), (4, 4)]);
    assert_eq!(b.tile_at(at(1, 1)), Some(Tile::BombNeighbor(1)));
    assert_eq!(b.tile_at(at(3, 3)), Some(Tile::BombNeighbor(1)));
    assert_eq!(b.tile_at(at(2, 2)), Some(Tile::Empty));
    assert_eq!(b.tile_at(at(0, 0)), Some(Tile::Bomb));
    assert!(!b.is_won());
    match b.reveal_cell(at(2, 2)) {
        RevealOutcome::Revealed(cells) => {
            assert_eq!(cells.len(), 23);
            assert_eq!(cells[0], at(2, 2));
            assert!(cells.contains(&at(1, 1)));
            assert!(cells.contains(&at(3, 3)));
            assert!(!cells.contains(&at(0, 0)));
            assert!(!cells.contains(&at(4, 4)));
        }
        other => panic!("unexpected {:?}", other),
    }
    assert_eq!(b.state_at(at(0, 0)), Some(CellState::Covered));
    assert_eq!(b.state_at(at(4, 4)), Some(CellState::Covered));
    assert_eq!(b.state_at(at(1, 0)), Some(CellState::Uncovered));
    assert!(b.is_won());
    assert_eq!(b.safe_tiles_remaining(), 0);
}

#[test]
fn adjacency_counts_match_bombs_around() {
    let mut seed = 1u64;
    while seed < 40 {
        let b = Board::generate(9, 7, 15, Some(at(4, 3)), seed).unwrap();
        for y in 0..7 {
            for x in 0..9 {
                let c = at(x, y);
                let t = b.tile_at(c).unwrap();
                if t != Tile::Bomb {
                    let n = count_adjacent_bombs(&b, c);
                    if n == 0 {
                        assert_eq!(t, Tile::Empty);
                    } else {
                        assert_eq!(t, Tile::BombNeighbor(n));
                    }
                }
            }
        }
        seed += 1;
    }
}

#[test]
fn corner_count_is_three() {
    let b = board_with(3, 3, &[(0, 1), (1, 0), (1, 1)]);
    assert_eq!(b.tile_at(at(0, 0)), Some(Tile::BombNeighbor(3)));
    assert_eq!(b.tile_at(at(2, 2)), Some(Tile::BombNeighbor(1)));
    assert_eq!(b.tile_at(at(2, 0)), Some(Tile::BombNeighbor(2)));
}

#[test]
fn generated_boards_have_exact_bomb_count_and_safe_start() {
    for seed in [0u64, 1, 2, 7, 12345, u64::MAX] {
        let b = Board::generate(20, 20, 40, Some(at(0, 0)), seed).unwrap();
        let mut bombs = 0;
        for y in 0..20 {
            for x in 0..20 {
                if b.tile_at(at(x, y)) == Some(Tile::Bomb) {
                    bombs += 1;
                }
                assert_eq!(b.state_at(at(x, y)), Some(CellState::Covered));
            }
        }
        assert_eq!(bombs, 40);
        assert_eq!(b.bomb_count(), 40);
        for (x, y) in [(0, 0), (1, 0), (0, 1), (1, 1)] {
            assert_ne!(b.tile_at(at(x, y)), Some(Tile::Bomb));
        }
    }
}

#[test]
fn place_bombs_avoids_safe_zone() {
    let bombs = place_bombs(4, 4, 7, Some(at(1, 1)), 99).unwrap();
    assert_eq!(bombs.len(), 7);
    for (i, c) in bombs.iter().enumerate() {
        assert!(c.x >= 0 && c.x < 4 && c.y >= 0 && c.y < 4);
        assert!((c.x - 1).abs() > 1 || (c.y - 1).abs() > 1);
        for d in &bombs[i + 1..] {
            assert_ne!(c, d);
        }
    }
}

#[test]
fn place_bombs_rejects_too_many_for_safe_zone() {
    assert_eq!(place_bombs(4, 4, 8, Some(at(1, 1)), 5), Err(BoardError::InvalidConfiguration));
    assert_eq!(place_bombs(3, 3, 1, Some(at(1, 1)), 5), Err(BoardError::InvalidConfiguration));
    assert_eq!(place_bombs(3, 3, 0, Some(at(1, 1)), 5), Ok(vec![]));
    assert_eq!(place_bombs(3, 3, 9, None, 5), Err(BoardError::InvalidConfiguration));
    assert_eq!(place_bombs(3, 3, 8, None, 5).map(|v| v.len()), Ok(8));
    assert_eq!(place_bombs(0, 3, 0, None, 5), Err(BoardError::InvalidConfiguration));
}

#[test]
fn new_rejects_bad_layouts() {
    let dup = vec![at(1, 1), at(1, 1)];
    assert!(matches!(Board::new(3, 3, &dup), Err(BoardError::InvalidConfiguration)));
    let outside = vec![at(3, 0)];
    assert!(matches!(Board::new(3, 3, &outside), Err(BoardError::InvalidConfiguration)));
    let negative = vec![at(-1, 0)];
    assert!(matches!(Board::new(3, 3, &negative), Err(BoardError::InvalidConfiguration)));
    let full: Vec<Coordinates> = (0..4).map(|i| at(i % 2, i / 2)).collect();
    assert!(matches!(Board::new(2, 2, &full), Err(BoardError::InvalidConfiguration)));
    assert!(matches!(Board::new(0, 2, &vec![]), Err(BoardError::InvalidConfiguration)));
    assert!(Board::new(2, 2, &full[..3].to_vec()).is_ok());
}

#[test]
fn reveal_twice_is_already_uncovered() {
    let mut b = board_with(4, 4, &[(3, 3)]);
    assert!(matches!(b.reveal_cell(at(2, 2)), RevealOutcome::Revealed(_)));
    let before: Vec<Option<CellState>> = (0..16).map(|i| b.state_at(at(i % 4, i / 4))).collect();
    assert_eq!(b.reveal_cell(at(2, 2)), RevealOutcome::AlreadyUncovered);
    let after: Vec<Option<CellState>> = (0..16).map(|i| b.state_at(at(i % 4, i / 4))).collect();
    assert_eq!(before, after);
}

#[test]
fn flagged_cell_is_not_revealed() {
    let mut b = board_with(3, 3, &[(0, 0)]);
    assert_eq!(b.toggle_flag(at(2, 2)), FlagOutcome::Flagged);
    assert_eq!(b.reveal_cell(at(2, 2)), RevealOutcome::Flagged);
    assert_eq!(b.state_at(at(2, 2)), Some(CellState::Flagged));
    assert_eq!(b.toggle_flag(at(2, 2)), FlagOutcome::Unflagged);
    assert_eq!(b.state_at(at(2, 2)), Some(CellState::Covered));
    assert_eq!(b.flagged_count(), 0);
}

#[test]
fn flag_on_uncovered_cell_is_noop() {
    let mut b = board_with(3, 3, &[(0, 0)]);
    assert_eq!(b.reveal_cell(at(1, 1)), RevealOutcome::Revealed(vec![at(1, 1)]));
    assert_eq!(b.toggle_flag(at(1, 1)), FlagOutcome::NoOp);
    assert_eq!(b.state_at(at(1, 1)), Some(CellState::Uncovered));
}

#[test]
fn out_of_bounds_commands_change_nothing() {
    let mut b = board_with(3, 3, &[(0, 0)]);
    assert_eq!(b.reveal_cell(at(3, 0)), RevealOutcome::OutOfBounds);
    assert_eq!(b.reveal_cell(at(0, -1)), RevealOutcome::OutOfBounds);
    assert_eq!(b.toggle_flag(at(-1, -1)), FlagOutcome::OutOfBounds);
    assert_eq!(b.tile_at(at(5, 5)), None);
    assert_eq!(b.uncovered_safe_count(), 0);
}

#[test]
fn flood_stops_at_numbered_border() {
    let mut b = board_with(5, 1, &[(2, 0)]);
    match b.reveal_cell(at(0, 0)) {
        RevealOutcome::Revealed(cells) => {
            assert_eq!(cells.len(), 2);
            assert!(cells.contains(&at(0, 0)));
            assert!(cells.contains(&at(1, 0)));
        }
        other => panic!("unexpected {:?}", other),
    }
    assert_eq!(b.state_at(at(3, 0)), Some(CellState::Covered));
    assert_eq!(b.state_at(at(4, 0)), Some(CellState::Covered));
}

#[test]
fn flood_does_not_pass_a_flag() {
    let mut b = board_with(5, 1, &[(4, 0)]);
    assert_eq!(b.toggle_flag(at(1, 0)), FlagOutcome::Flagged);
    assert_eq!(b.reveal_cell(at(0, 0)), RevealOutcome::Revealed(vec![at(0, 0)]));
    assert_eq!(b.state_at(at(1, 0)), Some(CellState::Flagged));
    assert_eq!(b.state_at(at(2, 0)), Some(CellState::Covered));
}

#[test]
fn numbered_cell_reveals_alone() {
    let mut b = board_with(3, 3, &[(0, 0)]);
    assert_eq!(b.reveal_cell(at(1, 0)), RevealOutcome::Revealed(vec![at(1, 0)]));
    assert_eq!(b.uncovered_safe_count(), 1);
}

#[test]
fn bomb_reveal_explodes_and_touches_nothing_else() {
    let mut b = board_with(3, 3, &[(0, 0), (2, 2)]);
    assert_eq!(b.reveal_cell(at(0, 0)), RevealOutcome::Exploded);
    assert_eq!(b.state_at(at(0, 0)), Some(CellState::Uncovered));
    for i in 1..9 {
        assert_eq!(b.state_at(at(i % 3, i / 3)), Some(CellState::Covered));
    }
    assert!(!b.is_won());
}

#[test]
fn win_ignores_flags_on_bombs() {
    let mut b = board_with(2, 2, &[(0, 0)]);
    assert_eq!(b.toggle_flag(at(0, 0)), FlagOutcome::Flagged);
    b.reveal_cell(at(1, 0));
    b.reveal_cell(at(0, 1));
    assert!(!b.is_won());
    b.reveal_cell(at(1, 1));
    assert!(b.is_won());
    assert_eq!(b.safe_tiles_remaining(), 0);
}

#[test]
fn win_needs_no_flags() {
    let mut b = board_with(2, 1, &[(0, 0)]);
    assert!(!b.is_won());
    assert_eq!(b.reveal_cell(at(1, 0)), RevealOutcome::Revealed(vec![at(1, 0)]));
    assert!(b.is_won());
}

#[test]
fn neighbors_are_clipped_to_the_board() {
    let b = board_with(3, 3, &[]);
    assert_eq!(b.neighbors(at(0, 0)).len(), 3);
    assert_eq!(b.neighbors(at(1, 0)).len(), 5);
    assert_eq!(b.neighbors(at(1, 1)).len(), 8);
    assert_eq!(b.neighbors(at(-2, -2)).len(), 0);
    assert_eq!(b.neighbors(at(i32::MIN, i32::MAX)).len(), 0);
    assert_eq!(b.width(), 3);
    assert_eq!(b.height(), 3);
}
