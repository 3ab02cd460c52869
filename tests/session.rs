use minesweeper::{
    state_handler, AppState, Board, BoardCompletedEvent, BoardError, BoardExplosionEvent, CellState,
    Coordinates, GameEvent, GameSession, StateChange, TileMarkEvent, TileTriggerEvent,
};

fn at(x: i32, y: i32) -> Coordinates {
    Coordinates::new(x, y)
}

fn session_with(width: u16, height: u16, bombs: &[(i32, i32)]) -> GameSession {
    let list: Vec<Coordinates> = bombs.iter().map(|&(x, y)| at(x, y)).collect();
    GameSession::from_board(Board::new(width, height, &list).unwrap())
}

#[test]
fn explosion_emits_one_event() {
    let mut s = session_with(5, 5, &[(0, 0), (4, 4)]);
    let events = s.handle_reveal(at(4, 4));
    assert_eq!(events, vec![GameEvent::BoardExplosion(BoardExplosionEvent)]);
    let b = s.board();
    for y in 0..5 {
        for x in 0..5 {
            let expected = if (x, y) == (4, 4) { CellState::Uncovered } else { CellState::Covered };
            assert_eq!(b.state_at(at(x, y)), Some(expected));
        }
    }
    assert!(!s.is_won());
}

#[test]
fn flood_reveal_emits_triggers_then_completion() {
    let mut s = session_with(5, 5, &[(0, 0), (4, 4)]);
    assert_eq!(s.safe_tiles_remaining(), 23);
    let events = s.handle_reveal(at(2, 2));
    assert_eq!(events.len(), 24);
    assert_eq!(events[0], GameEvent::TileTrigger(TileTriggerEvent(at(2, 2))));
    assert_eq!(events[23], GameEvent::BoardCompleted(BoardCompletedEvent));
    assert!(events[..23].iter().all(|e| matches!(e, GameEvent::TileTrigger(_))));
    assert!(s.is_won());
    assert_eq!(s.safe_tiles_remaining(), 0);
}

#[test]
fn second_reveal_emits_nothing() {
    let mut s = session_with(3, 3, &[(0, 0)]);
    assert_eq!(s.handle_reveal(at(1, 0)), vec![GameEvent::TileTrigger(TileTriggerEvent(at(1, 0)))]);
    assert_eq!(s.handle_reveal(at(1, 0)), vec![]);
    assert_eq!(s.safe_tiles_remaining(), 7);
}

#[test]
fn flag_events_and_bomb_total() {
    let mut s = session_with(3, 3, &[(0, 0)]);
    assert_eq!(s.bombs_remaining(), 1);
    assert_eq!(s.handle_toggle_flag(at(0, 0)), vec![GameEvent::TileMark(TileMarkEvent(at(0, 0)))]);
    assert_eq!(s.bombs_remaining(), 0);
    assert_eq!(s.handle_toggle_flag(at(1, 1)), vec![GameEvent::TileMark(TileMarkEvent(at(1, 1)))]);
    assert_eq!(s.bombs_remaining(), -1);
    assert_eq!(s.handle_reveal(at(1, 1)), vec![]);
    assert_eq!(s.handle_toggle_flag(at(1, 1)), vec![GameEvent::TileMark(TileMarkEvent(at(1, 1)))]);
    assert_eq!(s.bombs_remaining(), 0);
    assert_eq!(s.handle_toggle_flag(at(7, 7)), vec![]);
}

#[test]
fn flag_on_uncovered_emits_nothing() {
    let mut s = session_with(3, 3, &[(0, 0)]);
    s.handle_reveal(at(2, 2));
    assert_eq!(s.handle_toggle_flag(at(2, 2)), vec![]);
    assert_eq!(s.bombs_remaining(), 1);
}

#[test]
fn new_session_places_bombs() {
    let s = GameSession::new(20, 20, 40, Some(at(10, 10)), 42).unwrap();
    assert_eq!(s.bombs_remaining(), 40);
    assert_eq!(s.safe_tiles_remaining(), 360);
    for dy in -1..=1 {
        for dx in -1..=1 {
            assert_ne!(s.board().tile_at(at(10 + dx, 10 + dy)), Some(minesweeper::Tile::Bomb));
        }
    }
    assert!(matches!(GameSession::new(2, 2, 4, None, 1), Err(BoardError::InvalidConfiguration)));
}

#[test]
fn state_handler_transitions() {
    assert_eq!(state_handler(AppState::InGame, true, false, false), vec![StateChange::Replace(AppState::Out)]);
    assert_eq!(state_handler(AppState::Out, true, false, false), vec![]);
    assert_eq!(state_handler(AppState::Out, false, true, false), vec![StateChange::Replace(AppState::InGame)]);
    assert_eq!(state_handler(AppState::InGame, false, true, false), vec![StateChange::Replace(AppState::Out)]);
    assert_eq!(state_handler(AppState::InGame, false, false, true), vec![StateChange::Push(AppState::Pause)]);
    assert_eq!(state_handler(AppState::Pause, false, false, true), vec![StateChange::Pop]);
    assert_eq!(state_handler(AppState::Out, false, false, true), vec![]);
    assert_eq!(
        state_handler(AppState::InGame, true, true, true),
        vec![
            StateChange::Replace(AppState::Out),
            StateChange::Replace(AppState::Out),
            StateChange::Push(AppState::Pause)
        ]
    );
    assert_eq!(state_handler(AppState::Pause, false, false, false), vec![]);
}
