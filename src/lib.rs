//! A Minesweeper board engine: bomb placement, adjacency counts, flood-fill
//! reveal, flag toggling and win/loss detection, each with a checked contract.
mod app_state;
mod board;
mod coordinates;
mod counting;
mod events;
mod grid;
mod placement;
mod session;
mod theorems;
mod tile;

pub use app_state::{state_handler, AppState, StateChange};
pub use board::{Board, BoardError, BoardModel, FlagOutcome, RevealOutcome};
pub use coordinates::Coordinates;
pub use events::{
    BoardCompletedEvent, BoardExplosionEvent, GameEvent, TileMarkEvent, TileTriggerEvent,
};
pub use placement::place_bombs;
pub use session::GameSession;
pub use tile::{CellState, Tile};
pub use theorems::{
    lemma_flag_guards_reveal, lemma_flag_round_trip, lemma_reveal_twice, lemma_revealed_cell_uncovered,
    lemma_session_reveal_twice, lemma_states_keep_validity, lemma_tile_counts_adjacent_bombs,
    lemma_won_iff_uncovered_count,
};
