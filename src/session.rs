use vstd::prelude::*;
use crate::board::{is_flood, Board, BoardError, BoardModel, FlagOutcome, RevealOutcome};
use crate::coordinates::Coordinates;
use crate::counting::count_true;
use crate::events::{
    BoardCompletedEvent, BoardExplosionEvent, GameEvent, TileMarkEvent, TileTriggerEvent,
};
use crate::placement::{in_safe_zone, placement_possible};
use crate::tile::CellState;

verus! {

/// One trigger event per cell, in order, then a completion event if `won`.
pub open spec fn reveal_events(cells: Seq<Coordinates>, won: bool) -> Seq<GameEvent> {
    Seq::new(cells.len(), |i: int| GameEvent::TileTrigger(TileTriggerEvent(cells[i]))) + if won {
        seq![GameEvent::BoardCompleted(BoardCompletedEvent)]
    } else {
        Seq::<GameEvent>::empty()
    }
}

/// What a reveal command at `c` does: the board goes from `before` to
/// `after` and `events` are emitted.
pub open spec fn session_reveal_post(
    before: BoardModel,
    after: BoardModel,
    c: Coordinates,
    events: Seq<GameEvent>,
) -> bool {
    if !before.in_bounds(c) || before.state(c) != CellState::Covered {
        after == before && events.len() == 0
    } else if before.is_bomb(c) {
        &&& after == before.with_state(c, CellState::Uncovered)
        &&& events == seq![GameEvent::BoardExplosion(BoardExplosionEvent)]
    } else {
        exists|cells: Seq<Coordinates>|
            is_flood(before, after, c, cells) && events == reveal_events(
                cells,
                after.all_safe_uncovered(),
            )
    }
}

/// What a flag command at `c` does: the board goes from `before` to `after`
/// and `events` are emitted.
pub open spec fn session_flag_post(
    before: BoardModel,
    after: BoardModel,
    c: Coordinates,
    events: Seq<GameEvent>,
) -> bool {
    if !before.in_bounds(c) || before.state(c) == CellState::Uncovered {
        after == before && events.len() == 0
    } else {
        &&& events == seq![GameEvent::TileMark(TileMarkEvent(c))]
        &&& after == before.with_state(
            c,
            if before.state(c) == CellState::Covered {
                CellState::Flagged
            } else {
                CellState::Covered
            },
        )
    }
}

/// One game: a board and the running totals shown to the player.
pub struct GameSession {
    board: Board,
    bombs_remaining: i64,
    safe_tiles_remaining: usize,
}

impl View for GameSession {
    type V = BoardModel;

    closed spec fn view(&self) -> BoardModel {
        self.board@
    }
}

impl GameSession {
    /// The board is well formed and the totals agree with it.
    pub closed spec fn wf(&self) -> bool {
        &&& self.board.wf()
        &&& self.bombs_remaining == self.board@.bomb_count - count_true(self.board@.flag_mask())
        &&& self.safe_tiles_remaining == self.board@.cell_count() - self.board@.bomb_count
            - count_true(self.board@.uncovered_safe_mask())
    }

    /// Starts a session on an existing board.
    pub fn from_board(board: Board) -> (r: GameSession)
        requires
            board.wf(),
        ensures
            r.wf(),
            r@ == board@,
    {
        let mut s = GameSession { board, bombs_remaining: 0, safe_tiles_remaining: 0 };
        s.refresh_totals();
        s
    }

    /// Starts a session on a fresh board with bombs placed from `seed`,
    /// keeping the safe start cell and its neighbours free of bombs.
    pub fn new(width: u16, height: u16, bomb_count: usize, safe: Option<Coordinates>, seed: u64) -> (r:
        Result<GameSession, BoardError>)
        ensures
            r is Ok <==> placement_possible(width as int, height as int, bomb_count as int, safe),
            r is Err ==> r == Err::<GameSession, BoardError>(BoardError::InvalidConfiguration),
            r matches Ok(s) ==> {
                &&& s.wf()
                &&& s@.width == width
                &&& s@.height == height
                &&& s@.bomb_count == bomb_count
                &&& count_true(s@.bomb_mask()) == bomb_count
                &&& forall|c: Coordinates|
                    #![trigger s@.tile(c)]
                    s@.in_bounds(c) && in_safe_zone(safe, c) ==> !s@.is_bomb(c)
                &&& forall|c: Coordinates|
                    #![trigger s@.state(c)]
                    s@.in_bounds(c) ==> s@.state(c) == CellState::Covered
            },
    {
        match Board::generate(width, height, bomb_count, safe, seed) {
            Ok(board) => Ok(GameSession::from_board(board)),
            Err(e) => Err(e),
        }
    }

    fn refresh_totals(&mut self)
        requires
            old(self).board.wf(),
        ensures
            final(self).wf(),
            final(self)@ == old(self)@,
    {
        let flagged = self.board.flagged_count();
        proof {
            let m = self.board@;
            crate::counting::lemma_count_bound(m.flag_mask());
            assert(m.width * m.height <= 65535 * 65535) by (nonlinear_arith)
                requires
                    0 < m.width <= 65535,
                    0 < m.height <= 65535,
            ;
        }
        self.bombs_remaining = self.board.bomb_count() as i64 - flagged as i64;
        self.safe_tiles_remaining = self.board.safe_tiles_remaining();
    }

    /// Reveals `c` and reports what happened: a trigger event per newly
    /// uncovered cell and a completion event on a win, or one explosion event.
    pub fn handle_reveal(&mut self, c: Coordinates) -> (events: Vec<GameEvent>)
        requires
            old(self).wf(),
        ensures
            final(self).wf(),
            session_reveal_post(old(self)@, final(self)@, c, events@),
    {
        let ghost before = self.board@;
        let outcome = self.board.reveal_cell(c);
        let mut events: Vec<GameEvent> = Vec::new();
        match outcome {
            RevealOutcome::Revealed(cells) => {
                let mut i: usize = 0;
                while i < cells.len()
                    invariant
                        i <= cells@.len(),
                        events@ =~= Seq::new(
                            i as nat,
                            |k: int| GameEvent::TileTrigger(TileTriggerEvent(cells@[k])),
                        ),
                    decreases cells@.len() - i,
                {
                    events.push(GameEvent::TileTrigger(TileTriggerEvent(cells[i])));
                    i += 1;
                }
                if self.board.is_won() {
                    events.push(GameEvent::BoardCompleted(BoardCompletedEvent));
                }
                proof {
                    assert(events@ =~= reveal_events(cells@, self.board@.all_safe_uncovered()));
                }
            },
            RevealOutcome::Exploded => {
                events.push(GameEvent::BoardExplosion(BoardExplosionEvent));
                proof {
                    assert(events@ =~= seq![GameEvent::BoardExplosion(BoardExplosionEvent)]);
                }
            },
            _ => {},
        }
        self.refresh_totals();
        events
    }

    /// Toggles the flag on `c` and reports it with one mark event; an
    /// uncovered or off-board cell gives no event.
    pub fn handle_toggle_flag(&mut self, c: Coordinates) -> (events: Vec<GameEvent>)
        requires
            old(self).wf(),
        ensures
            final(self).wf(),
            session_flag_post(old(self)@, final(self)@, c, events@),
    {
        let outcome = self.board.toggle_flag(c);
        let mut events: Vec<GameEvent> = Vec::new();
        match outcome {
            FlagOutcome::Flagged | FlagOutcome::Unflagged => {
                events.push(GameEvent::TileMark(TileMarkEvent(c)));
                proof {
                    assert(events@ =~= seq![GameEvent::TileMark(TileMarkEvent(c))]);
                }
            },
            _ => {},
        }
        self.refresh_totals();
        events
    }

    /// Bombs minus flags placed; negative when there are more flags than bombs.
    pub fn bombs_remaining(&self) -> (r: i64)
        requires
            self.wf(),
        ensures
            r == self@.bomb_count - count_true(self@.flag_mask()),
    {
        self.bombs_remaining
    }

    /// Safe cells still covered or flagged.
    pub fn safe_tiles_remaining(&self) -> (r: usize)
        requires
            self.wf(),
        ensures
            r == self@.cell_count() - self@.bomb_count - count_true(self@.uncovered_safe_mask()),
    {
        self.safe_tiles_remaining
    }

    pub fn is_won(&self) -> (r: bool)
        requires
            self.wf(),
        ensures
            r == self@.all_safe_uncovered(),
    {
        self.board.is_won()
    }

    pub fn board(&self) -> (r: &Board)
        requires
            self.wf(),
        ensures
            r.wf(),
            r@ == self@,
    {
        &self.board
    }
}

} // verus!
