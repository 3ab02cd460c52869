use vstd::prelude::*;
use crate::board::{
    lemma_cell_of_index, lemma_safe_uncovered_count, lemma_with_state, reveal_post, toggle_post,
    BoardModel, FlagOutcome, RevealOutcome,
};
use crate::coordinates::{adjacent, Coordinates};
use crate::board::mask_at;
use crate::grid::grid_index;
use crate::counting::count_true;
use crate::session::session_reveal_post;
use crate::tile::CellState;

verus! {

/// A board that differs from a valid one in its cell states only is valid.
pub proof fn lemma_states_keep_validity(b0: BoardModel, b1: BoardModel)
    requires
        b0.valid(),
        b1.same_layout(b0),
    ensures
        b1.valid(),
{
    assert(b1.bomb_mask() =~= b0.bomb_mask());
    assert forall|c: Coordinates|
        #![trigger b1.tile(c)]
        b1.in_bounds(c) && !b1.is_bomb(c) implies b1.tile(c) == crate::tile::tile_for_count(
        b1.neighbor_bombs(c),
    ) by {
        assert(b0.tile(c) == b1.tile(c));
    }
}

/// The bombs that touch `c`.
pub open spec fn adjacent_bombs(m: BoardModel, c: Coordinates) -> Set<Coordinates> {
    Set::new(|d: Coordinates| m.in_bounds(d) && adjacent(c, d) && m.is_bomb(d))
}

/// `s` with the cell at column `x`, row `y` added if it is a bomb.
spec fn add_if_bomb(m: BoardModel, s: Set<Coordinates>, x: int, y: int) -> Set<Coordinates> {
    if 0 <= x < m.width && 0 <= y < m.height && m.tiles[grid_index(m.width, x, y)] is Bomb {
        s.insert(Coordinates { x: x as i32, y: y as i32 })
    } else {
        s
    }
}

proof fn lemma_add_if_bomb(m: BoardModel, s: Set<Coordinates>, x: int, y: int)
    requires
        m.valid(),
        s.finite(),
        -1 <= x <= 65535,
        -1 <= y <= 65535,
        forall|d: Coordinates| #[trigger] s.contains(d) ==> d.x != x || d.y != y,
    ensures
        add_if_bomb(m, s, x, y).finite(),
        add_if_bomb(m, s, x, y).len() == s.len() + mask_at(m.bomb_mask(), m.width, m.height, x, y),
        forall|d: Coordinates| #[trigger] add_if_bomb(m, s, x, y).contains(d) <==> s.contains(d) || (
        d.x == x && d.y == y && 0 <= x < m.width && 0 <= y < m.height && m.tiles[grid_index(
            m.width,
            x,
            y,
        )] is Bomb),
{
    if 0 <= x < m.width && 0 <= y < m.height {
        crate::grid::lemma_index_in_range(m.width, m.height, x, y);
        let e = Coordinates { x: x as i32, y: y as i32 };
        assert(!s.contains(e));
        assert forall|d: Coordinates| #[trigger] s.insert(e).contains(d) && d.x == x && d.y == y implies d == e by {}
    }
}

/// The number on a safe tile is the number of bombs that touch it.
pub proof fn lemma_tile_counts_adjacent_bombs(m: BoardModel, c: Coordinates)
    requires
        m.valid(),
        m.in_bounds(c),
    ensures
        adjacent_bombs(m, c).finite(),
        m.neighbor_bombs(c) == adjacent_bombs(m, c).len(),
        !m.is_bomb(c) ==> m.tile(c) == crate::tile::tile_for_count(adjacent_bombs(m, c).len()),
{
    let (x, y) = (c.x as int, c.y as int);
    let s0 = Set::<Coordinates>::empty();
    lemma_add_if_bomb(m, s0, x - 1, y - 1);
    let s1 = add_if_bomb(m, s0, x - 1, y - 1);
    lemma_add_if_bomb(m, s1, x, y - 1);
    let s2 = add_if_bomb(m, s1, x, y - 1);
    lemma_add_if_bomb(m, s2, x + 1, y - 1);
    let s3 = add_if_bomb(m, s2, x + 1, y - 1);
    lemma_add_if_bomb(m, s3, x - 1, y);
    let s4 = add_if_bomb(m, s3, x - 1, y);
    lemma_add_if_bomb(m, s4, x + 1, y);
    let s5 = add_if_bomb(m, s4, x + 1, y);
    lemma_add_if_bomb(m, s5, x - 1, y + 1);
    let s6 = add_if_bomb(m, s5, x - 1, y + 1);
    lemma_add_if_bomb(m, s6, x, y + 1);
    let s7 = add_if_bomb(m, s6, x, y + 1);
    lemma_add_if_bomb(m, s7, x + 1, y + 1);
    let s8 = add_if_bomb(m, s7, x + 1, y + 1);
    assert forall|d: Coordinates| #[trigger] s8.contains(d) <==> adjacent_bombs(m, c).contains(d) by {
        if m.in_bounds(d) {
            crate::grid::lemma_index_in_range(m.width, m.height, d.x as int, d.y as int);
        }
    }
    assert(s8 =~= adjacent_bombs(m, c));
}

/// Revealing a cell that carries no flag leaves it uncovered.
pub proof fn lemma_revealed_cell_uncovered(
    b0: BoardModel,
    b1: BoardModel,
    c: Coordinates,
    r: RevealOutcome,
)
    requires
        b0.valid(),
        b0.in_bounds(c),
        b0.state(c) != CellState::Flagged,
        reveal_post(b0, b1, c, r),
    ensures
        b1.valid(),
        b1.in_bounds(c),
        b1.state(c) == CellState::Uncovered,
{
    crate::board::lemma_index_of_cell(b0, c);
    lemma_with_state(b0, c, CellState::Uncovered, c);
    if let RevealOutcome::Revealed(cells) = r {
        if b0.state(c) == CellState::Covered && !b0.is_bomb(c) {
            assert(cells@[0] == c);
            assert(cells@.contains(c));
        }
    }
    lemma_states_keep_validity(b0, b1);
}

/// Revealing the same cell twice: the second reveal finds it uncovered and
/// changes nothing.
pub proof fn lemma_reveal_twice(
    b0: BoardModel,
    b1: BoardModel,
    b2: BoardModel,
    c: Coordinates,
    r1: RevealOutcome,
    r2: RevealOutcome,
)
    requires
        b0.valid(),
        b0.in_bounds(c),
        b0.state(c) != CellState::Flagged,
        reveal_post(b0, b1, c, r1),
        reveal_post(b1, b2, c, r2),
    ensures
        r2 == RevealOutcome::AlreadyUncovered,
        b2 == b1,
{
    lemma_revealed_cell_uncovered(b0, b1, c, r1);
}

/// Sending the reveal command twice for one cell: the second one emits no
/// event and changes nothing.
pub proof fn lemma_session_reveal_twice(
    b0: BoardModel,
    b1: BoardModel,
    b2: BoardModel,
    c: Coordinates,
    e1: Seq<crate::events::GameEvent>,
    e2: Seq<crate::events::GameEvent>,
)
    requires
        b0.valid(),
        b0.in_bounds(c),
        b0.state(c) != CellState::Flagged,
        session_reveal_post(b0, b1, c, e1),
        session_reveal_post(b1, b2, c, e2),
    ensures
        e2.len() == 0,
        b2 == b1,
{
    crate::board::lemma_index_of_cell(b0, c);
    lemma_with_state(b0, c, CellState::Uncovered, c);
    if b0.state(c) == CellState::Covered && !b0.is_bomb(c) {
        let cells = choose|cells: Seq<Coordinates>|
            crate::board::is_flood(b0, b1, c, cells) && e1 == crate::session::reveal_events(
                cells,
                b1.all_safe_uncovered(),
            );
        assert(cells[0] == c);
        assert(cells.contains(c));
    }
    lemma_states_keep_validity(b0, b1);
}

/// A flag guards its cell: revealing it returns `Flagged` and changes nothing.
pub proof fn lemma_flag_guards_reveal(b0: BoardModel, b1: BoardModel, c: Coordinates, r: RevealOutcome)
    requires
        b0.in_bounds(c),
        b0.state(c) == CellState::Flagged,
        reveal_post(b0, b1, c, r),
    ensures
        r == RevealOutcome::Flagged,
        b1 == b0,
{
}

/// Flagging a covered cell and then unflagging it gives back the board it
/// started from.
pub proof fn lemma_flag_round_trip(
    b0: BoardModel,
    b1: BoardModel,
    b2: BoardModel,
    c: Coordinates,
    r1: FlagOutcome,
    r2: FlagOutcome,
)
    requires
        b0.valid(),
        b0.in_bounds(c),
        b0.state(c) == CellState::Covered,
        toggle_post(b0, b1, c, r1),
        toggle_post(b1, b2, c, r2),
    ensures
        r1 == FlagOutcome::Flagged,
        r2 == FlagOutcome::Unflagged,
        b2 == b0,
{
    lemma_with_state(b0, c, CellState::Flagged, c);
    crate::board::lemma_index_of_cell(b0, c);
    assert(b2.states =~= b0.states);
}

/// While no bomb is uncovered, the game is won exactly when the uncovered
/// cells number `width * height - bomb_count`, whatever the flags.
pub proof fn lemma_won_iff_uncovered_count(m: BoardModel)
    requires
        m.valid(),
        forall|c: Coordinates|
            #![trigger m.state(c)]
            m.in_bounds(c) && m.is_bomb(c) ==> m.state(c) != CellState::Uncovered,
    ensures
        m.all_safe_uncovered() <==> count_true(m.uncovered_mask()) == m.cell_count() - m.bomb_count,
{
    assert forall|i: int| 0 <= i < m.states.len() implies #[trigger] m.uncovered_mask()[i]
        == m.uncovered_safe_mask()[i] by {
        lemma_cell_of_index(m, i);
        let c = m.cell_at(i);
        assert(m.state(c) == m.states[i]);
    }
    assert(m.uncovered_mask() =~= m.uncovered_safe_mask());
    lemma_safe_uncovered_count(m);
}

} // verus!
