use vstd::prelude::*;
use crate::coordinates::{adjacent, Coordinates};
use crate::counting::{count_true, lemma_count_push, lemma_count_update, lemma_count_zero, one_if};
use crate::counting::{lemma_count_bound, lemma_count_disjoint};
use crate::grid::{
    grid_index, lemma_index_before, lemma_index_in_range, lemma_index_injective, lemma_index_onto,
    lemma_next_row,
};
use crate::tile::{tile_for_count, CellState, Tile};

verus! {

/// Why a board could not be built.
#[derive(Debug, Clone, Copy, PartialEq, Eq, Structural)]
pub enum BoardError {
    /// The dimensions, the bomb count or the bomb layout do not fit together.
    InvalidConfiguration,
}

/// 1 where a flagged cell of `mask` (a row-major grid `w` wide and `h` high)
/// sits at column `x`, row `y`; 0 elsewhere, off the grid included.
pub open spec fn mask_at(mask: Seq<bool>, w: int, h: int, x: int, y: int) -> nat {
    if 0 <= x < w && 0 <= y < h && mask[grid_index(w, x, y)] {
        1
    } else {
        0
    }
}

/// How many of the eight cells around column `x`, row `y` are set in `mask`.
pub open spec fn bombs_around(mask: Seq<bool>, w: int, h: int, x: int, y: int) -> nat {
    mask_at(mask, w, h, x - 1, y - 1) + mask_at(mask, w, h, x, y - 1) + mask_at(mask, w, h, x + 1, y - 1)
        + mask_at(mask, w, h, x - 1, y) + mask_at(mask, w, h, x + 1, y) + mask_at(
        mask,
        w,
        h,
        x - 1,
        y + 1,
    ) + mask_at(mask, w, h, x, y + 1) + mask_at(mask, w, h, x + 1, y + 1)
}

/// The bomb positions are distinct, lie on a `w` by `h` grid and leave at
/// least one safe cell.
pub open spec fn valid_layout(w: int, h: int, bombs: Seq<Coordinates>) -> bool {
    &&& 0 < w
    &&& 0 < h
    &&& bombs.len() < w * h
    &&& bombs.no_duplicates()
    &&& forall|i: int| 0 <= i < bombs.len() ==> {
        let c = #[trigger] bombs[i];
        0 <= c.x < w && 0 <= c.y < h
    }
}

/// The mathematical content of a board: its size, its bomb count and, in
/// row-major order, the tile and the state of every cell.
pub ghost struct BoardModel {
    pub width: int,
    pub height: int,
    pub bomb_count: int,
    pub tiles: Seq<Tile>,
    pub states: Seq<CellState>,
}

impl BoardModel {
    pub open spec fn in_bounds(self, c: Coordinates) -> bool {
        0 <= c.x < self.width && 0 <= c.y < self.height
    }

    pub open spec fn index(self, c: Coordinates) -> int {
        grid_index(self.width, c.x as int, c.y as int)
    }

    pub open spec fn tile(self, c: Coordinates) -> Tile {
        self.tiles[self.index(c)]
    }

    pub open spec fn state(self, c: Coordinates) -> CellState {
        self.states[self.index(c)]
    }

    pub open spec fn is_bomb(self, c: Coordinates) -> bool {
        self.tile(c) is Bomb
    }

    pub open spec fn bomb_mask(self) -> Seq<bool> {
        Seq::new(self.tiles.len(), |i: int| self.tiles[i] is Bomb)
    }

    pub open spec fn flag_mask(self) -> Seq<bool> {
        Seq::new(self.states.len(), |i: int| self.states[i] == CellState::Flagged)
    }

    pub open spec fn uncovered_mask(self) -> Seq<bool> {
        Seq::new(self.states.len(), |i: int| self.states[i] == CellState::Uncovered)
    }

    pub open spec fn uncovered_safe_mask(self) -> Seq<bool> {
        Seq::new(
            self.states.len(),
            |i: int| !(self.tiles[i] is Bomb) && self.states[i] == CellState::Uncovered,
        )
    }

    /// The number of bombs among the neighbours of `c`.
    pub open spec fn neighbor_bombs(self, c: Coordinates) -> nat {
        bombs_around(self.bomb_mask(), self.width, self.height, c.x as int, c.y as int)
    }

    pub open spec fn cell_count(self) -> int {
        self.width * self.height
    }

    /// A board of positive size whose bomb count is exact and whose safe
    /// tiles carry the number of bombs around them.
    pub open spec fn valid(self) -> bool {
        &&& 0 < self.width <= 65535
        &&& 0 < self.height <= 65535
        &&& self.tiles.len() == self.cell_count()
        &&& self.states.len() == self.tiles.len()
        &&& 0 <= self.bomb_count < self.cell_count()
        &&& count_true(self.bomb_mask()) == self.bomb_count
        &&& forall|c: Coordinates|
            #![trigger self.tile(c)]
            self.in_bounds(c) && !self.is_bomb(c) ==> self.tile(c) == tile_for_count(
                self.neighbor_bombs(c),
            )
    }

    /// The same board with cell `c` put in state `s`.
    pub open spec fn with_state(self, c: Coordinates, s: CellState) -> BoardModel {
        BoardModel { states: self.states.update(self.index(c), s), ..self }
    }

    /// The same board, tiles and all, whatever the cell states.
    pub open spec fn same_layout(self, other: BoardModel) -> bool {
        &&& self.width == other.width
        &&& self.height == other.height
        &&& self.bomb_count == other.bomb_count
        &&& self.tiles == other.tiles
        &&& self.states.len() == other.states.len()
    }

    /// The cell of row-major position `i`.
    pub open spec fn cell_at(self, i: int) -> Coordinates {
        Coordinates { x: (i % self.width) as i32, y: (i / self.width) as i32 }
    }

    /// Every safe cell is uncovered.
    pub open spec fn all_safe_uncovered(self) -> bool {
        forall|c: Coordinates|
            #![trigger self.state(c)]
            self.in_bounds(c) && !self.is_bomb(c) ==> self.state(c) == CellState::Uncovered
    }
}

pub proof fn lemma_index_of_cell(m: BoardModel, c: Coordinates)
    requires
        m.valid(),
        m.in_bounds(c),
    ensures
        0 <= m.index(c) < m.tiles.len(),
{
    lemma_index_in_range(m.width, m.height, c.x as int, c.y as int);
}

pub proof fn lemma_cell_of_index(m: BoardModel, i: int)
    requires
        m.valid(),
        0 <= i < m.tiles.len(),
    ensures
        m.in_bounds(m.cell_at(i)),
        m.index(m.cell_at(i)) == i,
{
    lemma_index_onto(m.width, m.height, i);
}

/// Changing the state of one cell leaves every other cell as it was.
pub proof fn lemma_with_state(m: BoardModel, c: Coordinates, s: CellState, d: Coordinates)
    requires
        m.valid(),
        m.in_bounds(c),
        m.in_bounds(d),
    ensures
        m.with_state(c, s).state(d) == if d == c {
            s
        } else {
            m.state(d)
        },
{
    lemma_index_of_cell(m, c);
    lemma_index_of_cell(m, d);
    if m.index(c) == m.index(d) {
        lemma_index_injective(m.width, c.x as int, c.y as int, d.x as int, d.y as int);
    }
}

/// A safe cell with no bomb around it has only safe neighbours.
pub proof fn lemma_empty_neighbor_safe(m: BoardModel, a: Coordinates, d: Coordinates)
    requires
        m.valid(),
        m.in_bounds(a),
        m.in_bounds(d),
        adjacent(a, d),
        m.tile(a) is Empty,
    ensures
        !m.is_bomb(d),
{
    lemma_index_of_cell(m, d);
    assert(m.tile(a) == tile_for_count(m.neighbor_bombs(a)));
    assert(m.bomb_mask()[m.index(d)] == m.is_bomb(d));
}

/// The uncovered safe cells number `width * height - bomb_count` exactly when
/// every safe cell is uncovered.
pub proof fn lemma_safe_uncovered_count(m: BoardModel)
    requires
        m.valid(),
    ensures
        count_true(m.uncovered_safe_mask()) <= m.cell_count() - m.bomb_count,
        m.all_safe_uncovered() <==> count_true(m.uncovered_safe_mask()) == m.cell_count()
            - m.bomb_count,
{
    let (a, b) = (m.uncovered_safe_mask(), m.bomb_mask());
    lemma_count_disjoint(a, b);
    if m.all_safe_uncovered() {
        assert forall|i: int| 0 <= i < a.len() implies #[trigger] a[i] || b[i] by {
            lemma_cell_of_index(m, i);
            assert(m.state(m.cell_at(i)) == m.states[i]);
        }
    }
    if count_true(a) == m.cell_count() - m.bomb_count {
        assert forall|c: Coordinates|
            #![trigger m.state(c)]
            m.in_bounds(c) && !m.is_bomb(c) implies m.state(c) == CellState::Uncovered by {
            lemma_index_of_cell(m, c);
            assert(a[m.index(c)] || b[m.index(c)]);
        }
    }
}

/// `cells[k]` is next to an earlier cell of `cells` that has no bomb around it.
pub open spec fn has_parent(before: BoardModel, cells: Seq<Coordinates>, k: int) -> bool {
    exists|j: int|
        #![trigger cells[j]]
        0 <= j < k && before.tile(cells[j]) is Empty && adjacent(cells[j], cells[k])
}

/// `cells` is what revealing `start` uncovers on `before`, leaving `after`:
/// it starts at `start`, holds covered safe cells only, each one after the
/// first next to an earlier cell without bombs around it, and it goes on
/// until every covered neighbour of such a cell has been uncovered.
pub open spec fn is_flood(
    before: BoardModel,
    after: BoardModel,
    start: Coordinates,
    cells: Seq<Coordinates>,
) -> bool {
    &&& after.same_layout(before)
    &&& cells.len() > 0
    &&& cells[0] == start
    &&& cells.no_duplicates()
    &&& forall|k: int|
        0 <= k < cells.len() ==> {
            let d = #[trigger] cells[k];
            &&& before.in_bounds(d)
            &&& before.state(d) == CellState::Covered
            &&& !before.is_bomb(d)
        }
    &&& forall|k: int| 0 < k < cells.len() ==> #[trigger] has_parent(before, cells, k)
    &&& forall|d: Coordinates|
        #![trigger after.state(d)]
        before.in_bounds(d) ==> after.state(d) == if cells.contains(d) {
            CellState::Uncovered
        } else {
            before.state(d)
        }
    &&& forall|k: int, d: Coordinates|
        #![trigger cells[k], after.state(d)]
        0 <= k < cells.len() && before.tile(cells[k]) is Empty && before.in_bounds(d) && adjacent(
            cells[k],
            d,
        ) ==> after.state(d) != CellState::Covered
}

/// The flood from `start` has uncovered `cells` so far and has looked at the
/// neighbours of the first `done` of them.
#[verifier::opaque]
pub open spec fn flood_progress(
    before: BoardModel,
    now: BoardModel,
    start: Coordinates,
    cells: Seq<Coordinates>,
    done: int,
) -> bool {
    &&& before.valid()
    &&& now.same_layout(before)
    &&& cells.len() > 0
    &&& cells[0] == start
    &&& 0 <= done <= cells.len()
    &&& forall|k1: int, k2: int|
        0 <= k1 < k2 < cells.len() ==> #[trigger] cells[k1] != #[trigger] cells[k2]
    &&& forall|k: int|
        0 <= k < cells.len() ==> {
            let d = #[trigger] cells[k];
            &&& before.in_bounds(d)
            &&& before.state(d) == CellState::Covered
            &&& !before.is_bomb(d)
        }
    &&& forall|k: int| 0 < k < cells.len() ==> #[trigger] has_parent(before, cells, k)
    &&& forall|d: Coordinates|
        #![trigger now.state(d)]
        before.in_bounds(d) ==> now.state(d) == if cells.contains(d) {
            CellState::Uncovered
        } else {
            before.state(d)
        }
    &&& forall|k: int, d: Coordinates|
        #![trigger cells[k], now.state(d)]
        0 <= k < done && before.tile(cells[k]) is Empty && before.in_bounds(d) && adjacent(
            cells[k],
            d,
        ) ==> now.state(d) != CellState::Covered
}

proof fn lemma_flood_cell(
    before: BoardModel,
    now: BoardModel,
    start: Coordinates,
    cells: Seq<Coordinates>,
    done: int,
)
    requires
        flood_progress(before, now, start, cells, done),
    ensures
        before.valid(),
        now.same_layout(before),
        0 <= done <= cells.len(),
        0 < cells.len(),
        forall|k: int|
            0 <= k < cells.len() ==> before.in_bounds(#[trigger] cells[k]) && !before.is_bomb(cells[k]),
{
    reveal(flood_progress);
}

/// A flood that has looked at the neighbours of every cell it uncovered is
/// finished.
proof fn lemma_flood_finished(
    before: BoardModel,
    now: BoardModel,
    start: Coordinates,
    cells: Seq<Coordinates>,
)
    requires
        flood_progress(before, now, start, cells, cells.len() as int),
    ensures
        is_flood(before, now, start, cells),
{
    reveal(flood_progress);
    assert forall|i: int, j: int|
        0 <= i < cells.len() && 0 <= j < cells.len() && i != j implies cells[i] != cells[j] by {
        if i < j {
            assert(cells[i] != cells[j]);
        } else {
            assert(cells[j] != cells[i]);
        }
    }
    assert(cells.no_duplicates());
}

/// What revealing `c` does to `before`: it returns `r` and leaves `after`.
pub open spec fn reveal_post(
    before: BoardModel,
    after: BoardModel,
    c: Coordinates,
    r: RevealOutcome,
) -> bool {
    if !before.in_bounds(c) {
        r == RevealOutcome::OutOfBounds && after == before
    } else {
        match before.state(c) {
            CellState::Uncovered => r == RevealOutcome::AlreadyUncovered && after == before,
            CellState::Flagged => r == RevealOutcome::Flagged && after == before,
            CellState::Covered => if before.is_bomb(c) {
                r == RevealOutcome::Exploded && after == before.with_state(c, CellState::Uncovered)
            } else {
                r matches RevealOutcome::Revealed(cells) && is_flood(before, after, c, cells@)
            },
        }
    }
}

/// What toggling the flag of `c` does to `before`: it returns `r` and
/// leaves `after`.
pub open spec fn toggle_post(
    before: BoardModel,
    after: BoardModel,
    c: Coordinates,
    r: FlagOutcome,
) -> bool {
    if !before.in_bounds(c) {
        r == FlagOutcome::OutOfBounds && after == before
    } else {
        match before.state(c) {
            CellState::Uncovered => r == FlagOutcome::NoOp && after == before,
            CellState::Covered => r == FlagOutcome::Flagged && after == before.with_state(
                c,
                CellState::Flagged,
            ),
            CellState::Flagged => r == FlagOutcome::Unflagged && after == before.with_state(
                c,
                CellState::Covered,
            ),
        }
    }
}

/// What `reveal_cell` did.
#[derive(Debug, Clone, PartialEq, Eq)]
pub enum RevealOutcome {
    /// The coordinates lie off the board; nothing changed.
    OutOfBounds,
    /// The cell was uncovered already; nothing changed.
    AlreadyUncovered,
    /// The cell carries a flag, which guards it; nothing changed.
    Flagged,
    /// The cell held a bomb; it is now uncovered and the game is lost.
    Exploded,
    /// These cells went from covered to uncovered, the target first.
    Revealed(Vec<Coordinates>),
}

/// What `toggle_flag` did.
#[derive(Debug, Clone, Copy, PartialEq, Eq, Structural)]
pub enum FlagOutcome {
    /// The coordinates lie off the board; nothing changed.
    OutOfBounds,
    /// The cell is uncovered and cannot be flagged; nothing changed.
    NoOp,
    Flagged,
    Unflagged,
}

/// A Minesweeper grid: the tile and the cover state of every cell, stored
/// row-major, with running counts of flagged cells and uncovered safe cells.
pub struct Board {
    width: u16,
    height: u16,
    bomb_count: usize,
    tiles: Vec<Tile>,
    states: Vec<CellState>,
    uncovered_safe: usize,
    flagged: usize,
}

impl View for Board {
    type V = BoardModel;

    closed spec fn view(&self) -> BoardModel {
        BoardModel {
            width: self.width as int,
            height: self.height as int,
            bomb_count: self.bomb_count as int,
            tiles: self.tiles@,
            states: self.states@,
        }
    }
}

/// 1 if `mask` is set at column `x`, row `y` of a `w` by `h` grid, else 0.
fn mask_value(mask: &Vec<bool>, w: usize, h: usize, x: i64, y: i64) -> (r: u8)
    requires
        mask@.len() == w * h,
        w <= 65535,
        h <= 65535,
    ensures
        r as nat == mask_at(mask@, w as int, h as int, x as int, y as int),
{
    if 0 <= x && x < w as i64 && 0 <= y && y < h as i64 {
        let len = mask.len();
        let xx = x as usize;
        let yy = y as usize;
        proof {
            lemma_index_in_range(w as int, h as int, xx as int, yy as int);
            assert(yy * w <= yy * w + xx);
            assert(yy * w + xx < mask@.len());
        }
        if mask[yy * w + xx] {
            1
        } else {
            0
        }
    } else {
        0
    }
}

/// The number of cells set in `mask` around column `x`, row `y`.
fn count_around(mask: &Vec<bool>, w: usize, h: usize, x: i64, y: i64) -> (r: u8)
    requires
        mask@.len() == w * h,
        w <= 65535,
        h <= 65535,
        0 <= x <= 65535,
        0 <= y <= 65535,
    ensures
        r as nat == bombs_around(mask@, w as int, h as int, x as int, y as int),
        r <= 8,
{
    mask_value(mask, w, h, x - 1, y - 1) + mask_value(mask, w, h, x, y - 1) + mask_value(
        mask,
        w,
        h,
        x + 1,
        y - 1,
    ) + mask_value(mask, w, h, x - 1, y) + mask_value(mask, w, h, x + 1, y) + mask_value(
        mask,
        w,
        h,
        x - 1,
        y + 1,
    ) + mask_value(mask, w, h, x, y + 1) + mask_value(mask, w, h, x + 1, y + 1)
}

impl Board {
    /// The stored counters agree with the cells.
    pub closed spec fn counters_agree(&self) -> bool {
        &&& self.uncovered_safe == count_true(self@.uncovered_safe_mask())
        &&& self.flagged == count_true(self@.flag_mask())
    }

    pub open spec fn wf(&self) -> bool {
        self@.valid() && self.counters_agree()
    }

    fn index_of(&self, c: Coordinates) -> (r: usize)
        requires
            self.wf(),
            self@.in_bounds(c),
        ensures
            r == self@.index(c),
            r < self@.tiles.len(),
    {
        let len = self.tiles.len();
        let x = c.x as usize;
        let y = c.y as usize;
        let w = self.width as usize;
        proof {
            lemma_index_of_cell(self@, c);
            assert(y * w <= y * w + x);
        }
        y * w + x
    }

    pub fn in_bounds(&self, c: Coordinates) -> (r: bool)
        ensures
            r == self@.in_bounds(c),
    {
        0 <= c.x && c.x < self.width as i32 && 0 <= c.y && c.y < self.height as i32
    }

    /// Puts cell `c` in state `s`, keeping the counters in step.
    fn set_state(&mut self, c: Coordinates, s: CellState)
        requires
            old(self).wf(),
            old(self)@.in_bounds(c),
        ensures
            final(self).wf(),
            final(self)@ == old(self)@.with_state(c, s),
            final(self).uncovered_safe == old(self).uncovered_safe - one_if(
                !old(self)@.is_bomb(c) && old(self)@.state(c) == CellState::Uncovered,
            ) + one_if(!old(self)@.is_bomb(c) && s == CellState::Uncovered),
    {
        let i = self.index_of(c);
        let ghost m = self@;
        let bomb = self.tiles[i].is_bomb();
        let was = self.states[i];
        let len = self.states.len();
        let was_flag = was == CellState::Flagged;
        let now_flag = s == CellState::Flagged;
        let was_open = !bomb && was == CellState::Uncovered;
        let now_open = !bomb && s == CellState::Uncovered;
        self.states.set(i, s);
        proof {
            let n = self@;
            assert(n.flag_mask() =~= m.flag_mask().update(i as int, now_flag));
            assert(n.uncovered_safe_mask() =~= m.uncovered_safe_mask().update(i as int, now_open));
            assert(n.bomb_mask() =~= m.bomb_mask());
            lemma_count_update(m.flag_mask(), i as int, now_flag);
            lemma_count_update(m.uncovered_safe_mask(), i as int, now_open);
            lemma_count_bound(n.flag_mask());
            lemma_count_bound(n.uncovered_safe_mask());
            assert forall|d: Coordinates|
                #![trigger n.tile(d)]
                n.in_bounds(d) && !n.is_bomb(d) implies n.tile(d) == tile_for_count(
                n.neighbor_bombs(d),
            ) by {
                assert(m.tile(d) == n.tile(d));
            }
        }
        if was_flag && !now_flag {
            self.flagged = self.flagged - 1;
        } else if !was_flag && now_flag {
            self.flagged = self.flagged + 1;
        }
        if was_open && !now_open {
            self.uncovered_safe = self.uncovered_safe - 1;
        } else if !was_open && now_open {
            self.uncovered_safe = self.uncovered_safe + 1;
        }
    }

    fn push_if_inside(&self, v: &mut Vec<Coordinates>, x: i64, y: i64)
        ensures
            0 <= x < self@.width && 0 <= y < self@.height ==> final(v)@ == old(v)@.push(
                Coordinates { x: x as i32, y: y as i32 },
            ),
            !(0 <= x < self@.width && 0 <= y < self@.height) ==> final(v)@ == old(v)@,
            forall|e: Coordinates| old(v)@.contains(e) ==> #[trigger] final(v)@.contains(e),
            0 <= x < self@.width && 0 <= y < self@.height ==> final(v)@.contains(
                Coordinates { x: x as i32, y: y as i32 },
            ),
    {
        if 0 <= x && x < self.width as i64 && 0 <= y && y < self.height as i64 {
            let ghost before = v@;
            v.push(Coordinates { x: x as i32, y: y as i32 });
            proof {
                assert(v@[before.len() as int] == Coordinates { x: x as i32, y: y as i32 });
                assert forall|e: Coordinates| before.contains(e) implies #[trigger] v@.contains(e) by {
                    let k = choose|k: int| 0 <= k < before.len() && before[k] == e;
                    assert(v@[k] == e);
                }
            }
        }
    }

    /// The cells of the board that touch `c`, each once.
    pub fn neighbors(&self, c: Coordinates) -> (r: Vec<Coordinates>)
        ensures
            forall|k: int|
                0 <= k < r@.len() ==> self@.in_bounds(#[trigger] r@[k]) && adjacent(c, r@[k]),
            forall|d: Coordinates| self@.in_bounds(d) && adjacent(c, d) ==> #[trigger] r@.contains(d),
            r@.no_duplicates(),
    {
        let x = c.x as i64;
        let y = c.y as i64;
        let mut v: Vec<Coordinates> = Vec::new();
        self.push_if_inside(&mut v, x - 1, y - 1);
        self.push_if_inside(&mut v, x, y - 1);
        self.push_if_inside(&mut v, x + 1, y - 1);
        self.push_if_inside(&mut v, x - 1, y);
        self.push_if_inside(&mut v, x + 1, y);
        self.push_if_inside(&mut v, x - 1, y + 1);
        self.push_if_inside(&mut v, x, y + 1);
        self.push_if_inside(&mut v, x + 1, y + 1);
        proof {
            assert forall|d: Coordinates| self@.in_bounds(d) && adjacent(c, d) implies #[trigger] v@.contains(d) by {
                assert(d == Coordinates { x: d.x as i64 as i32, y: d.y as i64 as i32 });
            }
        }
        v
    }

    /// Uncovers `d`, a covered cell next to `cells[done]`, which has no bomb
    /// around it, and appends it to `cells`.
    fn flood_step(
        &mut self,
        cells: &mut Vec<Coordinates>,
        d: Coordinates,
        Ghost(before): Ghost<BoardModel>,
        Ghost(start): Ghost<Coordinates>,
        Ghost(done): Ghost<int>,
        Ghost(base): Ghost<int>,
    )
        requires
            old(self).wf(),
            flood_progress(before, old(self)@, start, old(cells)@, done),
            done < old(cells)@.len(),
            before.tile(old(cells)@[done]) is Empty,
            before.in_bounds(d),
            adjacent(old(cells)@[done], d),
            old(self)@.state(d) == CellState::Covered,
            old(self).uncovered_safe == base + old(cells)@.len(),
        ensures
            final(self).wf(),
            flood_progress(before, final(self)@, start, final(cells)@, done),
            final(cells)@ == old(cells)@.push(d),
            final(self)@.same_layout(old(self)@),
            final(self)@ == old(self)@.with_state(d, CellState::Uncovered),
            final(self).uncovered_safe == base + final(cells)@.len(),
            forall|e: Coordinates|
                #![trigger final(self)@.state(e)]
                before.in_bounds(e) && old(self)@.state(e) != CellState::Covered
                    ==> final(self)@.state(e) != CellState::Covered,
    {
        let ghost prev = self@;
        let ghost old_cells = cells@;
        proof {
            reveal(flood_progress);
            lemma_empty_neighbor_safe(before, old_cells[done], d);
            assert(before.state(d) == CellState::Covered);
            if old_cells.contains(d) {
                let k = choose|k: int| 0 <= k < old_cells.len() && old_cells[k] == d;
            }
            lemma_with_state(prev, d, CellState::Uncovered, d);
        }
        self.set_state(d, CellState::Uncovered);
        cells.push(d);
        proof {
            reveal(flood_progress);
            let now = self@;
            let cs = cells@;
            assert(cs[old_cells.len() as int] == d);
            assert forall|k: int| 0 < k < cs.len() implies #[trigger] has_parent(before, cs, k) by {
                if k == old_cells.len() {
                    assert(cs[done] == old_cells[done]);
                } else {
                    assert(cs[k] == old_cells[k]);
                    assert(has_parent(before, old_cells, k));
                    let j = choose|j: int|
                        #![trigger old_cells[j]]
                        0 <= j < k && before.tile(old_cells[j]) is Empty && adjacent(old_cells[j], old_cells[k]);
                    assert(cs[j] == old_cells[j]);
                }
            }
            assert forall|e: Coordinates| #![trigger now.state(e)] before.in_bounds(e) implies now.state(e)
                == if cs.contains(e) {
                CellState::Uncovered
            } else {
                before.state(e)
            } by {
                lemma_with_state(prev, d, CellState::Uncovered, e);
                if old_cells.contains(e) {
                    let k = choose|k: int| 0 <= k < old_cells.len() && old_cells[k] == e;
                    assert(cs[k] == e);
                }
                if cs.contains(e) && e != d {
                    let k = choose|k: int| 0 <= k < cs.len() && cs[k] == e;
                    assert(old_cells[k] == e);
                }
            }
            assert forall|e: Coordinates|
                #![trigger now.state(e)]
                before.in_bounds(e) && prev.state(e) != CellState::Covered implies now.state(e)
                != CellState::Covered by {
                lemma_with_state(prev, d, CellState::Uncovered, e);
            }
            assert forall|k: int, e: Coordinates|
                #![trigger cs[k], now.state(e)]
                0 <= k < done && before.tile(cs[k]) is Empty && before.in_bounds(e) && adjacent(
                    cs[k],
                    e,
                ) implies now.state(e) != CellState::Covered by {
                assert(cs[k] == old_cells[k]);
                assert(prev.state(e) != CellState::Covered);
                lemma_with_state(prev, d, CellState::Uncovered, e);
            }
        }
    }

    /// Uncovers the covered neighbours of `cells[done]`, a cell with no bomb
    /// around it.
    fn expand(
        &mut self,
        cells: &mut Vec<Coordinates>,
        Ghost(before): Ghost<BoardModel>,
        Ghost(start): Ghost<Coordinates>,
        done: usize,
        Ghost(base): Ghost<int>,
    )
        requires
            old(self).wf(),
            flood_progress(before, old(self)@, start, old(cells)@, done as int),
            0 <= done < old(cells)@.len(),
            before.tile(old(cells)@[done as int]) is Empty,
            old(self).uncovered_safe == base + old(cells)@.len(),
        ensures
            final(self).wf(),
            flood_progress(before, final(self)@, start, final(cells)@, done + 1),
            final(self).uncovered_safe == base + final(cells)@.len(),
    {
        let cur = cells[done];
        proof {
            lemma_flood_cell(before, self@, start, cells@, done as int);
        }
        let nbs = self.neighbors(cur);
        let mut t: usize = 0;
        while t < nbs.len()
            invariant
                self.wf(),
                flood_progress(before, self@, start, cells@, done as int),
                self@.same_layout(before),
                before.valid(),
                before.in_bounds(cur),
                0 <= done < cells@.len(),
                cells@[done as int] == cur,
                before.tile(cur) is Empty,
                self.uncovered_safe == base + cells@.len(),
                t <= nbs@.len(),
                forall|k: int|
                    0 <= k < nbs@.len() ==> before.in_bounds(#[trigger] nbs@[k]) && adjacent(cur, nbs@[k]),
                forall|d: Coordinates| before.in_bounds(d) && adjacent(cur, d) ==> #[trigger] nbs@.contains(d),
                forall|m: int| 0 <= m < t ==> self@.state(#[trigger] nbs@[m]) != CellState::Covered,
            decreases nbs@.len() - t,
        {
            let d = nbs[t];
            let di = self.index_of(d);
            if self.states[di] == CellState::Covered {
                let ghost prev = self@;
                self.flood_step(cells, d, Ghost(before), Ghost(start), Ghost(done as int), Ghost(base));
                proof {
                    assert forall|m: int| 0 <= m < t implies self@.state(#[trigger] nbs@[m]) != CellState::Covered by {
                        assert(prev.state(nbs@[m]) != CellState::Covered);
                    }
                    lemma_with_state(prev, d, CellState::Uncovered, d);
                }
            }
            t += 1;
        }
        proof {
            reveal(flood_progress);
            assert forall|k: int, e: Coordinates|
                #![trigger cells@[k], self@.state(e)]
                0 <= k < done + 1 && before.tile(cells@[k]) is Empty && before.in_bounds(e) && adjacent(
                    cells@[k],
                    e,
                ) implies self@.state(e) != CellState::Covered by {
                if k == done {
                    assert(nbs@.contains(e));
                    let m = choose|m: int| 0 <= m < nbs@.len() && nbs@[m] == e;
                }
            }
        }
    }

    /// Uncovers `start`, a covered safe cell, and from every uncovered cell
    /// with no bomb around it goes on to its covered neighbours.
    fn flood(&mut self, start: Coordinates) -> (cells: Vec<Coordinates>)
        requires
            old(self).wf(),
            old(self)@.in_bounds(start),
            old(self)@.state(start) == CellState::Covered,
            !old(self)@.is_bomb(start),
        ensures
            final(self).wf(),
            is_flood(old(self)@, final(self)@, start, cells@),
    {
        let ghost before = self@;
        let ghost base = self.uncovered_safe as int;
        self.set_state(start, CellState::Uncovered);
        let mut cells: Vec<Coordinates> = Vec::new();
        cells.push(start);
        proof {
            reveal(flood_progress);
            assert forall|e: Coordinates| #![trigger self@.state(e)] before.in_bounds(e) implies self@.state(e)
                == if cells@.contains(e) {
                CellState::Uncovered
            } else {
                before.state(e)
            } by {
                lemma_with_state(before, start, CellState::Uncovered, e);
                if cells@.contains(e) {
                    let k = choose|k: int| 0 <= k < cells@.len() && cells@[k] == e;
                }
                if e == start {
                    assert(cells@[0] == e);
                }
            }
        }
        let mut head: usize = 0;
        while head < cells.len()
            invariant
                self.wf(),
                flood_progress(before, self@, start, cells@, head as int),
                self.uncovered_safe == base + cells@.len(),
                base >= 0,
                cells@.len() <= before.tiles.len(),
            decreases before.tiles.len() - head,
        {
            let cur = cells[head];
            proof {
                lemma_flood_cell(before, self@, start, cells@, head as int);
            }
            let ci = self.index_of(cur);
            let empty = match self.tiles[ci] {
                Tile::Empty => true,
                _ => false,
            };
            if empty {
                self.expand(&mut cells, Ghost(before), Ghost(start), head, Ghost(base));
            } else {
                proof {
                    reveal(flood_progress);
                }
            }
            proof {
                lemma_flood_cell(before, self@, start, cells@, head as int + 1);
                lemma_count_bound(self@.uncovered_safe_mask());
                assert(self.uncovered_safe <= self@.states.len());
                assert(self@.states.len() == before.tiles.len());
            }
            head += 1;
        }
        proof {
            lemma_flood_finished(before, self@, start, cells@);
        }
        cells
    }

    /// Reveals cell `c`: a flag guards it, an uncovered cell stays as it is,
    /// a bomb explodes, and a safe cell starts a flood fill.
    pub fn reveal_cell(&mut self, c: Coordinates) -> (r: RevealOutcome)
        requires
            old(self).wf(),
        ensures
            final(self).wf(),
            reveal_post(old(self)@, final(self)@, c, r),
    {
        if !self.in_bounds(c) {
            return RevealOutcome::OutOfBounds;
        }
        let i = self.index_of(c);
        match self.states[i] {
            CellState::Uncovered => RevealOutcome::AlreadyUncovered,
            CellState::Flagged => RevealOutcome::Flagged,
            CellState::Covered => {
                if self.tiles[i].is_bomb() {
                    self.set_state(c, CellState::Uncovered);
                    RevealOutcome::Exploded
                } else {
                    RevealOutcome::Revealed(self.flood(c))
                }
            },
        }
    }

    /// Flags a covered cell or unflags a flagged one; an uncovered cell
    /// cannot carry a flag.
    pub fn toggle_flag(&mut self, c: Coordinates) -> (r: FlagOutcome)
        requires
            old(self).wf(),
        ensures
            final(self).wf(),
            toggle_post(old(self)@, final(self)@, c, r),
    {
        if !self.in_bounds(c) {
            return FlagOutcome::OutOfBounds;
        }
        let i = self.index_of(c);
        match self.states[i] {
            CellState::Uncovered => FlagOutcome::NoOp,
            CellState::Covered => {
                self.set_state(c, CellState::Flagged);
                FlagOutcome::Flagged
            },
            CellState::Flagged => {
                self.set_state(c, CellState::Covered);
                FlagOutcome::Unflagged
            },
        }
    }

    pub fn width(&self) -> (r: u16)
        ensures
            r == self@.width,
    {
        self.width
    }

    pub fn height(&self) -> (r: u16)
        ensures
            r == self@.height,
    {
        self.height
    }

    pub fn bomb_count(&self) -> (r: usize)
        ensures
            r == self@.bomb_count,
    {
        self.bomb_count
    }

    /// The number of flagged cells.
    pub fn flagged_count(&self) -> (r: usize)
        requires
            self.wf(),
        ensures
            r == count_true(self@.flag_mask()),
    {
        self.flagged
    }

    /// The number of uncovered cells without a bomb.
    pub fn uncovered_safe_count(&self) -> (r: usize)
        requires
            self.wf(),
        ensures
            r == count_true(self@.uncovered_safe_mask()),
    {
        self.uncovered_safe
    }

    /// The number of safe cells still to uncover.
    pub fn safe_tiles_remaining(&self) -> (r: usize)
        requires
            self.wf(),
        ensures
            r == self@.cell_count() - self@.bomb_count - count_true(self@.uncovered_safe_mask()),
    {
        proof {
            lemma_safe_uncovered_count(self@);
        }
        self.tiles.len() - self.bomb_count - self.uncovered_safe
    }

    /// The tile at `c`, if `c` lies on the board.
    pub fn tile_at(&self, c: Coordinates) -> (r: Option<Tile>)
        requires
            self.wf(),
        ensures
            r == if self@.in_bounds(c) {
                Some(self@.tile(c))
            } else {
                None::<Tile>
            },
    {
        if self.in_bounds(c) {
            Some(self.tiles[self.index_of(c)])
        } else {
            None
        }
    }

    /// The state of the cell at `c`, if `c` lies on the board.
    pub fn state_at(&self, c: Coordinates) -> (r: Option<CellState>)
        requires
            self.wf(),
        ensures
            r == if self@.in_bounds(c) {
                Some(self@.state(c))
            } else {
                None::<CellState>
            },
    {
        if self.in_bounds(c) {
            Some(self.states[self.index_of(c)])
        } else {
            None
        }
    }

    /// Whether every safe cell has been uncovered; flags play no part.
    pub fn is_won(&self) -> (r: bool)
        requires
            self.wf(),
        ensures
            r == self@.all_safe_uncovered(),
    {
        let n = self.tiles.len();
        proof {
            lemma_safe_uncovered_count(self@);
        }
        self.uncovered_safe == n - self.bomb_count
    }

    /// Builds the board of the given size with bombs at exactly the given
    /// positions, every cell covered and every safe tile numbered.
    pub fn new(width: u16, height: u16, bombs: &Vec<Coordinates>) -> (r: Result<Board, BoardError>)
        ensures
            r is Ok <==> valid_layout(width as int, height as int, bombs@),
            r is Err ==> r == Err::<Board, BoardError>(BoardError::InvalidConfiguration),
            r matches Ok(b) ==> {
                &&& b.wf()
                &&& b@.width == width
                &&& b@.height == height
                &&& b@.bomb_count == bombs@.len()
                &&& forall|c: Coordinates|
                    #![trigger b@.tile(c)]
                    b@.in_bounds(c) ==> (b@.is_bomb(c) <==> bombs@.contains(c))
                &&& forall|c: Coordinates|
                    #![trigger b@.state(c)]
                    b@.in_bounds(c) ==> b@.state(c) == CellState::Covered
            },
    {
        if width == 0 || height == 0 {
            return Err(BoardError::InvalidConfiguration);
        }
        let w = width as usize;
        let h = height as usize;
        proof {
            lemma_index_in_range(w as int, h as int, (w - 1) as int, (h - 1) as int);
            assert(w * h <= 65535 * 65535) by (nonlinear_arith)
                requires
                    w <= 65535,
                    h <= 65535,
            ;
        }
        let n = w * h;
        if bombs.len() >= n {
            return Err(BoardError::InvalidConfiguration);
        }
        let mut mask: Vec<bool> = Vec::new();
        let mut i: usize = 0;
        while i < n
            invariant
                mask@.len() == i,
                i <= n,
                count_true(mask@) == 0,
                forall|j: int| 0 <= j < i ==> !#[trigger] mask@[j],
            decreases n - i,
        {
            proof {
                lemma_count_push(mask@, false);
            }
            mask.push(false);
            i += 1;
        }
        let ghost model_w = w as int;
        proof {
            assert forall|c: Coordinates|
                0 <= c.x < w && 0 <= c.y < h implies !#[trigger] mask@[grid_index(
                model_w,
                c.x as int,
                c.y as int,
            )] by {
                lemma_index_in_range(w as int, h as int, c.x as int, c.y as int);
            }
        }
        let mut k: usize = 0;
        while k < bombs.len()
            invariant
                mask@.len() == n,
                n == w * h,
                w == width,
                h == height,
                model_w == w,
                0 < w <= 65535,
                0 < h <= 65535,
                k <= bombs@.len(),
                count_true(mask@) == k,
                forall|j: int|
                    0 <= j < k ==> {
                        let c = #[trigger] bombs@[j];
                        0 <= c.x < w && 0 <= c.y < h
                    },
                forall|j1: int, j2: int|
                    0 <= j1 < j2 < k ==> #[trigger] bombs@[j1] != #[trigger] bombs@[j2],
                forall|c: Coordinates|
                    0 <= c.x < w && 0 <= c.y < h ==> (#[trigger] mask@[grid_index(
                        model_w,
                        c.x as int,
                        c.y as int,
                    )] <==> exists|j: int| 0 <= j < k && bombs@[j] == c),
            decreases bombs@.len() - k,
        {
            let c = bombs[k];
            if c.x < 0 || c.x >= width as i32 || c.y < 0 || c.y >= height as i32 {
                return Err(BoardError::InvalidConfiguration);
            }
            proof {
                lemma_index_in_range(w as int, h as int, c.x as int, c.y as int);
            }
            let idx = (c.y as usize) * w + (c.x as usize);
            assert(idx == grid_index(model_w, c.x as int, c.y as int));
            if mask[idx] {
                proof {
                    let j = choose|j: int| 0 <= j < k && bombs@[j] == c;
                    assert(bombs@[j] == bombs@[k as int]);
                }
                return Err(BoardError::InvalidConfiguration);
            }
            proof {
                lemma_count_update(mask@, idx as int, true);
            }
            let ghost old_mask = mask@;
            mask.set(idx, true);
            proof {
                assert forall|d: Coordinates|
                    0 <= d.x < w && 0 <= d.y < h implies (#[trigger] mask@[grid_index(
                    model_w,
                    d.x as int,
                    d.y as int,
                )] <==> exists|j: int| 0 <= j < k + 1 && bombs@[j] == d) by {
                    if d != c {
                        let di = grid_index(model_w, d.x as int, d.y as int);
                        lemma_index_in_range(w as int, h as int, d.x as int, d.y as int);
                        if di == idx {
                            lemma_index_injective(model_w, d.x as int, d.y as int, c.x as int, c.y as int);
                            assert(d == c);
                        }
                        assert(mask@[di] == old_mask[di]);
                        if exists|j: int| 0 <= j < k + 1 && bombs@[j] == d {
                            let j = choose|j: int| 0 <= j < k + 1 && bombs@[j] == d;
                            assert(j < k);
                        }
                        if exists|j: int| 0 <= j < k && bombs@[j] == d {
                            let j = choose|j: int| 0 <= j < k && bombs@[j] == d;
                            assert(0 <= j < k + 1 && bombs@[j] == d);
                        }
                    } else {
                        assert(bombs@[k as int] == d);
                    }
                }
            }
            k += 1;
        }
        let mut tiles: Vec<Tile> = Vec::new();
        let mut states: Vec<CellState> = Vec::new();
        let mut y: usize = 0;
        while y < h
            invariant
                mask@.len() == n,
                n == w * h,
                w == width,
                h == height,
                model_w == w,
                0 < w <= 65535,
                0 < h <= 65535,
                y <= h,
                tiles@.len() == grid_index(model_w, 0, y as int),
                states@.len() == tiles@.len(),
                forall|j: int| 0 <= j < tiles@.len() ==> (#[trigger] tiles@[j] is Bomb) == mask@[j],
                forall|j: int| 0 <= j < states@.len() ==> #[trigger] states@[j] == CellState::Covered,
                forall|c: Coordinates|
                    0 <= c.x < w && 0 <= c.y < y ==> {
                        let t = #[trigger] tiles@[grid_index(model_w, c.x as int, c.y as int)];
                        !(t is Bomb) ==> t == tile_for_count(
                            bombs_around(mask@, w as int, h as int, c.x as int, c.y as int),
                        )
                    },
            decreases h - y,
        {
            let mut x: usize = 0;
            while x < w
                invariant
                    mask@.len() == n,
                    n == w * h,
                    model_w == w,
                    0 < w <= 65535,
                    0 < h <= 65535,
                    y < h,
                    x <= w,
                    tiles@.len() == grid_index(model_w, x as int, y as int),
                    states@.len() == tiles@.len(),
                    forall|j: int| 0 <= j < tiles@.len() ==> (#[trigger] tiles@[j] is Bomb) == mask@[j],
                    forall|j: int| 0 <= j < states@.len() ==> #[trigger] states@[j] == CellState::Covered,
                    forall|c: Coordinates|
                        0 <= c.x < w && 0 <= c.y <= y && (c.y < y || c.x < x) ==> {
                            let t = #[trigger] tiles@[grid_index(model_w, c.x as int, c.y as int)];
                            !(t is Bomb) ==> t == tile_for_count(
                                bombs_around(mask@, w as int, h as int, c.x as int, c.y as int),
                            )
                        },
                decreases w - x,
            {
                proof {
                    lemma_index_in_range(w as int, h as int, x as int, y as int);
                }
                let idx = y * w + x;
                let tile = if mask[idx] {
                    Tile::Bomb
                } else {
                    Tile::from_count(count_around(&mask, w, h, x as i64, y as i64))
                };
                let ghost old_tiles = tiles@;
                tiles.push(tile);
                states.push(CellState::Covered);
                proof {
                    assert forall|c: Coordinates|
                        0 <= c.x < w && 0 <= c.y <= y && (c.y < y || c.x < x + 1) implies {
                        let t = #[trigger] tiles@[grid_index(model_w, c.x as int, c.y as int)];
                        !(t is Bomb) ==> t == tile_for_count(
                            bombs_around(mask@, w as int, h as int, c.x as int, c.y as int),
                        )
                    } by {
                        if c.y < y || c.x < x {
                            lemma_index_before(model_w, c.x as int, c.y as int, x as int, y as int);
                            assert(tiles@[grid_index(model_w, c.x as int, c.y as int)]
                                == old_tiles[grid_index(model_w, c.x as int, c.y as int)]);
                        }
                    }
                }
                x += 1;
            }
            proof {
                lemma_next_row(model_w, y as int);
            }
            y += 1;
        }
        let b = Board {
            width,
            height,
            bomb_count: bombs.len(),
            tiles,
            states,
            uncovered_safe: 0,
            flagged: 0,
        };
        proof {
            assert(grid_index(model_w, 0, h as int) == w * h) by (nonlinear_arith)
                requires
                    model_w == w,
            ;
            assert(tiles@.len() == n);
            assert(b@.bomb_mask() =~= mask@);
            lemma_count_zero(b@.uncovered_safe_mask());
            lemma_count_zero(b@.flag_mask());
            assert forall|c: Coordinates|
                #![trigger b@.tile(c)]
                b@.in_bounds(c) implies (b@.is_bomb(c) <==> bombs@.contains(c)) by {
                lemma_index_in_range(w as int, h as int, c.x as int, c.y as int);
                if bombs@.contains(c) {
                    let j = choose|j: int| 0 <= j < bombs@.len() && bombs@[j] == c;
                }
            }
            assert forall|c: Coordinates|
                #![trigger b@.state(c)]
                b@.in_bounds(c) implies b@.state(c) == CellState::Covered by {
                lemma_index_in_range(w as int, h as int, c.x as int, c.y as int);
            }
        }
        Ok(b)
    }
}

} // verus!
