use vstd::prelude::*;
use crate::board::{Board, BoardError};
use crate::coordinates::{adjacent, Coordinates};
use crate::tile::CellState;

verus! {

broadcast use vstd::seq_lib::lemma_seq_contains_after_push;

/// `c` is the safe start cell or one of its neighbours.
pub open spec fn in_safe_zone(safe: Option<Coordinates>, c: Coordinates) -> bool {
    match safe {
        Some(s) => c == s || adjacent(s, c),
        None => false,
    }
}

/// `c` lies on a `w` by `h` grid outside the safe zone.
pub open spec fn eligible(w: int, h: int, safe: Option<Coordinates>, c: Coordinates) -> bool {
    0 <= c.x < w && 0 <= c.y < h && !in_safe_zone(safe, c)
}

/// The cells that may receive a bomb.
pub open spec fn eligible_cells(w: int, h: int, safe: Option<Coordinates>) -> Set<Coordinates> {
    Set::new(|c: Coordinates| eligible(w, h, safe, c))
}

/// A bomb count that a `w` by `h` grid with this safe zone can hold while
/// keeping a safe cell.
pub open spec fn placement_possible(
    w: int,
    h: int,
    bomb_count: int,
    safe: Option<Coordinates>,
) -> bool {
    &&& 0 < w
    &&& 0 < h
    &&& bomb_count < w * h
    &&& bomb_count <= eligible_cells(w, h, safe).len()
}

/// Row-major order: `c` comes before column `x` of row `y`.
pub open spec fn precedes(c: Coordinates, x: int, y: int) -> bool {
    c.y < y || (c.y == y && c.x < x)
}

/// One step of the xorshift64 generator.
fn next_random(s: u64) -> u64 {
    let a = s ^ (s << 13);
    let b = a ^ (a >> 7);
    b ^ (b << 17)
}

/// All cells outside the safe zone, in row-major order.
fn eligible_list(width: u16, height: u16, safe: Option<Coordinates>) -> (r: Vec<Coordinates>)
    ensures
        r@.no_duplicates(),
        forall|c: Coordinates|
            eligible(width as int, height as int, safe, c) <==> #[trigger] r@.contains(c),
{
    let mut pool: Vec<Coordinates> = Vec::new();
    let mut y: u16 = 0;
    while y < height
        invariant
            y <= height,
            pool@.no_duplicates(),
            forall|k: int|
                0 <= k < pool@.len() ==> eligible(width as int, height as int, safe, #[trigger] pool@[k])
                    && pool@[k].y < y,
            forall|c: Coordinates|
                eligible(width as int, height as int, safe, c) && c.y < y ==> #[trigger] pool@.contains(c),
        decreases height - y,
    {
        let mut x: u16 = 0;
        while x < width
            invariant
                y < height,
                x <= width,
                pool@.no_duplicates(),
                forall|k: int|
                    0 <= k < pool@.len() ==> eligible(width as int, height as int, safe, #[trigger] pool@[k])
                        && precedes(pool@[k], x as int, y as int),
                forall|c: Coordinates|
                    eligible(width as int, height as int, safe, c) && precedes(c, x as int, y as int)
                        ==> #[trigger] pool@.contains(c),
            decreases width - x,
        {
            let c = Coordinates { x: x as i32, y: y as i32 };
            let in_zone = match safe {
                Some(s) => {
                    let dx = s.x as i64 - x as i64;
                    let dy = s.y as i64 - y as i64;
                    -1 <= dx && dx <= 1 && -1 <= dy && dy <= 1
                },
                None => false,
            };
            if !in_zone {
                let ghost old_pool = pool@;
                pool.push(c);
                proof {
                    assert forall|i: int, j: int|
                        0 <= i < pool@.len() && 0 <= j < pool@.len() && i != j implies pool@[i]
                        != pool@[j] by {
                        if i < old_pool.len() && j < old_pool.len() {
                            assert(old_pool[i] != old_pool[j]);
                        } else if i < old_pool.len() {
                            assert(precedes(old_pool[i], x as int, y as int));
                        } else {
                            assert(precedes(old_pool[j], x as int, y as int));
                        }
                    }
                }
            }
            proof {
                assert forall|d: Coordinates|
                    eligible(width as int, height as int, safe, d) && precedes(d, x + 1, y as int)
                        implies #[trigger] pool@.contains(d) by {
                    if d.x == x && d.y == y {
                        assert(d == c);
                    }
                }
            }
            x += 1;
        }
        y += 1;
    }
    pool
}

/// Chooses `bomb_count` distinct cells outside the safe zone (the safe cell
/// and its neighbours) by drawing from a xorshift generator started from
/// `seed`, without replacement. Fails when the grid is empty, when no safe
/// cell would be left, or when the safe zone leaves too few cells.
pub fn place_bombs(
    width: u16,
    height: u16,
    bomb_count: usize,
    safe: Option<Coordinates>,
    seed: u64,
) -> (r: Result<Vec<Coordinates>, BoardError>)
    ensures
        r is Ok <==> placement_possible(width as int, height as int, bomb_count as int, safe),
        r is Err ==> r == Err::<Vec<Coordinates>, BoardError>(BoardError::InvalidConfiguration),
        r matches Ok(bombs) ==> {
            &&& bombs@.len() == bomb_count
            &&& bombs@.no_duplicates()
            &&& forall|k: int|
                0 <= k < bombs@.len() ==> eligible(width as int, height as int, safe, #[trigger] bombs@[k])
        },
{
    if width == 0 || height == 0 {
        return Err(BoardError::InvalidConfiguration);
    }
    let w = width as u64;
    let h = height as u64;
    proof {
        assert(w * h <= 65535 * 65535) by (nonlinear_arith)
            requires
                w <= 65535,
                h <= 65535,
        ;
    }
    let n = w * h;
    let mut pool = eligible_list(width, height, safe);
    proof {
        assert forall|k: int| 0 <= k < pool@.len() implies eligible(
            width as int,
            height as int,
            safe,
            #[trigger] pool@[k],
        ) by {
            assert(pool@.contains(pool@[k]));
        }
        pool@.unique_seq_to_set();
        assert(pool@.to_set() =~= eligible_cells(width as int, height as int, safe));
    }
    if bomb_count as u64 >= n || bomb_count > pool.len() {
        return Err(BoardError::InvalidConfiguration);
    }
    let mut state: u64 = seed ^ 0x9E37_79B9_7F4A_7C15;
    if state == 0 {
        state = 1;
    }
    let mut bombs: Vec<Coordinates> = Vec::new();
    while bombs.len() < bomb_count
        invariant
            bomb_count <= bombs@.len() + pool@.len(),
            bombs@.len() <= bomb_count,
            pool@.no_duplicates(),
            bombs@.no_duplicates(),
            forall|k: int|
                0 <= k < pool@.len() ==> eligible(width as int, height as int, safe, #[trigger] pool@[k]),
            forall|k: int|
                0 <= k < bombs@.len() ==> eligible(width as int, height as int, safe, #[trigger] bombs@[k])
                    && !pool@.contains(bombs@[k]),
        decreases bomb_count - bombs@.len(),
    {
        state = next_random(state);
        let j = (state % (pool.len() as u64)) as usize;
        let ghost old_pool = pool@;
        let ghost old_bombs = bombs@;
        let c = pool.swap_remove(j);
        proof {
            assert forall|k: int| 0 <= k < pool@.len() implies #[trigger] pool@[k] == old_pool[k] || (k
                == j && pool@[k] == old_pool[old_pool.len() - 1]) by {}
            assert forall|e: Coordinates| #[trigger] pool@.contains(e) implies old_pool.contains(e) && e != c by {
                let k = choose|k: int| 0 <= k < pool@.len() && pool@[k] == e;
                if k == j {
                    assert(old_pool[old_pool.len() - 1] == e);
                } else {
                    assert(old_pool[k] == e);
                }
            }
            assert(pool@.no_duplicates()) by {
                assert forall|a: int, b: int|
                    0 <= a < pool@.len() && 0 <= b < pool@.len() && a != b implies pool@[a] != pool@[b] by {
                    let ia = if a == j { old_pool.len() - 1 } else { a };
                    let ib = if b == j { old_pool.len() - 1 } else { b };
                    assert(old_pool[ia] == pool@[a] && old_pool[ib] == pool@[b]);
                }
            }
            assert(old_pool.contains(c));
        }
        bombs.push(c);
        proof {
            assert forall|a: int, b: int|
                0 <= a < bombs@.len() && 0 <= b < bombs@.len() && a != b implies bombs@[a] != bombs@[b] by {
                if a < old_bombs.len() && b < old_bombs.len() {
                    assert(old_bombs[a] != old_bombs[b]);
                } else if a < old_bombs.len() {
                    assert(!old_pool.contains(old_bombs[a]));
                } else {
                    assert(!old_pool.contains(old_bombs[b]));
                }
            }
            assert forall|k: int| 0 <= k < bombs@.len() implies !pool@.contains(#[trigger] bombs@[k]) by {
                if k < old_bombs.len() {
                    assert(!old_pool.contains(old_bombs[k]));
                }
            }
        }
    }
    Ok(bombs)
}

impl Board {
    /// A fresh board with `bomb_count` bombs placed at random from `seed`,
    /// none of them on the safe start cell or around it.
    pub fn generate(
        width: u16,
        height: u16,
        bomb_count: usize,
        safe: Option<Coordinates>,
        seed: u64,
    ) -> (r: Result<Board, BoardError>)
        ensures
            r is Ok <==> placement_possible(width as int, height as int, bomb_count as int, safe),
            r is Err ==> r == Err::<Board, BoardError>(BoardError::InvalidConfiguration),
            r matches Ok(b) ==> {
                &&& b.wf()
                &&& b@.width == width
                &&& b@.height == height
                &&& b@.bomb_count == bomb_count
                &&& crate::counting::count_true(b@.bomb_mask()) == bomb_count
                &&& forall|c: Coordinates|
                    #![trigger b@.tile(c)]
                    b@.in_bounds(c) && in_safe_zone(safe, c) ==> !b@.is_bomb(c)
                &&& forall|c: Coordinates|
                    #![trigger b@.state(c)]
                    b@.in_bounds(c) ==> b@.state(c) == CellState::Covered
            },
    {
        let bombs = match place_bombs(width, height, bomb_count, safe, seed) {
            Ok(bombs) => bombs,
            Err(e) => return Err(e),
        };
        let r = Board::new(width, height, &bombs);
        proof {
            if r is Ok {
                let b = r->Ok_0;
                assert forall|c: Coordinates|
                    #![trigger b@.tile(c)]
                    b@.in_bounds(c) && in_safe_zone(safe, c) implies !b@.is_bomb(c) by {
                    if bombs@.contains(c) {
                        let k = choose|k: int| 0 <= k < bombs@.len() && bombs@[k] == c;
                    }
                }
            }
        }
        r
    }
}

} // verus!
