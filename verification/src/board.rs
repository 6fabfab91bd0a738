use vstd::prelude::*;

use crate::teto::{Teto, TetoType};
use crate::util::{ts_wf, CLEAR_MS, CLOCK_LIMIT_MS, GRID_COLS, GRID_ROWS};

verus! {

/// The grid as the contracts see it: a sequence of `GRID_ROWS` rows,
/// each a sequence of `GRID_COLS` cells, a cell being empty (`None`)
/// or filled with the type of the piece that placed it.
pub open spec fn grid_wf(g: Seq<Seq<Option<TetoType>>>) -> bool {
    &&& g.len() == GRID_ROWS
    &&& forall|i: int| 0 <= i < g.len() ==> (#[trigger] g[i]).len() == GRID_COLS
}

/// The collision rule of the board. Columns outside `[0, GRID_COLS)` are
/// always blocked; rows at or below the bottom (`i >= GRID_ROWS`) are always
/// blocked; rows above the grid (`i < 0`) are always open as long as the
/// column is in range, so pieces may exist above the visible grid.
pub open spec fn cell_filled(g: Seq<Seq<Option<TetoType>>>, i: int, j: int) -> bool {
    if i < 0 {
        !(0 <= j < GRID_COLS)
    } else {
        !(i < GRID_ROWS && 0 <= j < GRID_COLS && g[i][j] is None)
    }
}

/// A shape placed with its anchor at `(i, j)` does not collide with the board.
pub open spec fn shape_fits(g: Seq<Seq<Option<TetoType>>>, shape: Seq<(i32, i32)>, i: int, j: int) -> bool {
    forall|k: int| 0 <= k < shape.len()
        ==> !cell_filled(g, i + (#[trigger] shape[k]).0, j + shape[k].1)
}

/// Every column of row `i` is filled.
pub open spec fn spec_row_full(g: Seq<Seq<Option<TetoType>>>, i: int) -> bool {
    forall|j: int| 0 <= j < GRID_COLS ==> (#[trigger] g[i][j]) is Some
}

/// Number of full rows among the first `n` rows.
pub open spec fn count_full(g: Seq<Seq<Option<TetoType>>>, n: int) -> int
    decreases n,
{
    if n <= 0 {
        0
    } else {
        count_full(g, n - 1) + if spec_row_full(g, n - 1) { 1int } else { 0int }
    }
}

/// Index of the topmost full row among the first `n` rows, or -1 if none.
pub open spec fn first_full_row(g: Seq<Seq<Option<TetoType>>>, n: int) -> int
    decreases n,
{
    if n <= 0 {
        -1
    } else if first_full_row(g, n - 1) != -1 {
        first_full_row(g, n - 1)
    } else if spec_row_full(g, n - 1) {
        n - 1
    } else {
        -1
    }
}

/// Whether the cell list of a piece covers grid position `(i, j)`.
pub open spec fn in_cells(cells: Seq<(int, int)>, i: int, j: int) -> bool {
    exists|k: int| 0 <= k < cells.len() && (#[trigger] cells[k]).0 == i && cells[k].1 == j
}

/// All listed cells lie inside the visible grid.
pub open spec fn all_in_bounds(cells: Seq<(int, int)>) -> bool {
    forall|k: int| 0 <= k < cells.len()
        ==> 0 <= (#[trigger] cells[k]).0 < GRID_ROWS && 0 <= cells[k].1 < GRID_COLS
}

/// The grid after writing colour `t` into every in-bounds cell of `cells`.
/// Cells outside the grid are silently skipped (they trigger game over
/// instead, see `Board::add`).
pub open spec fn placed(g: Seq<Seq<Option<TetoType>>>, cells: Seq<(int, int)>, t: TetoType) -> Seq<Seq<Option<TetoType>>> {
    Seq::new(GRID_ROWS as nat, |i: int| Seq::new(GRID_COLS as nat, |j: int|
        if in_cells(cells, i, j) { Some(t) } else { g[i][j] }))
}

/// A row of `GRID_COLS` empty cells.
pub open spec fn empty_row() -> Seq<Option<TetoType>> {
    Seq::new(GRID_COLS as nat, |j: int| None::<TetoType>)
}

/// `n` empty rows.
pub open spec fn empty_rows(n: int) -> Seq<Seq<Option<TetoType>>> {
    Seq::new(n as nat, |i: int| empty_row())
}

/// Number of marked rows among the first `k`.
pub open spec fn num_marked(marked: Seq<bool>, k: int) -> int
    decreases k,
{
    if k <= 0 {
        0
    } else {
        num_marked(marked, k - 1) + if marked[k - 1] { 1int } else { 0int }
    }
}

/// The unmarked rows among the first `k`, in their original order.
pub open spec fn unmarked_prefix(g: Seq<Seq<Option<TetoType>>>, marked: Seq<bool>, k: int) -> Seq<Seq<Option<TetoType>>>
    decreases k,
{
    if k <= 0 {
        Seq::empty()
    } else if marked[k - 1] {
        unmarked_prefix(g, marked, k - 1)
    } else {
        unmarked_prefix(g, marked, k - 1).push(g[k - 1])
    }
}

/// The grid after resolving the marked rows: every marked row is removed,
/// the rows above it shift down by one, and as many empty rows enter at the
/// top; unmarked rows keep their relative order.
pub open spec fn grid_after_clears(g: Seq<Seq<Option<TetoType>>>, marked: Seq<bool>) -> Seq<Seq<Option<TetoType>>> {
    empty_rows(num_marked(marked, GRID_ROWS as int)) + unmarked_prefix(g, marked, GRID_ROWS as int)
}

/// Score awarded for clearing `count` rows at once, before the combo bonus.
pub open spec fn spec_base(count: int) -> int {
    if count == 1 {
        100
    } else if count == 2 {
        300
    } else if count == 3 {
        500
    } else if count == 4 {
        800
    } else {
        0
    }
}

/// Score delta for a placement that cleared `count` rows as the `combo`-th
/// consecutive clearing placement.
pub open spec fn spec_score(combo: int, count: int) -> int {
    (combo - 1) * 50 + spec_base(count)
}

/// Relates a board and the score/game-over flags to their state after a
/// piece with cells `cells` of type `t` was merged at clock `now`: the
/// written grid, the rescan of full rows, the animation state and the
/// scoring rule of `Board::add`.
pub open spec fn board_added(
    b0: Board,
    b1: Board,
    now: u64,
    cells: Seq<(int, int)>,
    t: TetoType,
    score0: int,
    score1: int,
    over0: bool,
    over1: bool,
) -> bool {
    &&& b1.grid() == placed(b0.grid(), cells, t)
    &&& over1 == (over0 || !all_in_bounds(cells))
    &&& b1.clear_count == count_full(b1.grid(), GRID_ROWS as int)
    &&& forall|r: int| 0 <= r < GRID_ROWS
        ==> b1.is_cleared@[r] == (b0.is_cleared@[r] || spec_row_full(b1.grid(), r))
    &&& b1.clear_count == 0 ==> {
        &&& b1.combo_count == 0
        &&& score1 == score0
        &&& b1.clear_start_time == b0.clear_start_time
        &&& b1.clear_i == b0.clear_i
    }
    &&& b1.clear_count != 0 ==> {
        &&& b1.combo_count == b0.combo_count + 1
        &&& score1 == score0 + spec_score(b1.combo_count as int, b1.clear_count as int)
        &&& b1.clear_start_time == now
        &&& b1.clear_i == (if b0.clear_i == -1 {
                first_full_row(b1.grid(), GRID_ROWS as int)
            } else {
                b0.clear_i as int
            })
    }
    &&& b1.clear_time == b0.clear_time
}

/// Relates a board to its state after one animation tick at clock `now`:
/// unchanged before the clear animation has run its duration, otherwise
/// the marked rows are resolved per `grid_after_clears`.
pub open spec fn board_updated(b0: Board, b1: Board, now: u64) -> bool {
    if now <= b0.clear_start_time + b0.clear_time {
        b1 == b0
    } else {
        &&& b1.grid() == grid_after_clears(b0.grid(), b0.is_cleared@)
        &&& forall|r: int| 0 <= r < GRID_ROWS ==> !b1.is_cleared@[r]
        &&& b1.clear_i == -1
        &&& b1.clear_start_time == b0.clear_start_time
        &&& b1.clear_time == b0.clear_time
        &&& b1.clear_count == b0.clear_count
        &&& b1.combo_count == b0.combo_count
    }
}

/// The playing field: a fixed `GRID_ROWS x GRID_COLS` grid stored row-major,
/// plus the transient line-clear animation state and the combo counter.
pub struct Board {
    /// Row-major cell storage, `GRID_ROWS * GRID_COLS` entries.
    pub data: Vec<Option<TetoType>>,
    /// Which rows are currently flashing, awaiting physical removal.
    pub is_cleared: Vec<bool>,
    /// Clock value at which the running clear animation started.
    pub clear_start_time: u64,
    /// Duration of the clear animation in milliseconds.
    pub clear_time: u64,
    /// Number of rows cleared by the placement that started the animation.
    pub clear_count: i32,
    /// Topmost row cleared this animation cycle, or -1 when none.
    pub clear_i: i32,
    /// Consecutive placements that each cleared at least one row.
    pub combo_count: i32,
}

impl Board {
    /// The grid contents as a sequence of rows.
    pub open spec fn grid(&self) -> Seq<Seq<Option<TetoType>>> {
        Seq::new(GRID_ROWS as nat, |i: int| Seq::new(GRID_COLS as nat, |j: int|
            self.data@[i * (GRID_COLS as int) + j]))
    }

    pub open spec fn wf(&self) -> bool {
        &&& self.data@.len() == GRID_ROWS * GRID_COLS
        &&& self.is_cleared@.len() == GRID_ROWS
        &&& self.clear_time == CLEAR_MS
        &&& 0 <= self.clear_count <= GRID_ROWS
        &&& -1 <= self.clear_i < GRID_ROWS
        &&& 0 <= self.combo_count
        &&& ts_wf(self.clear_start_time)
    }

    /// An empty grid, no rows clearing, zeroed animation state and combo.
    pub open spec fn is_fresh(&self) -> bool {
        &&& self.wf()
        &&& self.grid() == empty_rows(GRID_ROWS as int)
        &&& forall|r: int| 0 <= r < GRID_ROWS ==> !self.is_cleared@[r]
        &&& self.clear_start_time == 0
        &&& self.clear_time == CLEAR_MS
        &&& self.clear_count == 0
        &&& self.clear_i == -1
        &&& self.combo_count == 0
    }

    #[verifier::loop_isolation(false)]
    pub fn new() -> (b: Board)
        ensures
            b.is_fresh(),
    {
        let mut data: Vec<Option<TetoType>> = Vec::new();
        let mut k: usize = 0;
        while k < 200
            invariant
                data@.len() == k,
                k <= 200,
                forall|m: int| 0 <= m < k ==> data@[m] is None,
            decreases 200 - k,
        {
            data.push(None);
            k += 1;
        }
        let mut is_cleared: Vec<bool> = Vec::new();
        let mut r: usize = 0;
        while r < 20
            invariant
                is_cleared@.len() == r,
                r <= 20,
                forall|m: int| 0 <= m < r ==> !is_cleared@[m],
            decreases 20 - r,
        {
            is_cleared.push(false);
            r += 1;
        }
        let b = Board {
            data,
            is_cleared,
            clear_start_time: 0,
            clear_time: CLEAR_MS,
            clear_count: 0,
            clear_i: -1,
            combo_count: 0,
        };
        proof {
            assert(b.grid() =~~= empty_rows(GRID_ROWS as int));
        }
        b
    }

    /// Whether the cell at `(i, j)` is free for a piece, under the rule of
    /// `cell_filled`: above-grid rows are open, out-of-range columns and
    /// below-grid rows are blocked.
    fn empty(&self, i: i32, j: i32) -> (r: bool)
        requires
            self.wf(),
        ensures
            r == !cell_filled(self.grid(), i as int, j as int),
    {
        if i < 0 {
            return j >= 0 && j < GRID_COLS;
        }
        i < GRID_ROWS && j >= 0 && j < GRID_COLS
            && self.data[(i as usize) * 10 + (j as usize)].is_none()
    }

    /// Collision query, the exact negation of `empty`.
    pub fn filled(&self, i: i32, j: i32) -> (r: bool)
        requires
            self.wf(),
        ensures
            r == cell_filled(self.grid(), i as int, j as int),
    {
        !self.empty(i, j)
    }

    /// Whether every column of row `i` is filled.
    #[verifier::loop_isolation(false)]
    fn row_full_at(&self, i: usize) -> (r: bool)
        requires
            self.wf(),
            i < GRID_ROWS,
        ensures
            r == spec_row_full(self.grid(), i as int),
    {
        let mut j: usize = 0;
        while j < 10
            invariant
                self.wf(),
                i < GRID_ROWS,
                j <= 10,
                forall|m: int| 0 <= m < j ==> (#[trigger] self.grid()[i as int][m]) is Some,
            decreases 10 - j,
        {
            if self.data[i * 10 + j].is_none() {
                assert(self.grid()[i as int][j as int] is None);
                return false;
            }
            assert(self.grid()[i as int][j as int] is Some);
            j += 1;
        }
        true
    }

    /// Merges a (dead) piece into the grid, then scans for full rows and
    /// applies the scoring rule.
    ///
    /// Every in-bounds cell of the piece is written with the piece's type;
    /// any out-of-bounds cell sets `game_over` instead of being written, and
    /// the remaining cells are still written. Each row that is full after
    /// the writes is marked clearing (exactly once: marking is a pure
    /// function of the resulting grid), the animation clock restarts at
    /// `now`, and the topmost cleared row is recorded if no cycle was
    /// already running. Clearing zero rows resets the combo to zero and
    /// leaves the score unchanged; clearing `N` rows increments the combo
    /// and adds `spec_base(N) + 50 * (combo - 1)` to the score.
    #[verifier::loop_isolation(false)]
    pub fn add(&mut self, now: u64, teto: Teto, score: &mut i32, game_over: &mut bool)
        requires
            old(self).wf(),
            teto.wf(),
            teto.i > i32::MIN + 8,
            now <= CLOCK_LIMIT_MS,
            old(self).combo_count * 50 + 850 <= i32::MAX,
            *old(score) + old(self).combo_count * 50 + 800 <= i32::MAX,
        ensures
            final(self).wf(),
            board_added(
                *old(self),
                *final(self),
                now,
                teto.spec_cells(),
                teto.t,
                *old(score) as int,
                *final(score) as int,
                *old(game_over),
                *final(game_over),
            ),
    {
        let ghost g0 = self.grid();
        let ghost cells = teto.spec_cells();
        let ghost cleared0 = self.is_cleared@;
        let ghost start0 = self.clear_start_time;
        let ghost ctime0 = self.clear_time;
        let ghost ci0 = self.clear_i;
        let ghost combo0 = self.combo_count;
        let ghost over0 = *game_over;
        let ghost score0 = *score;
        let pos_list = teto.get_rot();
        let t = teto.t;
        let mut k: usize = 0;
        proof {
            assert(cells.take(0) =~= Seq::<(int, int)>::empty());
            assert(self.grid() =~~= placed(g0, cells.take(0), t));
            assert(all_in_bounds(cells.take(0)));
        }
        while k < pos_list.len()
            invariant
                self.wf(),
                pos_list@.len() == cells.len(),
                forall|m: int| 0 <= m < cells.len()
                    ==> (#[trigger] cells[m]).0 == pos_list@[m].0 && cells[m].1 == pos_list@[m].1,
                k <= cells.len(),
                self.grid() == placed(g0, cells.take(k as int), t),
                *game_over == (over0 || !all_in_bounds(cells.take(k as int))),
                *score == score0,
                self.is_cleared@ == cleared0,
                self.clear_start_time == start0,
                self.clear_time == ctime0,
                self.clear_i == ci0,
                self.combo_count == combo0,
            decreases pos_list@.len() - k,
        {
            let ghost pre = self.grid();
            let (pi, pj) = pos_list[k];
            if pi < 0 || pi >= GRID_ROWS || pj < 0 || pj >= GRID_COLS {
                *game_over = true;
                proof {
                    assert(self.grid() =~~= placed(g0, cells.take(k as int + 1), t)) by {
                        assert forall|i: int, j: int| 0 <= i < GRID_ROWS && 0 <= j < GRID_COLS
                            implies in_cells(cells.take(k as int + 1), i, j) == in_cells(cells.take(k as int), i, j) by {
                            if in_cells(cells.take(k as int + 1), i, j) {
                                let w = choose|w: int| 0 <= w < cells.take(k as int + 1).len()
                                    && (#[trigger] cells.take(k as int + 1)[w]).0 == i
                                    && cells.take(k as int + 1)[w].1 == j;
                                assert(w != k);
                                assert(cells.take(k as int)[w] == cells[w]);
                            }
                            if in_cells(cells.take(k as int), i, j) {
                                let w = choose|w: int| 0 <= w < cells.take(k as int).len()
                                    && (#[trigger] cells.take(k as int)[w]).0 == i
                                    && cells.take(k as int)[w].1 == j;
                                assert(cells.take(k as int + 1)[w] == cells[w]);
                            }
                        }
                    }
                    assert(cells.take(k as int + 1)[k as int] == cells[k as int]);
                    assert(!all_in_bounds(cells.take(k as int + 1)));
                }
            } else {
                let idx = (pi as usize) * 10 + (pj as usize);
                self.data.set(idx, Some(t));
                proof {
                    assert(self.grid() =~~= placed(g0, cells.take(k as int + 1), t)) by {
                        assert forall|i: int, j: int| 0 <= i < GRID_ROWS && 0 <= j < GRID_COLS
                            implies self.grid()[i][j] == placed(g0, cells.take(k as int + 1), t)[i][j] by {
                            if i == pi as int && j == pj as int {
                                assert(cells.take(k as int + 1)[k as int] == cells[k as int]);
                                assert(in_cells(cells.take(k as int + 1), i, j));
                            } else {
                                assert(self.grid()[i][j] == pre[i][j]);
                                if in_cells(cells.take(k as int + 1), i, j) {
                                    let w = choose|w: int| 0 <= w < cells.take(k as int + 1).len()
                                        && (#[trigger] cells.take(k as int + 1)[w]).0 == i
                                        && cells.take(k as int + 1)[w].1 == j;
                                    assert(w != k);
                                    assert(cells.take(k as int)[w] == cells[w]);
                                    assert(in_cells(cells.take(k as int), i, j));
                                } else {
                                    assert forall|w: int| 0 <= w < cells.take(k as int).len()
                                        implies !((#[trigger] cells.take(k as int)[w]).0 == i && cells.take(k as int)[w].1 == j) by {
                                        assert(cells.take(k as int + 1)[w] == cells[w]);
                                    }
                                }
                            }
                        }
                    }
                    assert(all_in_bounds(cells.take(k as int + 1)) == all_in_bounds(cells.take(k as int))) by {
                        if all_in_bounds(cells.take(k as int)) {
                            assert forall|w: int| 0 <= w < cells.take(k as int + 1).len()
                                implies 0 <= (#[trigger] cells.take(k as int + 1)[w]).0 < GRID_ROWS
                                    && 0 <= cells.take(k as int + 1)[w].1 < GRID_COLS by {
                                if w < k as int {
                                    assert(cells.take(k as int)[w] == cells[w]);
                                    assert(cells.take(k as int + 1)[w] == cells[w]);
                                } else {
                                    assert(cells.take(k as int + 1)[w] == cells[k as int]);
                                }
                            }
                        } else {
                            let w = choose|w: int| 0 <= w < cells.take(k as int).len()
                                && !(0 <= (#[trigger] cells.take(k as int)[w]).0 < GRID_ROWS
                                    && 0 <= cells.take(k as int)[w].1 < GRID_COLS);
                            assert(cells.take(k as int + 1)[w] == cells[w]);
                            assert(cells.take(k as int)[w] == cells[w]);
                        }
                    }
                }
            }
            k += 1;
        }
        proof {
            assert(cells.take(cells.len() as int) =~= cells);
        }

        self.clear_count = 0;
        let ghost g2 = self.grid();
        let mut row: usize = 0;
        while row < 20
            invariant
                self.wf(),
                self.grid() == g2,
                g2 == placed(g0, cells, t),
                row <= 20,
                now <= CLOCK_LIMIT_MS,
                self.clear_count == count_full(g2, row as int),
                forall|r: int| 0 <= r < row
                    ==> self.is_cleared@[r] == (cleared0[r] || spec_row_full(g2, r)),
                forall|r: int| row <= r < GRID_ROWS
                    ==> self.is_cleared@[r] == cleared0[r],
                cleared0.len() == GRID_ROWS,
                self.clear_start_time == (if count_full(g2, row as int) == 0 {
                    start0 as int
                } else {
                    now as int
                }),
                self.clear_i == (if count_full(g2, row as int) == 0 {
                    ci0 as int
                } else if ci0 == -1 {
                    first_full_row(g2, row as int)
                } else {
                    ci0 as int
                }),
                self.clear_time == ctime0,
                self.combo_count == combo0,
                *score == score0,
                *game_over == (over0 || !all_in_bounds(cells)),
            decreases 20 - row,
        {
            proof {
                lemma_count_first(g2, row as int);
                lemma_count_first(g2, row as int + 1);
            }
            let full = self.row_full_at(row);
            let ghost pre_cleared = self.is_cleared@;
            if full {
                self.clear_count = self.clear_count + 1;
                self.is_cleared.set(row, true);
                self.clear_start_time = now;
                if self.clear_i == -1 {
                    self.clear_i = row as i32;
                }
            }
            proof {
                assert forall|r: int| 0 <= r < row as int + 1
                    implies self.is_cleared@[r] == (cleared0[r] || spec_row_full(g2, r)) by {
                    if r < row as int {
                        assert(self.is_cleared@[r] == pre_cleared[r]);
                    } else {
                        if full {
                            assert(self.is_cleared@[r]);
                        } else {
                            assert(self.is_cleared@[r] == pre_cleared[r]);
                        }
                    }
                }
            }
            row += 1;
        }

        proof {
            lemma_count_first(g2, GRID_ROWS as int);
        }
        if self.clear_count == 0 {
            self.combo_count = 0;
            proof {
                assert(self.grid() =~~= g2);
                assert forall|r: int| 0 <= r < GRID_ROWS
                    implies self.is_cleared@[r] == (old(self).is_cleared@[r]
                        || spec_row_full(self.grid(), r)) by {
                    assert(self.is_cleared@[r] == (cleared0[r] || spec_row_full(g2, r)));
                    assert(spec_row_full(self.grid(), r) == spec_row_full(g2, r));
                }
            }
            return;
        }

        self.combo_count = self.combo_count + 1;
        *score += self.get_score();
        proof {
            assert(self.grid() =~~= g2);
            assert forall|r: int| 0 <= r < GRID_ROWS
                implies self.is_cleared@[r] == (old(self).is_cleared@[r]
                    || spec_row_full(self.grid(), r)) by {
                assert(self.is_cleared@[r] == (cleared0[r] || spec_row_full(g2, r)));
                assert(spec_row_full(self.grid(), r) == spec_row_full(g2, r));
            }
        }
    }

    /// Advances the clear animation. Before the animation duration has
    /// elapsed nothing changes. Once it has, every marked row is removed:
    /// each one shifts all rows above it down by one (an empty row enters
    /// at the top), unmarked rows keep their relative order, and the
    /// topmost-cleared tracker resets.
    #[verifier::loop_isolation(false)]
    pub fn update(&mut self, now: u64)
        requires
            old(self).wf(),
            now <= CLOCK_LIMIT_MS,
        ensures
            final(self).wf(),
            board_updated(*old(self), *final(self), now),
    {
        if now <= self.clear_start_time + self.clear_time {
            return;
        }

        let ghost g0 = self.grid();
        let ghost marked = self.is_cleared@;
        let mut i: usize = 0;
        while i < 20
            invariant
                self.wf(),
                i <= 20,
                grid_wf(g0),
                marked.len() == GRID_ROWS,
                self.grid() =~~= empty_rows(num_marked(marked, i as int))
                    + unmarked_prefix(g0, marked, i as int) + g0.skip(i as int),
                forall|r: int| 0 <= r < i ==> !self.is_cleared@[r],
                forall|r: int| i <= r < GRID_ROWS ==> self.is_cleared@[r] == marked[r],
                self.clear_start_time == old(self).clear_start_time,
                self.clear_time == old(self).clear_time,
                self.clear_count == old(self).clear_count,
                self.clear_i == old(self).clear_i,
                self.combo_count == old(self).combo_count,
            decreases 20 - i,
        {
            proof {
                lemma_num_unmarked(marked, i as int);
            }
            if self.is_cleared[i] {
                let ghost pre = self.grid();
                self.lower(i);
                self.is_cleared.set(i, false);
                proof {
                    let m = num_marked(marked, i as int);
                    assert(empty_rows(m).len() + unmarked_prefix(g0, marked, i as int).len() == i as int);
                    assert(self.grid() =~~= empty_rows(num_marked(marked, i as int + 1))
                        + unmarked_prefix(g0, marked, i as int + 1) + g0.skip(i as int + 1));
                }
            } else {
                proof {
                    let m = num_marked(marked, i as int);
                    assert(empty_rows(m).len() + unmarked_prefix(g0, marked, i as int).len() == i as int);
                    assert(g0.skip(i as int)[0] == g0[i as int]);
                    assert(self.grid() =~~= empty_rows(num_marked(marked, i as int + 1))
                        + unmarked_prefix(g0, marked, i as int + 1) + g0.skip(i as int + 1));
                }
            }
            i += 1;
        }
        self.clear_i = -1;
        proof {
            assert(g0.skip(20) =~= Seq::<Seq<Option<TetoType>>>::empty());
            assert(self.grid() =~~= grid_after_clears(g0, marked));
        }
    }

    /// Shifts every row from `until` up to the top down by one: row `r`
    /// takes the contents of row `r - 1`, row 0 becomes empty, rows below
    /// `until` are untouched.
    #[verifier::loop_isolation(false)]
    fn lower(&mut self, until: usize)
        requires
            old(self).wf(),
            until < GRID_ROWS,
        ensures
            final(self).wf(),
            final(self).grid() =~~= Seq::new(GRID_ROWS as nat, |r: int|
                if r > until as int {
                    old(self).grid()[r]
                } else if r == 0 {
                    empty_row()
                } else {
                    old(self).grid()[r - 1]
                }),
            final(self).is_cleared == old(self).is_cleared,
            final(self).clear_start_time == old(self).clear_start_time,
            final(self).clear_time == old(self).clear_time,
            final(self).clear_count == old(self).clear_count,
            final(self).clear_i == old(self).clear_i,
            final(self).combo_count == old(self).combo_count,
    {
        let ghost g0 = self.grid();
        let mut i: usize = until + 1;
        while i > 0
            invariant
                self.wf(),
                self.is_cleared == old(self).is_cleared,
                self.clear_start_time == old(self).clear_start_time,
                self.clear_time == old(self).clear_time,
                self.clear_count == old(self).clear_count,
                self.clear_i == old(self).clear_i,
                self.combo_count == old(self).combo_count,
                i <= until + 1,
                until < GRID_ROWS,
                forall|r: int, c: int| 0 <= r < i && 0 <= c < GRID_COLS
                    ==> self.grid()[r][c] == g0[r][c],
                forall|r: int, c: int| until < r < GRID_ROWS && 0 <= c < GRID_COLS
                    ==> self.grid()[r][c] == g0[r][c],
                forall|r: int, c: int| i <= r <= until && 0 <= c < GRID_COLS
                    ==> self.grid()[r][c] == (if r == 0 { None::<TetoType> } else { g0[r - 1][c] }),
            decreases i,
        {
            i -= 1;
            let mut j: usize = 0;
            while j < 10
                invariant
                    self.wf(),
                    self.is_cleared == old(self).is_cleared,
                    self.clear_start_time == old(self).clear_start_time,
                    self.clear_time == old(self).clear_time,
                    self.clear_count == old(self).clear_count,
                    self.clear_i == old(self).clear_i,
                    self.combo_count == old(self).combo_count,
                    i <= until,
                    until < GRID_ROWS,
                    j <= 10,
                    forall|r: int, c: int| 0 <= r < i && 0 <= c < GRID_COLS
                        ==> self.grid()[r][c] == g0[r][c],
                    forall|r: int, c: int| until < r < GRID_ROWS && 0 <= c < GRID_COLS
                        ==> self.grid()[r][c] == g0[r][c],
                    forall|r: int, c: int| i < r <= until && 0 <= c < GRID_COLS
                        ==> self.grid()[r][c] == (if r == 0 { None::<TetoType> } else { g0[r - 1][c] }),
                    forall|c: int| 0 <= c < j
                        ==> self.grid()[i as int][c] == (if i == 0 { None::<TetoType> } else { g0[i as int - 1][c] }),
                    forall|c: int| j <= c < GRID_COLS
                        ==> self.grid()[i as int][c] == g0[i as int][c],
                decreases 10 - j,
            {
                let v: Option<TetoType> = if i == 0 {
                    None
                } else {
                    self.data[(i - 1) * 10 + j]
                };
                let ghost pre = self.grid();
                proof {
                    assert(v == (if i == 0 { None::<TetoType> } else { pre[i as int - 1][j as int] }));
                }
                self.data.set(i * 10 + j, v);
                proof {
                    assert forall|r: int, c: int| 0 <= r < GRID_ROWS && 0 <= c < GRID_COLS
                        implies self.grid()[r][c] == (if r == i as int && c == j as int {
                            v
                        } else {
                            pre[r][c]
                        }) by {
                        assert(self.grid()[r][c] == self.data@[r * 10 + c]);
                        assert(pre[r][c] == self.data@.update(((i * 10 + j) as usize) as int, v)[r * 10 + c]
                            || true);
                        if !(r == i as int && c == j as int) {
                            assert(r * 10 + c != i as int * 10 + j as int);
                        }
                    }
                }
                j += 1;
            }
        }
    }

    /// Score delta of the clearing placement recorded in the board state:
    /// `spec_base(clear_count) + 50 * (combo_count - 1)`.
    pub fn get_score(&self) -> (s: i32)
        requires
            self.wf(),
            self.combo_count * 50 + 800 <= i32::MAX,
        ensures
            s == spec_score(self.combo_count as int, self.clear_count as int),
    {
        (self.combo_count - 1) * 50 + if self.clear_count == 1 {
            100
        } else if self.clear_count == 2 {
            300
        } else if self.clear_count == 3 {
            500
        } else if self.clear_count == 4 {
            800
        } else {
            0
        }
    }

    /// The combo counter: consecutive placements that each cleared a row.
    pub fn get_combo(&self) -> (c: i32)
        ensures
            c == self.combo_count,
    {
        self.combo_count
    }
}

/// Among the first `k` rows, the marked and the unmarked ones together
/// account for every row.
pub proof fn lemma_num_unmarked(marked: Seq<bool>, k: int)
    requires
        0 <= k,
    ensures
        num_marked(marked, k) + unmarked_prefix(Seq::empty(), marked, k).len() == k,
        forall|g: Seq<Seq<Option<TetoType>>>|
            (#[trigger] unmarked_prefix(g, marked, k)).len() == unmarked_prefix(Seq::empty(), marked, k).len(),
        0 <= num_marked(marked, k) <= k,
    decreases k,
{
    if k > 0 {
        lemma_num_unmarked(marked, k - 1);
        assert forall|g: Seq<Seq<Option<TetoType>>>|
            (#[trigger] unmarked_prefix(g, marked, k)).len()
                == unmarked_prefix(Seq::<Seq<Option<TetoType>>>::empty(), marked, k).len() by {
            assert(unmarked_prefix(g, marked, k - 1).len()
                == unmarked_prefix(Seq::<Seq<Option<TetoType>>>::empty(), marked, k - 1).len());
        }
    }
}

/// Among the first `n` rows there are between 0 and `n` full ones, and
/// there is a full one exactly when a topmost full one exists.
pub proof fn lemma_count_first(g: Seq<Seq<Option<TetoType>>>, n: int)
    requires
        0 <= n,
    ensures
        0 <= count_full(g, n) <= n,
        (count_full(g, n) == 0) <==> (first_full_row(g, n) == -1),
        -1 <= first_full_row(g, n) < n,
        first_full_row(g, n) != -1 ==> spec_row_full(g, first_full_row(g, n)),
    decreases n,
{
    if n > 0 {
        lemma_count_first(g, n - 1);
    }
}

/// Boundary rule of the collision test: the columns just outside the grid
/// always collide at every row, and a cell above the grid (negative row)
/// never collides as long as its column is in range.
pub proof fn lemma_boundary(g: Seq<Seq<Option<TetoType>>>)
    ensures
        forall|i: int| #[trigger] cell_filled(g, i, -1),
        forall|i: int| #[trigger] cell_filled(g, i, GRID_COLS as int),
        forall|i: int, j: int| i < 0 && 0 <= j < GRID_COLS ==> !(#[trigger] cell_filled(g, i, j)),
{
}

} // verus!
