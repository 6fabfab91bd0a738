use vstd::prelude::*;
use vstd::arithmetic::div_mod::{lemma_mod_multiples_vanish, lemma_small_mod};

use crate::board::{cell_filled, shape_fits, Board};
use crate::util::{
    ts_wf, CLOCK_LIMIT_MS, FALL_MS, GRID_COLS, GRID_ROWS, REPEAT_DELAY_MS, REPEAT_INTERVAL_MS,
};

verus! {

/// The seven tetromino variants.
#[derive(Debug, Clone, Copy, PartialEq, Eq, Structural)]
pub enum TetoType {
    I,
    O,
    T,
    S,
    Z,
    J,
    L,
}

/// One rotation state: cell offsets relative to the piece anchor.
pub type TetoRot = Vec<(i32, i32)>;

/// All rotation states of one piece type.
pub type TetoRots = Vec<TetoRot>;

/// One frame of keyboard input, as read by the simulation. `*_just` flags
/// mean the key was pressed (or, for restart, released) this frame;
/// `*_held` flags mean the key is currently down.
#[derive(Clone, Copy)]
pub struct Input {
    pub rotate_left_just: bool,
    pub rotate_right_just: bool,
    pub move_left_just: bool,
    pub move_left_held: bool,
    pub move_right_just: bool,
    pub move_right_held: bool,
    pub soft_drop_just: bool,
    pub soft_drop_held: bool,
    pub hard_drop_just: bool,
    pub hold_just: bool,
    pub restart_released: bool,
}

impl Input {
    /// A frame on which no key is active.
    pub fn none() -> (r: Input)
        ensures
            r == Input::spec_none(),
    {
        Input {
            rotate_left_just: false,
            rotate_right_just: false,
            move_left_just: false,
            move_left_held: false,
            move_right_just: false,
            move_right_held: false,
            soft_drop_just: false,
            soft_drop_held: false,
            hard_drop_just: false,
            hold_just: false,
            restart_released: false,
        }
    }

    pub open spec fn spec_none() -> Input {
        Input {
            rotate_left_just: false,
            rotate_right_just: false,
            move_left_just: false,
            move_left_held: false,
            move_right_just: false,
            move_right_held: false,
            soft_drop_just: false,
            soft_drop_held: false,
            hard_drop_just: false,
            hold_just: false,
            restart_released: false,
        }
    }
}

/// The keys whose action repeats while held.
#[derive(Clone, Copy)]
pub enum MoveKey {
    Left,
    Right,
    Soft,
}

/// Per-key timestamp of the last registered fire, absent until the key is
/// first seen.
#[derive(Clone, Copy)]
pub struct KeyTimers {
    pub left: Option<u64>,
    pub right: Option<u64>,
    pub soft: Option<u64>,
}

pub open spec fn ktimer(k: KeyTimers, key: MoveKey) -> Option<u64> {
    match key {
        MoveKey::Left => k.left,
        MoveKey::Right => k.right,
        MoveKey::Soft => k.soft,
    }
}

pub open spec fn ktimer_set(k: KeyTimers, key: MoveKey, v: Option<u64>) -> KeyTimers {
    match key {
        MoveKey::Left => KeyTimers { left: v, ..k },
        MoveKey::Right => KeyTimers { right: v, ..k },
        MoveKey::Soft => KeyTimers { soft: v, ..k },
    }
}

pub open spec fn timers_wf(k: KeyTimers) -> bool {
    &&& (k.left is Some ==> ts_wf(k.left.unwrap()))
    &&& (k.right is Some ==> ts_wf(k.right.unwrap()))
    &&& (k.soft is Some ==> ts_wf(k.soft.unwrap()))
}

/// The key-repeat rule. A key fires when just pressed (arming a timer at
/// `now + REPEAT_DELAY_MS`), or when held and the timer lies more than
/// `REPEAT_INTERVAL_MS` in the past (re-arming the timer to `now`).
/// Returns (fired, new timer value); an absent timer is first armed at
/// `now + REPEAT_DELAY_MS`.
pub open spec fn key_repeat_spec(t0: Option<u64>, now: u64, just: bool, held: bool) -> (bool, Option<u64>) {
    let t1 = if t0 is None { Some((now + REPEAT_DELAY_MS) as u64) } else { t0 };
    if just {
        (true, Some((now + REPEAT_DELAY_MS) as u64))
    } else if held && now > t1.unwrap() + REPEAT_INTERVAL_MS {
        (true, Some(now))
    } else {
        (false, t1)
    }
}

/// A rotation shape is non-empty and its offsets lie in a 4 x 4 box.
pub open spec fn shape_wf(s: Seq<(i32, i32)>) -> bool {
    &&& s.len() >= 1
    &&& forall|k: int| 0 <= k < s.len()
        ==> 0 <= (#[trigger] s[k]).0 <= 3 && 0 <= s[k].1 <= 3
}

/// Between one and four rotation states, each a well-formed shape.
pub open spec fn rots_wf(rs: Seq<Seq<(i32, i32)>>) -> bool {
    &&& 1 <= rs.len() <= 4
    &&& forall|r: int| 0 <= r < rs.len() ==> shape_wf(#[trigger] rs[r])
}

/// The rotation states of a piece as nested sequences.
pub open spec fn rots_v(rots: Vec<Vec<(i32, i32)>>) -> Seq<Seq<(i32, i32)>> {
    rots@.map_values(|r: Vec<(i32, i32)>| r@)
}

/// The fixed wall-kick candidate offsets per piece type, tried in order
/// when a rotation collides in place.
pub open spec fn kick_offsets(t: TetoType) -> Seq<(i32, i32)> {
    match t {
        TetoType::I => seq![(-2i32, 0i32), (1i32, 0i32), (-2i32, 1i32), (1i32, -2i32)],
        TetoType::O => seq![],
        _ => seq![(-1i32, 0i32), (-1i32, -1i32), (0i32, 2i32), (-1i32, 2i32)],
    }
}

/// The rotation index reached from `rot` by turning in direction `dir`
/// (+1 or -1), wrapping around the `len` rotation states.
pub open spec fn next_rot(rot: int, len: int, dir: int) -> int {
    (rot + len + dir) % len
}

/// The first candidate offset (in list order) at which the shape fits, if any.
pub open spec fn first_fit(cands: Seq<(i32, i32)>, g: Seq<Seq<Option<TetoType>>>, shape: Seq<(i32, i32)>, i: int, j: int) -> Option<(i32, i32)>
    decreases cands.len(),
{
    if cands.len() == 0 {
        None
    } else if shape_fits(g, shape, i + cands[0].0, j + cands[0].1) {
        Some(cands[0])
    } else {
        first_fit(cands.drop_first(), g, shape, i, j)
    }
}

/// The active falling piece.
pub struct Teto {
    /// Which of the seven types this piece is.
    pub t: TetoType,
    /// Its rotation states, loaded once and never mutated.
    pub rots: TetoRots,
    /// Current rotation index, always below `rots.len()`.
    pub rot: usize,
    /// Anchor row; may be negative (above the visible grid).
    pub i: i32,
    /// Anchor column.
    pub j: i32,
    /// Gravity interval in milliseconds.
    pub fall_duration: u64,
    /// Clock value of the last fall step or fall-timer reset.
    pub prev_fall_time: u64,
    /// Set when the piece has landed; it is then merged into the board.
    pub dead: bool,
    /// Key-repeat timers for the repeating keys.
    pub keys_last_time_pressed: KeyTimers,
}

impl Teto {
    pub open spec fn wf(&self) -> bool {
        &&& rots_wf(rots_v(self.rots))
        &&& self.rot < self.rots@.len()
        &&& self.i < GRID_ROWS
        &&& -4 <= self.j < GRID_COLS
        &&& self.fall_duration == FALL_MS
        &&& ts_wf(self.prev_fall_time)
        &&& timers_wf(self.keys_last_time_pressed)
    }

    /// The offsets of the current rotation state.
    pub open spec fn cur_shape(&self) -> Seq<(i32, i32)> {
        rots_v(self.rots)[self.rot as int]
    }

    /// The absolute grid cells the piece occupies.
    pub open spec fn spec_cells(&self) -> Seq<(int, int)> {
        self.cur_shape().map_values(|p: (i32, i32)| (p.0 + self.i as int, p.1 + self.j as int))
    }

    /// Builds a fresh piece of the given type from its rotation states:
    /// rotation 0, spawn position, timers clear, alive.
    pub fn new(teto_type: TetoType, rots: TetoRots) -> (t: Teto)
        requires
            rots_wf(rots_v(rots)),
        ensures
            t.wf(),
            -4 <= t.i < 0,
            is_fresh_teto(t, teto_type, rots_v(rots)),
    {
        let mut teto = Teto {
            t: teto_type,
            rots,
            rot: 0,
            i: 0,
            j: 0,
            fall_duration: FALL_MS,
            prev_fall_time: 0,
            dead: false,
            keys_last_time_pressed: KeyTimers { left: None, right: None, soft: None },
        };
        teto.reset();
        teto
    }

    /// One full bag: each of the seven types exactly once, in fixed order.
    pub fn get_teto_bag() -> (r: Vec<TetoType>)
        ensures
            r@ == full_bag(),
    {
        let mut v: Vec<TetoType> = Vec::new();
        v.push(TetoType::I);
        v.push(TetoType::O);
        v.push(TetoType::T);
        v.push(TetoType::S);
        v.push(TetoType::Z);
        v.push(TetoType::J);
        v.push(TetoType::L);
        proof {
            assert(v@ =~= full_bag());
        }
        v
    }

    /// Moves the piece back to its spawn state: rotation 0, horizontally
    /// centred from the width of rotation 0, anchored so that the lowest
    /// cell of rotation 0 sits just above the visible grid.
    #[verifier::loop_isolation(false)]
    pub fn reset(&mut self)
        requires
            rots_wf(rots_v(old(self).rots)),
        ensures
            *final(self) == spec_reset(*old(self)),
            final(self).i < 0,
            -4 <= final(self).i,
            2 <= final(self).j <= 3,
    {
        let shape0 = &self.rots[0];
        let ghost s = self.cur_shape();
        let ghost s0 = rots_v(self.rots)[0];
        let mut max_i: i32 = shape0[0].0;
        let mut max_j: i32 = shape0[0].1;
        let mut min_j: i32 = shape0[0].1;
        let mut k: usize = 1;
        while k < shape0.len()
            invariant
                shape_wf(s0),
                s0 == shape0@,
                1 <= k <= s0.len(),
                max_i == max_row(s0.take(k as int)),
                max_j == max_col(s0.take(k as int)),
                min_j == min_col(s0.take(k as int)),
                0 <= max_i <= 3,
                0 <= min_j <= max_j <= 3,
            decreases s0.len() - k,
        {
            proof {
                assert(s0.take(k as int + 1).drop_last() =~= s0.take(k as int));
            }
            let p = shape0[k];
            if p.0 > max_i {
                max_i = p.0;
            }
            if p.1 > max_j {
                max_j = p.1;
            }
            if p.1 < min_j {
                min_j = p.1;
            }
            k += 1;
        }
        proof {
            assert(s0.take(s0.len() as int) =~= s0);
        }
        let width = max_j - min_j + 1;
        self.i = -max_i - 1;
        self.j = (GRID_COLS - width) / 2 - 1;
        self.rot = 0;
    }

    /// Whether the piece has landed and awaits merging.
    pub fn is_dead(&self) -> (r: bool)
        ensures
            r == self.dead,
    {
        self.dead
    }

    /// The absolute cells of the current rotation at the current anchor.
    #[verifier::loop_isolation(false)]
    pub fn get_rot(&self) -> (r: Vec<(i32, i32)>)
        requires
            self.wf(),
            self.i > i32::MIN + 8,
        ensures
            r@.len() == self.spec_cells().len(),
            forall|k: int| 0 <= k < r@.len()
                ==> (#[trigger] r@[k]).0 == self.spec_cells()[k].0 && r@[k].1 == self.spec_cells()[k].1,
    {
        let shape = &self.rots[self.rot];
        let mut r: Vec<(i32, i32)> = Vec::new();
        let mut k: usize = 0;
        while k < shape.len()
            invariant
                self.wf(),
                self.i > i32::MIN + 8,
                shape@ == self.cur_shape(),
                k <= shape@.len(),
                r@.len() == k,
                forall|m: int| 0 <= m < k
                    ==> (#[trigger] r@[m]).0 == self.spec_cells()[m].0 && r@[m].1 == self.spec_cells()[m].1,
            decreases shape@.len() - k,
        {
            let p = shape[k];
            r.push((p.0 + self.i, p.1 + self.j));
            k += 1;
        }
        r
    }

    /// Runs one frame of piece simulation: rotation, then horizontal
    /// movement, then fall handling, in that fixed order. The bound on
    /// the anchor row only keeps its arithmetic inside `i32`: wall kicks
    /// can push a piece upward without limit over many frames.
    pub fn update(&mut self, input: &Input, now: u64, board: &Board)
        requires
            old(self).wf(),
            board.wf(),
            now <= CLOCK_LIMIT_MS,
            old(self).i > i32::MIN + 128,
        ensures
            final(self).wf(),
            *final(self) == teto_step(*old(self), board.grid(), *input, now),
            final(self).i >= old(self).i - 4,
    {
        self.rotate(input, now, board);
        self.do_move(input, now, board);
        self.try_fall(input, now, board);
    }

    fn rotate(&mut self, input: &Input, now: u64, board: &Board)
        requires
            old(self).wf(),
            board.wf(),
            now <= CLOCK_LIMIT_MS,
            old(self).i > i32::MIN + 64,
        ensures
            final(self).wf(),
            *final(self) == spec_rotate(*old(self), board.grid(), *input, now),
            final(self).i >= old(self).i - 4,
            final(self).dead == old(self).dead,
            final(self).rots == old(self).rots,
    {
        self.rotate_dir(board, input.rotate_left_just, now, -1);
        self.rotate_dir(board, input.rotate_right_just, now, 1);
    }

    fn rotate_dir(&mut self, board: &Board, just: bool, now: u64, dir: i32)
        requires
            old(self).wf(),
            board.wf(),
            now <= CLOCK_LIMIT_MS,
            old(self).i > i32::MIN + 32,
            dir == 1 || dir == -1,
        ensures
            final(self).wf(),
            *final(self) == spec_rotate_dir(*old(self), board.grid(), just, now, dir as int),
            final(self).i >= old(self).i - 2,
            final(self).dead == old(self).dead,
            final(self).rots == old(self).rots,
    {
        if just {
            self.reset_fall(now);
            self.try_wall_kick(board, dir);
        }
    }

    /// Attempts the rotation reached in direction `dir`. The piece is first
    /// tried in place, then at each wall-kick candidate of its type in list
    /// order; the first non-colliding offset is applied to the anchor. If
    /// none fits, the rotation index and the anchor are left unchanged.
    #[verifier::loop_isolation(false)]
    fn try_wall_kick(&mut self, board: &Board, dir: i32)
        requires
            old(self).wf(),
            board.wf(),
            old(self).i > i32::MIN + 16,
            dir == 1 || dir == -1,
        ensures
            final(self).wf(),
            *final(self) == spec_kick(*old(self), board.grid(), dir as int),
            final(self).i >= old(self).i - 2,
    {
        let ghost p0 = *old(self);
        let ghost g = board.grid();
        let prev_rot = self.rot;
        let len = self.rots.len();
        self.rot = ((((self.rot + len) as i32) + dir) as usize) % len;
        let ghost nr = next_rot(p0.rot as int, p0.rots@.len() as int, dir as int);
        proof {
            assert(self.rot == nr);
        }
        let ghost shape = rots_v(p0.rots)[nr];
        let ghost cands = seq![(0i32, 0i32)] + kick_offsets(p0.t);

        if self.try_rot(board, 0, 0) {
            proof {
                assert(cands[0] == (0i32, 0i32));
                assert(first_fit(cands, g, shape, p0.i as int, p0.j as int) == Some((0i32, 0i32)));
                let res = spec_kick(p0, g, dir as int);
                assert(res.rot == nr as usize && res.i == (p0.i + 0) as i32 && res.j == (p0.j + 0) as i32
                    && res.t == p0.t && res.rots == p0.rots && res.fall_duration == p0.fall_duration
                    && res.prev_fall_time == p0.prev_fall_time && res.dead == p0.dead
                    && res.keys_last_time_pressed == p0.keys_last_time_pressed);
                assert(*self == res);
            }
            return;
        }

        let wall_kicks = self.get_wall_kicks();
        let mut k: usize = 0;
        proof {
            assert(cands.drop_first() =~= kick_offsets(p0.t));
            assert(first_fit(cands, g, shape, p0.i as int, p0.j as int)
                == first_fit(cands.skip(1), g, shape, p0.i as int, p0.j as int));
        }
        while k < wall_kicks.len()
            invariant
                self.wf(),
                board.wf(),
                wall_kicks@ == kick_offsets(p0.t),
                cands == seq![(0i32, 0i32)] + kick_offsets(p0.t),
                g == board.grid(),
                k <= wall_kicks@.len(),
                shape == rots_v(p0.rots)[nr],
                0 <= nr < p0.rots@.len(),
                *self == (Teto { rot: nr as usize, ..p0 }),
                p0.wf(),
                p0.i > i32::MIN + 16,
                first_fit(cands, g, shape, p0.i as int, p0.j as int)
                    == first_fit(cands.skip(1 + k as int), g, shape, p0.i as int, p0.j as int),
            decreases wall_kicks@.len() - k,
        {
            let ghost rest = cands.skip(1 + k as int);
            proof {
                assert(rest.len() == cands.len() - 1 - k);
                assert(rest[0] == cands[1 + k as int]);
                assert(cands[1 + k as int] == wall_kicks@[k as int]);
            }
            let wk = wall_kicks[k];
            if self.try_rot(board, wk.0, wk.1) {
                proof {
                    assert(shape_fits(g, shape, p0.i + rest[0].0, p0.j + rest[0].1));
                    assert(first_fit(rest, g, shape, p0.i as int, p0.j as int) == Some(rest[0]));
                    assert(first_fit(cands, g, shape, p0.i as int, p0.j as int) == Some(wk));
                    let res = spec_kick(p0, g, dir as int);
                    assert(res.rot == nr as usize && res.i == (p0.i + wk.0) as i32
                        && res.j == (p0.j + wk.1) as i32
                        && res.t == p0.t && res.rots == p0.rots && res.fall_duration == p0.fall_duration
                        && res.prev_fall_time == p0.prev_fall_time && res.dead == p0.dead
                        && res.keys_last_time_pressed == p0.keys_last_time_pressed);
                    assert(*self == res);
                }
                return;
            }
            proof {
                assert(rest.drop_first() =~= cands.skip(2 + k as int));
            }
            k += 1;
        }
        self.rot = prev_rot;
        proof {
            assert(cands.skip(1 + wall_kicks@.len() as int) =~= Seq::<(i32, i32)>::empty());
            assert(first_fit(cands, g, shape, p0.i as int, p0.j as int) is None);
            assert(*self == p0);
        }
    }

    /// The wall-kick candidates of this piece's type, in the order tried.
    fn get_wall_kicks(&self) -> (r: Vec<(i32, i32)>)
        ensures
            r@ == kick_offsets(self.t),
    {
        let mut v: Vec<(i32, i32)> = Vec::new();
        match self.t {
            TetoType::I => {
                v.push((-2, 0));
                v.push((1, 0));
                v.push((-2, 1));
                v.push((1, -2));
            },
            TetoType::O => {},
            _ => {
                v.push((-1, 0));
                v.push((-1, -1));
                v.push((0, 2));
                v.push((-1, 2));
            },
        }
        proof {
            assert(v@ =~= kick_offsets(self.t));
        }
        v
    }

    /// Tests the current rotation at the anchor shifted by the given offset;
    /// on success the anchor takes the shift permanently.
    #[verifier::loop_isolation(false)]
    fn try_rot(&mut self, board: &Board, i_offset: i32, j_offset: i32) -> (r: bool)
        requires
            rots_wf(rots_v(old(self).rots)),
            old(self).rot < old(self).rots@.len(),
            board.wf(),
            old(self).i > i32::MIN + 16,
            old(self).i < GRID_ROWS,
            -4 <= old(self).j < GRID_COLS,
            -2 <= i_offset <= 2,
            -2 <= j_offset <= 2,
        ensures
            r == shape_fits(board.grid(), old(self).cur_shape(), old(self).i + i_offset, old(self).j + j_offset),
            r ==> *final(self) == (Teto {
                i: (old(self).i + i_offset) as i32,
                j: (old(self).j + j_offset) as i32,
                ..*old(self)
            }),
            r ==> final(self).i < GRID_ROWS && -4 <= final(self).j < GRID_COLS,
            !r ==> *final(self) == *old(self),
    {
        let ghost g = board.grid();
        let ghost shape = self.cur_shape();
        let shape_ref = &self.rots[self.rot];
        let mut k: usize = 0;
        while k < shape_ref.len()
            invariant
                rots_wf(rots_v(self.rots)),
                self.rot < self.rots@.len(),
                board.wf(),
                g == board.grid(),
                shape == self.cur_shape(),
                shape_ref@ == shape,
                self.i > i32::MIN + 16,
                self.i < GRID_ROWS,
                -4 <= self.j < GRID_COLS,
                -2 <= i_offset <= 2,
                -2 <= j_offset <= 2,
                k <= shape.len(),
                forall|m: int| 0 <= m < k
                    ==> !cell_filled(g, self.i + i_offset + (#[trigger] shape[m]).0, self.j + j_offset + shape[m].1),
            decreases shape.len() - k,
        {
            let p = shape_ref[k];
            if self.collides_cell(board, p.0 + i_offset, p.1 + j_offset) {
                return false;
            }
            k += 1;
        }
        proof {
            // the fitting position is inside the playable area: its first
            // cell is either above the grid or on it, and its columns are
            // in range, which bounds the shifted anchor
            assert(!cell_filled(g, self.i + i_offset + shape[0].0, self.j + j_offset + shape[0].1));
        }
        self.i = self.i + i_offset;
        self.j = self.j + j_offset;
        true
    }

    fn do_move(&mut self, input: &Input, now: u64, board: &Board)
        requires
            old(self).wf(),
            board.wf(),
            now <= CLOCK_LIMIT_MS,
            old(self).i > i32::MIN + 32,
        ensures
            final(self).wf(),
            *final(self) == spec_move(*old(self), board.grid(), *input, now),
            final(self).i == old(self).i,
            final(self).dead == old(self).dead,
    {
        self.move_dir(board, MoveKey::Left, input.move_left_just, input.move_left_held, now, -1);
        self.move_dir(board, MoveKey::Right, input.move_right_just, input.move_right_held, now, 1);
    }

    /// A registered left/right fire shifts the column by `dir` and resets
    /// the fall timer; a shift that collides is reverted (the rejected move
    /// still counts as the player's action).
    fn move_dir(&mut self, board: &Board, key: MoveKey, just: bool, held: bool, now: u64, dir: i32)
        requires
            old(self).wf(),
            board.wf(),
            now <= CLOCK_LIMIT_MS,
            dir == 1 || dir == -1,
            old(self).i > i32::MIN + 32,
        ensures
            final(self).wf(),
            *final(self) == spec_move_dir(*old(self), board.grid(), key, just, held, now, dir as int),
            final(self).i == old(self).i,
            final(self).dead == old(self).dead,
    {
        let ghost p0 = *old(self);
        let ghost g = board.grid();
        if self.is_key_repeat(key, now, just, held) {
            self.reset_fall(now);
            self.j = self.j + dir;
            if self.collides(board) {
                self.j = self.j - dir;
            } else {
                proof {
                    assert(!cell_filled(g, self.i + self.cur_shape()[0].0, self.j + self.cur_shape()[0].1));
                }
            }
        }
    }

    #[verifier::loop_isolation(false)]
    fn try_fall(&mut self, input: &Input, now: u64, board: &Board)
        requires
            old(self).wf(),
            board.wf(),
            now <= CLOCK_LIMIT_MS,
            old(self).i > i32::MIN + 32,
        ensures
            final(self).wf(),
            *final(self) == spec_try_fall(*old(self), board.grid(), *input, now),
            final(self).i >= old(self).i,
    {
        let ghost p0 = *old(self);
        let ghost g = board.grid();
        if input.hard_drop_just {
            while !self.dead
                invariant
                    self.wf(),
                    board.wf(),
                    g == board.grid(),
                    now <= CLOCK_LIMIT_MS,
                    self.i > i32::MIN + 32,
                    p0.dead ==> *self == p0,
                    !p0.dead ==> {
                        &&& self.rots == p0.rots
                        &&& self.rot == p0.rot
                        &&& self.t == p0.t
                        &&& self.j == p0.j
                        &&& self.fall_duration == p0.fall_duration
                        &&& self.keys_last_time_pressed == p0.keys_last_time_pressed
                        &&& (!self.dead ==> rest_i(g, self.cur_shape(), self.i as int, self.j as int)
                            == rest_i(g, p0.cur_shape(), p0.i as int, p0.j as int))
                        &&& (!self.dead ==> self.i >= p0.i)
                        &&& (self.dead ==> self.i == rest_i(g, p0.cur_shape(), p0.i as int, p0.j as int)
                            && self.prev_fall_time == now && self.i >= p0.i)
                    },
                decreases GRID_ROWS - self.i + (if self.dead { 0int } else { 1int }),
            {
                proof {
                    lemma_rest_i_unfold(g, self.cur_shape(), self.i as int, self.j as int);
                }
                self.fall(now, board);
            }
            proof {
                assert(*self == spec_hard_drop(p0, g, now));
            }
        } else if self.is_key_repeat(MoveKey::Soft, now, input.soft_drop_just, input.soft_drop_held) {
            self.reset_fall(now);
            self.fall(now, board);
        } else if now > self.prev_fall_time + self.fall_duration {
            self.fall(now, board);
        }
    }

    /// One fall step: the fall timer restarts at `now` and the anchor moves
    /// down one row; if the new position collides the piece dies and the
    /// anchor reverts to the last valid resting position.
    fn fall(&mut self, now: u64, board: &Board)
        requires
            old(self).wf(),
            board.wf(),
            now <= CLOCK_LIMIT_MS,
            old(self).i > i32::MIN + 32,
        ensures
            final(self).wf(),
            *final(self) == spec_fall(*old(self), board.grid(), now),
            final(self).i >= old(self).i,
            final(self).i <= old(self).i + 1,
    {
        let ghost g = board.grid();
        self.reset_fall(now);
        self.i = self.i + 1;
        if self.collides(board) {
            self.die();
        } else {
            proof {
                assert(!cell_filled(g, self.i + self.cur_shape()[0].0, self.j + self.cur_shape()[0].1));
            }
        }
    }

    /// The largest extra downward offset at which the piece still fits,
    /// found by probing offsets upward from zero until the first collision.
    /// Used to draw the landing preview.
    #[verifier::loop_isolation(false)]
    pub fn get_ghost_i_offset(&self, board: &Board) -> (r: i32)
        requires
            self.wf(),
            board.wf(),
            self.i > i32::MIN + 64,
        ensures
            r == ghost_probe(board.grid(), self.cur_shape(), self.i as int, self.j as int, 0),
    {
        let ghost g = board.grid();
        let mut i_offset: i32 = 0;
        while !self.collides_ghost(board, i_offset)
            invariant
                self.wf(),
                board.wf(),
                g == board.grid(),
                self.i > i32::MIN + 64,
                0 <= i_offset,
                self.i + i_offset <= GRID_ROWS,
                ghost_probe(g, self.cur_shape(), self.i as int, self.j as int, 0)
                    == ghost_probe(g, self.cur_shape(), self.i as int, self.j as int, i_offset as int),
            decreases GRID_ROWS + 1 - (self.i + i_offset),
        {
            proof {
                assert(!cell_filled(g, self.i + i_offset + self.cur_shape()[0].0, self.j + self.cur_shape()[0].1));
            }
            i_offset = i_offset + 1;
        }
        i_offset - 1
    }

    /// Whether the piece, shifted down by `i_offset`, collides.
    #[verifier::loop_isolation(false)]
    fn collides_ghost(&self, board: &Board, i_offset: i32) -> (r: bool)
        requires
            self.wf(),
            board.wf(),
            self.i > i32::MIN + 64,
            0 <= i_offset,
            self.i + i_offset <= GRID_ROWS,
        ensures
            r == !shape_fits(board.grid(), self.cur_shape(), self.i + i_offset, self.j as int),
    {
        let ghost g = board.grid();
        let ghost shape = self.cur_shape();
        let shape_ref = &self.rots[self.rot];
        let mut k: usize = 0;
        while k < shape_ref.len()
            invariant
                self.wf(),
                board.wf(),
                g == board.grid(),
                shape == self.cur_shape(),
                shape_ref@ == shape,
                self.i > i32::MIN + 64,
                0 <= i_offset,
                self.i + i_offset <= GRID_ROWS,
                k <= shape.len(),
                forall|m: int| 0 <= m < k
                    ==> !cell_filled(g, self.i + i_offset + (#[trigger] shape[m]).0, self.j + shape[m].1),
            decreases shape.len() - k,
        {
            let p = shape_ref[k];
            if self.collides_cell(board, p.0 + i_offset, p.1) {
                return true;
            }
            k += 1;
        }
        false
    }

    fn reset_fall(&mut self, now: u64)
        requires
            now <= CLOCK_LIMIT_MS,
        ensures
            *final(self) == (Teto { prev_fall_time: now, ..*old(self) }),
    {
        self.prev_fall_time = now;
    }

    /// Whether the piece collides at its current position.
    #[verifier::loop_isolation(false)]
    fn collides(&self, board: &Board) -> (r: bool)
        requires
            rots_wf(rots_v(self.rots)),
            self.rot < self.rots@.len(),
            board.wf(),
            self.i > i32::MIN + 16,
            self.i <= GRID_ROWS,
            -6 <= self.j <= GRID_COLS,
        ensures
            r == !shape_fits(board.grid(), self.cur_shape(), self.i as int, self.j as int),
    {
        let ghost g = board.grid();
        let ghost shape = self.cur_shape();
        let shape_ref = &self.rots[self.rot];
        let mut k: usize = 0;
        while k < shape_ref.len()
            invariant
                rots_wf(rots_v(self.rots)),
                self.rot < self.rots@.len(),
                board.wf(),
                g == board.grid(),
                shape == self.cur_shape(),
                shape_ref@ == shape,
                self.i > i32::MIN + 16,
                self.i <= GRID_ROWS,
                -6 <= self.j <= GRID_COLS,
                k <= shape.len(),
                forall|m: int| 0 <= m < k
                    ==> !cell_filled(g, self.i + (#[trigger] shape[m]).0, self.j + shape[m].1),
            decreases shape.len() - k,
        {
            let p = shape_ref[k];
            if self.collides_cell(board, p.0, p.1) {
                return true;
            }
            k += 1;
        }
        false
    }

    /// Collision query for one cell at the given offset from the anchor.
    fn collides_cell(&self, board: &Board, i_offset: i32, j_offset: i32) -> (r: bool)
        requires
            board.wf(),
            i32::MIN < self.i + i_offset <= i32::MAX,
            i32::MIN < self.j + j_offset <= i32::MAX,
        ensures
            r == cell_filled(board.grid(), self.i + i_offset, self.j + j_offset),
    {
        board.filled(self.i + i_offset, self.j + j_offset)
    }

    fn die(&mut self)
        requires
            old(self).i > i32::MIN,
        ensures
            *final(self) == (Teto { dead: true, i: (old(self).i - 1) as i32, ..*old(self) }),
    {
        self.dead = true;
        self.i = self.i - 1;
    }
}

/// One full bag of the seven piece types, in the fixed order the bag is
/// refilled with (draws then pick random positions).
pub open spec fn full_bag() -> Seq<TetoType> {
    seq![
        TetoType::I,
        TetoType::O,
        TetoType::T,
        TetoType::S,
        TetoType::Z,
        TetoType::J,
        TetoType::L,
    ]
}

/// Largest row offset of a shape.
pub open spec fn max_row(s: Seq<(i32, i32)>) -> int
    decreases s.len(),
{
    if s.len() <= 1 {
        s[0].0 as int
    } else {
        let m = max_row(s.drop_last());
        if s.last().0 > m {
            s.last().0 as int
        } else {
            m
        }
    }
}

/// Largest column offset of a shape.
pub open spec fn max_col(s: Seq<(i32, i32)>) -> int
    decreases s.len(),
{
    if s.len() <= 1 {
        s[0].1 as int
    } else {
        let m = max_col(s.drop_last());
        if s.last().1 > m {
            s.last().1 as int
        } else {
            m
        }
    }
}

/// Smallest column offset of a shape.
pub open spec fn min_col(s: Seq<(i32, i32)>) -> int
    decreases s.len(),
{
    if s.len() <= 1 {
        s[0].1 as int
    } else {
        let m = min_col(s.drop_last());
        if s.last().1 < m {
            s.last().1 as int
        } else {
            m
        }
    }
}

/// The spawn state: rotation 0, the anchor row puts rotation 0 entirely
/// above the grid, the anchor column centres its width.
pub open spec fn spec_reset(p: Teto) -> Teto {
    let s0 = rots_v(p.rots)[0];
    let width = max_col(s0) - min_col(s0) + 1;
    Teto {
        rot: 0,
        i: (-max_row(s0) - 1) as i32,
        j: ((GRID_COLS - width) / 2 - 1) as i32,
        ..p
    }
}

/// A piece as `Teto::new` builds it: the given type and rotation states,
/// in spawn position (see `spec_reset`), with cleared timers, alive.
pub open spec fn is_fresh_teto(x: Teto, tt: TetoType, rv: Seq<Seq<(i32, i32)>>) -> bool {
    &&& x.t == tt
    &&& rots_v(x.rots) == rv
    &&& x == spec_reset(Teto {
        t: tt,
        rots: x.rots,
        rot: 0,
        i: 0,
        j: 0,
        fall_duration: FALL_MS,
        prev_fall_time: 0,
        dead: false,
        keys_last_time_pressed: KeyTimers { left: None, right: None, soft: None },
    })
}

/// The state after one rotation attempt in direction `dir`: the next
/// rotation index is tried in place, then at each wall-kick candidate in
/// order; failing all, the piece is unchanged.
pub open spec fn spec_kick(p: Teto, g: Seq<Seq<Option<TetoType>>>, dir: int) -> Teto {
    let nr = next_rot(p.rot as int, p.rots@.len() as int, dir);
    let shape = rots_v(p.rots)[nr];
    let cands = seq![(0i32, 0i32)] + kick_offsets(p.t);
    match first_fit(cands, g, shape, p.i as int, p.j as int) {
        Some(off) => Teto {
            rot: nr as usize,
            i: (p.i + off.0) as i32,
            j: (p.j + off.1) as i32,
            ..p
        },
        None => p,
    }
}

pub open spec fn spec_rotate_dir(p: Teto, g: Seq<Seq<Option<TetoType>>>, just: bool, now: u64, dir: int) -> Teto {
    if just {
        spec_kick(Teto { prev_fall_time: now, ..p }, g, dir)
    } else {
        p
    }
}

/// The rotation phase of one frame: a left turn on the left-rotate key,
/// then a right turn on the right-rotate key; each resets the fall timer.
pub open spec fn spec_rotate(p: Teto, g: Seq<Seq<Option<TetoType>>>, inp: Input, now: u64) -> Teto {
    spec_rotate_dir(spec_rotate_dir(p, g, inp.rotate_left_just, now, -1), g, inp.rotate_right_just, now, 1)
}

/// The state after handling one horizontal key: the repeat timer advances
/// per `key_repeat_spec`; a fire resets the fall timer and shifts the
/// column, reverting if the shifted piece collides.
pub open spec fn spec_move_dir(p: Teto, g: Seq<Seq<Option<TetoType>>>, key: MoveKey, just: bool, held: bool, now: u64, dir: int) -> Teto {
    let fired = key_repeat_spec(ktimer(p.keys_last_time_pressed, key), now, just, held).0;
    let t1 = key_repeat_spec(ktimer(p.keys_last_time_pressed, key), now, just, held).1;
    let p1 = Teto { keys_last_time_pressed: ktimer_set(p.keys_last_time_pressed, key, t1), ..p };
    if fired {
        let p2 = Teto { prev_fall_time: now, ..p1 };
        if shape_fits(g, p.cur_shape(), p.i as int, p.j + dir) {
            Teto { j: (p.j + dir) as i32, ..p2 }
        } else {
            p2
        }
    } else {
        p1
    }
}

/// The movement phase of one frame: left key, then right key.
pub open spec fn spec_move(p: Teto, g: Seq<Seq<Option<TetoType>>>, inp: Input, now: u64) -> Teto {
    spec_move_dir(
        spec_move_dir(p, g, MoveKey::Left, inp.move_left_just, inp.move_left_held, now, -1),
        g,
        MoveKey::Right,
        inp.move_right_just,
        inp.move_right_held,
        now,
        1,
    )
}

/// One fall step (see `Teto::fall`).
pub open spec fn spec_fall(p: Teto, g: Seq<Seq<Option<TetoType>>>, now: u64) -> Teto {
    if shape_fits(g, p.cur_shape(), p.i + 1, p.j as int) {
        Teto { prev_fall_time: now, i: (p.i + 1) as i32, ..p }
    } else {
        Teto { prev_fall_time: now, dead: true, ..p }
    }
}

/// The resting row of a piece dropped straight down from row `i`: the
/// first row at or below `i` whose successor position collides.
pub open spec fn rest_i(g: Seq<Seq<Option<TetoType>>>, shape: Seq<(i32, i32)>, i: int, j: int) -> int
    decreases GRID_ROWS + 1 - i,
        when i <= GRID_ROWS && shape_wf(shape) via rest_i_dec
{
    if !shape_fits(g, shape, i + 1, j) {
        i
    } else {
        rest_i(g, shape, i + 1, j)
    }
}

#[via_fn]
proof fn rest_i_dec(g: Seq<Seq<Option<TetoType>>>, shape: Seq<(i32, i32)>, i: int, j: int) {
    if shape_fits(g, shape, i + 1, j) {
        assert(!cell_filled(g, i + 1 + shape[0].0, j + shape[0].1));
    }
}

/// Unfolds `rest_i` one step from a position whose successor still fits.
pub proof fn lemma_rest_i_unfold(g: Seq<Seq<Option<TetoType>>>, shape: Seq<(i32, i32)>, i: int, j: int)
    requires
        shape_wf(shape),
        i <= GRID_ROWS,
    ensures
        shape_fits(g, shape, i + 1, j) ==> rest_i(g, shape, i, j) == rest_i(g, shape, i + 1, j)
            && i + 1 <= GRID_ROWS,
        !shape_fits(g, shape, i + 1, j) ==> rest_i(g, shape, i, j) == i,
{
    if shape_fits(g, shape, i + 1, j) {
        assert(!cell_filled(g, i + 1 + shape[0].0, j + shape[0].1));
    }
}

/// Hard drop: repeated fall steps until the piece dies on its resting row.
/// A piece that is already dead is left unchanged.
pub open spec fn spec_hard_drop(p: Teto, g: Seq<Seq<Option<TetoType>>>, now: u64) -> Teto {
    if p.dead {
        p
    } else {
        Teto {
            prev_fall_time: now,
            dead: true,
            i: rest_i(g, p.cur_shape(), p.i as int, p.j as int) as i32,
            ..p
        }
    }
}

/// The ghost-piece probe: the first downward offset `k` at which the piece
/// collides, minus one (see `Teto::get_ghost_i_offset`).
pub open spec fn ghost_probe(g: Seq<Seq<Option<TetoType>>>, shape: Seq<(i32, i32)>, i: int, j: int, k: int) -> int
    decreases GRID_ROWS + 1 - (i + k),
        when i + k <= GRID_ROWS && shape_wf(shape) via ghost_probe_dec
{
    if !shape_fits(g, shape, i + k, j) {
        k - 1
    } else {
        ghost_probe(g, shape, i, j, k + 1)
    }
}

#[via_fn]
proof fn ghost_probe_dec(g: Seq<Seq<Option<TetoType>>>, shape: Seq<(i32, i32)>, i: int, j: int, k: int) {
    if shape_fits(g, shape, i + k, j) {
        assert(!cell_filled(g, i + k + shape[0].0, j + shape[0].1));
    }
}

/// The fall phase of one frame: a hard drop on its key; otherwise one
/// soft-drop step when the soft-drop key repeat fires; otherwise one
/// gravity step once the fall interval has elapsed.
pub open spec fn spec_try_fall(p: Teto, g: Seq<Seq<Option<TetoType>>>, inp: Input, now: u64) -> Teto {
    if inp.hard_drop_just {
        spec_hard_drop(p, g, now)
    } else {
        let fired = key_repeat_spec(ktimer(p.keys_last_time_pressed, MoveKey::Soft), now, inp.soft_drop_just, inp.soft_drop_held).0;
        let t1 = key_repeat_spec(ktimer(p.keys_last_time_pressed, MoveKey::Soft), now, inp.soft_drop_just, inp.soft_drop_held).1;
        let p1 = Teto { keys_last_time_pressed: ktimer_set(p.keys_last_time_pressed, MoveKey::Soft, t1), ..p };
        if fired {
            spec_fall(Teto { prev_fall_time: now, ..p1 }, g, now)
        } else if now > p1.prev_fall_time + FALL_MS {
            spec_fall(p1, g, now)
        } else {
            p1
        }
    }
}

/// One full frame of piece simulation: rotate, then move, then fall.
pub open spec fn teto_step(p: Teto, g: Seq<Seq<Option<TetoType>>>, inp: Input, now: u64) -> Teto {
    spec_try_fall(spec_move(spec_rotate(p, g, inp, now), g, inp, now), g, inp, now)
}

impl Teto {
    /// Updates the key timers for `key` per the repeat rule and reports
    /// whether the key fired this frame.
    fn is_key_repeat(&mut self, key: MoveKey, now: u64, just: bool, held: bool) -> (r: bool)
        requires
            timers_wf(old(self).keys_last_time_pressed),
            now <= CLOCK_LIMIT_MS,
        ensures
            r == key_repeat_spec(ktimer(old(self).keys_last_time_pressed, key), now, just, held).0,
            *final(self) == (Teto {
                keys_last_time_pressed: ktimer_set(
                    old(self).keys_last_time_pressed,
                    key,
                    key_repeat_spec(ktimer(old(self).keys_last_time_pressed, key), now, just, held).1,
                ),
                ..*old(self)
            }),
            timers_wf(final(self).keys_last_time_pressed),
    {
        if self.get_key_timer(key).is_none() {
            self.set_key_timer(key, Some(now + REPEAT_DELAY_MS));
        }
        if just {
            self.set_key_timer(key, Some(now + REPEAT_DELAY_MS));
            return true;
        }
        let t = self.get_key_timer(key);
        match t {
            Some(tv) => {
                if held && now > tv + REPEAT_INTERVAL_MS {
                    self.set_key_timer(key, Some(now));
                    return true;
                }
            },
            None => {},
        }
        false
    }

    fn get_key_timer(&self, key: MoveKey) -> (r: Option<u64>)
        ensures
            r == ktimer(self.keys_last_time_pressed, key),
    {
        match key {
            MoveKey::Left => self.keys_last_time_pressed.left,
            MoveKey::Right => self.keys_last_time_pressed.right,
            MoveKey::Soft => self.keys_last_time_pressed.soft,
        }
    }

    fn set_key_timer(&mut self, key: MoveKey, v: Option<u64>)
        ensures
            *final(self) == (Teto {
                keys_last_time_pressed: ktimer_set(old(self).keys_last_time_pressed, key, v),
                ..*old(self)
            }),
    {
        match key {
            MoveKey::Left => self.keys_last_time_pressed.left = v,
            MoveKey::Right => self.keys_last_time_pressed.right = v,
            MoveKey::Soft => self.keys_last_time_pressed.soft = v,
        }
    }
}

/// Wall-kick determinism: for a fixed candidate list, shape, anchor and
/// board occupancy, `first_fit` yields `None` exactly when no candidate
/// fits, and yields the candidate at index `k` whenever `k` is the first
/// index in list order whose offset fits.
pub proof fn lemma_first_fit_first(cands: Seq<(i32, i32)>, g: Seq<Seq<Option<TetoType>>>, shape: Seq<(i32, i32)>, i: int, j: int)
    ensures
        (first_fit(cands, g, shape, i, j) is None) <==> (forall|m: int| 0 <= m < cands.len()
            ==> !shape_fits(g, shape, i + (#[trigger] cands[m]).0, j + cands[m].1)),
        forall|k: int|
            (0 <= k < cands.len() && shape_fits(g, shape, i + (#[trigger] cands[k]).0, j + cands[k].1)
                && (forall|m: int| 0 <= m < k
                    ==> !shape_fits(g, shape, i + (#[trigger] cands[m]).0, j + cands[m].1)))
            ==> first_fit(cands, g, shape, i, j) == Some(cands[k]),
    decreases cands.len(),
{
    if cands.len() > 0 {
        let rest = cands.drop_first();
        lemma_first_fit_first(rest, g, shape, i, j);
        assert(forall|m: int| 0 <= m < rest.len() ==> #[trigger] rest[m] == cands[m + 1]);
        if !shape_fits(g, shape, i + cands[0].0, j + cands[0].1) {
            assert(first_fit(cands, g, shape, i, j) == first_fit(rest, g, shape, i, j));
            if first_fit(cands, g, shape, i, j) is None {
                assert forall|m: int| 0 <= m < cands.len()
                    implies !shape_fits(g, shape, i + (#[trigger] cands[m]).0, j + cands[m].1) by {
                    if m > 0 {
                        assert(rest[m - 1] == cands[m]);
                        assert(!shape_fits(g, shape, i + rest[m - 1].0, j + rest[m - 1].1));
                    }
                }
            }
        }
        assert forall|k: int|
            (0 <= k < cands.len() && shape_fits(g, shape, i + (#[trigger] cands[k]).0, j + cands[k].1)
                && (forall|m: int| 0 <= m < k
                    ==> !shape_fits(g, shape, i + (#[trigger] cands[m]).0, j + cands[m].1)))
            implies first_fit(cands, g, shape, i, j) == Some(cands[k]) by {
            if k == 0 {
                assert(first_fit(cands, g, shape, i, j) == Some(cands[0]));
            } else {
                assert(!shape_fits(g, shape, i + cands[0].0, j + cands[0].1));
                assert(rest[k - 1] == cands[k]);
                assert(shape_fits(g, shape, i + rest[k - 1].0, j + rest[k - 1].1));
                assert forall|m: int| 0 <= m < k - 1
                    implies !shape_fits(g, shape, i + (#[trigger] rest[m]).0, j + rest[m].1) by {
                    assert(rest[m] == cands[m + 1]);
                    assert(!shape_fits(g, shape, i + cands[m + 1].0, j + cands[m + 1].1));
                }
                assert(first_fit(rest, g, shape, i, j) == Some(rest[k - 1]));
            }
        }
    }
}

/// Turning a piece one way and then back from a position where both the
/// current and the reached rotation fit in place restores the rotation
/// index and the anchor (the fall-timer reset aside, which both turns
/// share).
pub proof fn lemma_rotation_round_trip(p: Teto, g: Seq<Seq<Option<TetoType>>>, dir: int)
    requires
        p.wf(),
        dir == 1 || dir == -1,
        shape_fits(g, rots_v(p.rots)[next_rot(p.rot as int, p.rots@.len() as int, dir)], p.i as int, p.j as int),
        shape_fits(g, rots_v(p.rots)[p.rot as int], p.i as int, p.j as int),
    ensures
        spec_kick(spec_kick(p, g, dir), g, -dir).rot == p.rot,
        spec_kick(spec_kick(p, g, dir), g, -dir).i == p.i,
        spec_kick(spec_kick(p, g, dir), g, -dir).j == p.j,
{
    let len = p.rots@.len() as int;
    let nr = next_rot(p.rot as int, len, dir);
    let shape = rots_v(p.rots)[nr];
    let cands = seq![(0i32, 0i32)] + kick_offsets(p.t);
    assert(cands[0] == (0i32, 0i32));
    assert(shape_fits(g, shape, p.i + 0, p.j + 0));
    assert(first_fit(cands, g, shape, p.i as int, p.j as int) == Some((0i32, 0i32)));
    let q = spec_kick(p, g, dir);
    assert(q.rot == nr && q.i == p.i && q.j == p.j && q.rots == p.rots && q.t == p.t);
    lemma_next_rot_inverse(p.rot as int, len, dir);
    let back = next_rot(nr, len, -dir);
    assert(back == p.rot as int);
    let cands2 = seq![(0i32, 0i32)] + kick_offsets(q.t);
    assert(cands2[0] == (0i32, 0i32));
    assert(shape_fits(g, rots_v(q.rots)[back], q.i + 0, q.j + 0));
    assert(first_fit(cands2, g, rots_v(q.rots)[back], q.i as int, q.j as int) == Some((0i32, 0i32)));
}

/// Stepping a rotation index forward and then back (or back and then
/// forward) through `next_rot` returns to the same index.
pub proof fn lemma_next_rot_inverse(rot: int, len: int, dir: int)
    requires
        0 <= rot < len,
        1 <= len <= 4,
        dir == 1 || dir == -1,
    ensures
        next_rot(next_rot(rot, len, dir), len, -dir) == rot,
{
    lemma_next_rot_val(rot, len, dir);
    lemma_next_rot_val(next_rot(rot, len, dir), len, -dir);
}

/// The value `next_rot` takes: the rotation index steps by `dir` and
/// wraps at the ends.
pub proof fn lemma_next_rot_val(rot: int, len: int, dir: int)
    requires
        0 <= rot < len,
        1 <= len,
        dir == 1 || dir == -1,
    ensures
        next_rot(rot, len, dir) == (if rot + dir < 0 {
            len - 1
        } else if rot + dir >= len {
            0
        } else {
            rot + dir
        }),
{
    if rot + dir < 0 {
        assert(rot + len + dir == len - 1);
        lemma_small_mod((len - 1) as nat, len as nat);
    } else if rot + dir >= len {
        assert(rot + len + dir == 2 * len);
        lemma_mod_multiples_vanish(2, 0, len);
        assert(len * 2 + 0 == rot + len + dir);
        lemma_small_mod(0nat, len as nat);
    } else {
        lemma_mod_multiples_vanish(1, rot + dir, len);
        assert(len * 1 + (rot + dir) == rot + len + dir);
        lemma_small_mod((rot + dir) as nat, len as nat);
    }
}

} // verus!
