use vstd::prelude::*;

use crate::board::{board_added, board_updated, Board};
use crate::teto::{
    full_bag, is_fresh_teto, rots_v, rots_wf, spec_reset, teto_step, Input, Teto, TetoRots,
    TetoType,
};
use crate::util::CLOCK_LIMIT_MS;

verus! {

/// Relies on rand::random_range: sampling the non-empty range `0..n`
/// yields a value in `[0, n)`.
#[verifier::external_body]
fn random_below(n: usize) -> (r: usize)
    requires
        n > 0,
    ensures
        r < n,
{
    rand::random_range(0..n)
}

/// The rotation states of all seven piece types, indexed by `type_index`.
pub struct PieceDefs {
    pub defs: Vec<TetoRots>,
}

impl PieceDefs {
    pub open spec fn wf(&self) -> bool {
        &&& self.defs@.len() == 7
        &&& forall|k: int| 0 <= k < 7 ==> rots_wf(rots_v(#[trigger] self.defs@[k]))
    }

    pub fn new(defs: Vec<TetoRots>) -> (r: PieceDefs)
        requires
            defs@.len() == 7,
            forall|k: int| 0 <= k < 7 ==> rots_wf(rots_v(#[trigger] defs@[k])),
        ensures
            r.wf(),
            r.defs == defs,
    {
        PieceDefs { defs }
    }
}

/// The position of each piece type in a `PieceDefs` table.
pub open spec fn type_index(t: TetoType) -> int {
    match t {
        TetoType::I => 0,
        TetoType::O => 1,
        TetoType::T => 2,
        TetoType::S => 3,
        TetoType::Z => 4,
        TetoType::J => 5,
        TetoType::L => 6,
    }
}

fn type_index_exec(t: TetoType) -> (r: usize)
    ensures
        r == type_index(t),
{
    match t {
        TetoType::I => 0,
        TetoType::O => 1,
        TetoType::T => 2,
        TetoType::S => 3,
        TetoType::Z => 4,
        TetoType::J => 5,
        TetoType::L => 6,
    }
}

/// A bag after removing position `k` by swapping in the last element.
pub open spec fn bag_after_draw(bag: Seq<TetoType>, k: int) -> Seq<TetoType> {
    bag.update(k, bag.last()).drop_last()
}

/// Some position `k` of `bag0` was drawn: `t` is a fresh piece of the type
/// at `k` (with that type's rotation states from `defs`) and `bag1` is the
/// bag without it.
pub open spec fn draw_ok(defs: PieceDefs, bag0: Seq<TetoType>, bag1: Seq<TetoType>, t: Teto) -> bool {
    exists|k: int| {
        &&& 0 <= k < bag0.len()
        &&& bag1 == #[trigger] bag_after_draw(bag0, k)
        &&& is_fresh_teto(t, bag0[k], rots_v(defs.defs@[type_index(bag0[k])]))
    }
}

/// A deep copy of a piece's rotation states.
#[verifier::loop_isolation(false)]
    fn clone_rots(rs: &TetoRots) -> (c: TetoRots)
    ensures
        rots_v(c) == rots_v(*rs),
{
    let mut c: TetoRots = Vec::new();
    let mut k: usize = 0;
    while k < rs.len()
        invariant
            k <= rs@.len(),
            c@.len() == k,
            forall|m: int| 0 <= m < k ==> (#[trigger] c@[m])@ == rs@[m]@,
        decreases rs@.len() - k,
    {
        c.push(crate::parse::clone_rot(&rs[k]));
        k += 1;
    }
    proof {
        assert(rots_v(c) =~~= rots_v(*rs));
    }
    c
}

/// Draws one random piece from a non-empty bag: the drawn type leaves the
/// bag by swap-removal and comes back as a fresh piece.
fn draw_from_bag(defs: &PieceDefs, bag: &mut Vec<TetoType>) -> (t: Teto)
    requires
        defs.wf(),
        old(bag)@.len() > 0,
    ensures
        t.wf(),
        -4 <= t.i,
        draw_ok(*defs, old(bag)@, final(bag)@, t),
        final(bag)@.len() == old(bag)@.len() - 1,
{
    let k = random_below(bag.len());
    let tt = bag.swap_remove(k);
    let idx = type_index_exec(tt);
    let rots = clone_rots(&defs.defs[idx]);
    let t = Teto::new(tt, rots);
    proof {
        assert(bag@ =~= bag_after_draw(old(bag)@, k as int));
        assert(draw_ok(*defs, old(bag)@, bag@, t));
    }
    t
}

/// The whole game session: board, active/next/held pieces, the 7-bag,
/// scoring and the game-over flag.
pub struct PlayState {
    pub board: Board,
    /// The falling piece.
    pub teto: Teto,
    /// The piece shown as next, promoted by `pop_teto`.
    pub next_teto: Teto,
    /// The piece put aside by the hold command, if any.
    pub held_teto: Option<Teto>,
    /// The remaining types of the current 7-bag cycle.
    pub tetos: Vec<TetoType>,
    /// The loaded rotation states of all piece types.
    pub defs: PieceDefs,
    /// Whether the hold command is still available for this piece.
    pub can_hold: bool,
    pub score: i32,
    pub high_score: i32,
    pub game_over: bool,
}

impl PlayState {
    pub open spec fn wf(&self) -> bool {
        &&& self.board.wf()
        &&& self.teto.wf()
        &&& self.next_teto.wf()
        &&& -4 <= self.next_teto.i
        &&& match self.held_teto {
            Some(h) => h.wf() && -4 <= h.i,
            None => true,
        }
        &&& self.defs.wf()
        &&& self.tetos@.len() <= 7
        &&& 0 <= self.score
        &&& 0 <= self.high_score
    }

    /// A session as program start or restart leaves it: fresh board, two
    /// random draws from a new full bag for the current and next pieces,
    /// nothing held, hold available, score zero, not over.
    pub open spec fn is_fresh_session(&self, defs: PieceDefs) -> bool {
        &&& self.defs == defs
        &&& self.board.is_fresh()
        &&& self.held_teto is None
        &&& self.can_hold == true
        &&& self.score == 0
        &&& self.game_over == false
        &&& exists|bag1: Seq<TetoType>| {
            &&& draw_ok(defs, full_bag(), bag1, self.teto)
            &&& draw_ok(defs, bag1, self.tetos@, self.next_teto)
        }
    }

    /// Starts a session with the given piece definitions and the persisted
    /// high score.
    pub fn new(defs: PieceDefs, high_score: i32) -> (s: PlayState)
        requires
            defs.wf(),
            high_score >= 0,
        ensures
            s.wf(),
            s.is_fresh_session(defs),
            s.high_score == high_score,
    {
        let ghost gdefs = defs;
        let mut tetos = Teto::get_teto_bag();
        let teto = draw_from_bag(&defs, &mut tetos);
        let ghost bag1 = tetos@;
        let next_teto = draw_from_bag(&defs, &mut tetos);
        let s = PlayState {
            board: Board::new(),
            teto,
            next_teto,
            held_teto: None,
            tetos,
            defs,
            can_hold: true,
            score: 0,
            high_score,
            game_over: false,
        };
        proof {
            assert(draw_ok(gdefs, full_bag(), bag1, s.teto));
            assert(draw_ok(gdefs, bag1, s.tetos@, s.next_teto));
        }
        s
    }

    /// Promotes the next piece to current, draws a new next piece from the
    /// bag (refilling a full bag first when it is empty), and returns the
    /// old current piece.
    pub fn pop_teto(&mut self) -> (r: Teto)
        requires
            old(self).wf(),
        ensures
            final(self).wf(),
            popped_rel(*old(self), *final(self), r),
    {
        if self.tetos.len() == 0 {
            self.tetos = Teto::get_teto_bag();
        }
        let new_teto = draw_from_bag(&self.defs, &mut self.tetos);
        let mut carry = new_teto;
        std::mem::swap(&mut self.next_teto, &mut carry);
        std::mem::swap(&mut self.teto, &mut carry);
        carry
    }

    /// Raises the high score to the current score when it is exceeded;
    /// returns whether the new high score must be persisted.
    pub fn update_high_score(&mut self) -> (persist: bool)
        requires
            old(self).wf(),
        ensures
            final(self).wf(),
            persist == (old(self).score > old(self).high_score),
            final(self).high_score == (if old(self).score > old(self).high_score {
                old(self).score as int
            } else {
                old(self).high_score as int
            }),
            *final(self) == (PlayState { high_score: final(self).high_score, ..*old(self) }),
    {
        if self.score > self.high_score {
            self.high_score = self.score;
            return true;
        }
        false
    }

    /// Reinitialises the session for a new game, first raising the high
    /// score from the finished game; returns whether the high score must
    /// be persisted.
    pub fn restart(&mut self) -> (persist: bool)
        requires
            old(self).wf(),
        ensures
            final(self).wf(),
            restarted_rel(*old(self), *final(self), persist),
    {
        let persist = self.update_high_score();

        self.board = Board::new();

        self.tetos = Teto::get_teto_bag();
        let teto = draw_from_bag(&self.defs, &mut self.tetos);
        self.teto = teto;
        let ghost bag1 = self.tetos@;
        let next = draw_from_bag(&self.defs, &mut self.tetos);
        self.next_teto = next;
        self.held_teto = None;

        self.can_hold = true;
        self.score = 0;
        self.game_over = false;
        proof {
            assert(draw_ok(self.defs, full_bag(), bag1, self.teto));
            assert(draw_ok(self.defs, bag1, self.tetos@, self.next_teto));
        }
        persist
    }

    /// Applies the hold command when it is pressed and still available:
    /// with nothing held, the current piece is put aside and the next
    /// piece is promoted (drawing a replacement next); with a piece held,
    /// held and current swap. Both pieces involved return to spawn state
    /// and holding is disabled until the next placement.
    fn handle_hold(&mut self, input: &Input)
        requires
            old(self).wf(),
        ensures
            final(self).wf(),
            hold_rel(*old(self), *final(self), *input),
            final(self).teto == old(self).teto || -4 <= final(self).teto.i,
    {
        if !(self.can_hold && input.hold_just) {
            return;
        }
        if self.held_teto.is_none() {
            let popped = self.pop_teto();
            self.held_teto = Some(popped);
            self.can_hold = false;
        } else {
            match &mut self.held_teto {
                Some(h) => {
                    std::mem::swap(h, &mut self.teto);
                    self.teto.reset();
                    self.can_hold = false;
                },
                None => {},
            }
        }
        match &mut self.held_teto {
            Some(h) => {
                h.reset();
            },
            None => {},
        }
    }

    /// Runs one frame of the session at clock `now`. While the game is
    /// over only the restart command acts (returning whether the high
    /// score must be persisted); otherwise the frame runs hold handling,
    /// the board animation tick, the piece simulation, and, when the piece
    /// has landed, its merge into the board with a fresh draw. The two
    /// magnitude preconditions only keep the anchor and score arithmetic
    /// inside machine integers.
    pub fn update(&mut self, input: &Input, now: u64) -> (persist: bool)
        requires
            old(self).wf(),
            now <= CLOCK_LIMIT_MS,
            old(self).teto.i > i32::MIN + 128,
            old(self).score + old(self).board.combo_count * 50 + 850 <= i32::MAX,
        ensures
            final(self).wf(),
            session_step(*old(self), *final(self), *input, now, persist),
    {
        let ghost s0 = *old(self);
        if self.game_over {
            if input.restart_released {
                let p = self.restart();
                return p;
            }
            return false;
        }

        self.handle_hold(input);
        let ghost sh = *self;

        self.board.update(now);
        let ghost b1 = self.board;

        self.teto.update(input, now, &self.board);
        let ghost t1 = self.teto;

        if self.teto.is_dead() {
            let t = self.pop_teto();
            let mut sc = self.score;
            let mut go = self.game_over;
            self.board.add(now, t, &mut sc, &mut go);
            self.score = sc;
            self.game_over = go;
            self.can_hold = true;
        }
        proof {
            assert(hold_rel(s0, sh, *input));
            assert(board_updated(sh.board, b1, now));
            assert(t1 == teto_step(sh.teto, b1.grid(), *input, now));
            assert(after_sim(sh, *self, *input, now));
        }
        false
    }

    pub fn get_score(&self) -> (s: i32)
        ensures
            s == self.score,
    {
        self.score
    }

    pub fn get_high_score(&self) -> (s: i32)
        ensures
            s == self.high_score,
    {
        self.high_score
    }

    pub fn is_game_over(&self) -> (r: bool)
        ensures
            r == self.game_over,
    {
        self.game_over
    }
}

/// Relates a session to its state after `pop_teto`: the old current piece
/// is returned, the next piece becomes current, a fresh random piece
/// becomes next, drawn from the bag (a full bag first replacing an empty
/// one); everything else is untouched.
pub open spec fn popped_rel(s0: PlayState, s1: PlayState, r: Teto) -> bool {
    let bag0 = if s0.tetos@.len() == 0 { full_bag() } else { s0.tetos@ };
    &&& r == s0.teto
    &&& s1.teto == s0.next_teto
    &&& draw_ok(s0.defs, bag0, s1.tetos@, s1.next_teto)
    &&& s1.board == s0.board
    &&& s1.held_teto == s0.held_teto
    &&& s1.defs == s0.defs
    &&& s1.can_hold == s0.can_hold
    &&& s1.score == s0.score
    &&& s1.high_score == s0.high_score
    &&& s1.game_over == s0.game_over
}

/// Relates a session to its state after the hold phase of one frame (see
/// `PlayState::handle_hold`).
pub open spec fn hold_rel(s0: PlayState, s1: PlayState, inp: Input) -> bool {
    if !(s0.can_hold && inp.hold_just) {
        s1 == s0
    } else if s0.held_teto is None {
        let bag0 = if s0.tetos@.len() == 0 { full_bag() } else { s0.tetos@ };
        &&& s1.teto == s0.next_teto
        &&& draw_ok(s0.defs, bag0, s1.tetos@, s1.next_teto)
        &&& s1.held_teto == Some(spec_reset(s0.teto))
        &&& s1.can_hold == false
        &&& s1.board == s0.board
        &&& s1.defs == s0.defs
        &&& s1.score == s0.score
        &&& s1.high_score == s0.high_score
        &&& s1.game_over == s0.game_over
    } else {
        &&& s1.teto == spec_reset(s0.held_teto.unwrap())
        &&& s1.held_teto == Some(spec_reset(s0.teto))
        &&& s1.can_hold == false
        &&& s1.tetos == s0.tetos
        &&& s1.next_teto == s0.next_teto
        &&& s1.board == s0.board
        &&& s1.defs == s0.defs
        &&& s1.score == s0.score
        &&& s1.high_score == s0.high_score
        &&& s1.game_over == s0.game_over
    }
}

/// Relates a session to its state after `restart`: the high score is
/// raised from the finished game (`persist` says whether it changed) and
/// everything else starts over as a fresh session.
pub open spec fn restarted_rel(s0: PlayState, s1: PlayState, persist: bool) -> bool {
    &&& persist == (s0.score > s0.high_score)
    &&& s1.high_score == (if s0.score > s0.high_score { s0.score as int } else { s0.high_score as int })
    &&& s1.is_fresh_session(s0.defs)
}

/// The simulation part of one in-game frame, after the hold phase: the
/// board ticks its clear animation, the piece runs `teto_step` against
/// the ticked board, and if the piece has landed it is merged (scoring
/// per `board_added`, possibly setting game over), the next piece is
/// promoted with a fresh draw, and holding is allowed again.
pub open spec fn after_sim(sh: PlayState, s1: PlayState, inp: Input, now: u64) -> bool {
    exists|b1: Board| {
        &&& #[trigger] board_updated(sh.board, b1, now)
        &&& {
            let t1 = teto_step(sh.teto, b1.grid(), inp, now);
            if !t1.dead {
                s1 == (PlayState { board: b1, teto: t1, ..sh })
            } else {
                let bag0 = if sh.tetos@.len() == 0 { full_bag() } else { sh.tetos@ };
                &&& s1.teto == sh.next_teto
                &&& draw_ok(sh.defs, bag0, s1.tetos@, s1.next_teto)
                &&& board_added(
                    b1,
                    s1.board,
                    now,
                    t1.spec_cells(),
                    t1.t,
                    sh.score as int,
                    s1.score as int,
                    sh.game_over,
                    s1.game_over,
                )
                &&& s1.can_hold == true
                &&& s1.held_teto == sh.held_teto
                &&& s1.defs == sh.defs
                &&& s1.high_score == sh.high_score
            }
        }
    }
}

/// Relates a session to its state after one frame (see `PlayState::update`):
/// while the game is over, only restart acts; otherwise the hold phase
/// runs first and then the simulation of the frame.
pub open spec fn session_step(s0: PlayState, s1: PlayState, inp: Input, now: u64, persist: bool) -> bool {
    if s0.game_over {
        if inp.restart_released {
            restarted_rel(s0, s1, persist)
        } else {
            s1 == s0 && persist == false
        }
    } else {
        &&& persist == false
        &&& exists|sh: PlayState| #[trigger] hold_rel(s0, sh, inp) && after_sim(sh, s1, inp, now)
    }
}

/// Decimal value of a digit string, most significant first.
pub open spec fn digits_val(s: Seq<u8>) -> int
    decreases s.len(),
{
    if s.len() == 0 {
        0
    } else {
        digits_val(s.drop_last()) * 10 + (s.last() - 48)
    }
}

/// Whether `s` is a non-empty string of decimal digits.
pub open spec fn is_digits(s: Seq<u8>) -> bool {
    s.len() >= 1 && forall|k: int| 0 <= k < s.len() ==> 48 <= #[trigger] s[k] <= 57
}

/// Reads a persisted high score: the value of a text holding a
/// non-negative decimal integer that fits an `i32`, and zero for any
/// other text (missing files are the caller's concern and also read as
/// an empty text, hence zero).
#[verifier::loop_isolation(false)]
    pub fn parse_high_score(text: &Vec<u8>) -> (r: i32)
    ensures
        r == (if is_digits(text@) && digits_val(text@) <= i32::MAX {
            digits_val(text@)
        } else {
            0
        }),
        r >= 0,
{
    let n = text.len();
    if n == 0 {
        return 0;
    }
    let mut acc: i64 = 0;
    let mut k: usize = 0;
    while k < n
        invariant
            n == text@.len(),
            0 < n,
            k <= n,
            forall|m: int| 0 <= m < k ==> 48 <= #[trigger] text@[m] <= 57,
            acc == digits_val(text@.take(k as int)),
            0 <= acc <= i32::MAX,
        decreases n - k,
    {
        let c = text[k];
        if c < 48 || c > 57 {
            return 0;
        }
        proof {
            assert(text@.take(k as int + 1).drop_last() =~= text@.take(k as int));
            assert(text@.take(k as int + 1).last() == text@[k as int]);
        }
        acc = acc * 10 + ((c - 48) as i64);
        k += 1;
        if acc > 0x7FFF_FFFF {
            proof {
                lemma_digits_prefix_le(text@, k as int);
            }
            return 0;
        }
    }
    proof {
        assert(text@.take(n as int) =~= text@);
    }
    acc as i32
}

/// For a digit string, the value of a prefix never exceeds the value of
/// the whole string.
proof fn lemma_digits_prefix_le(s: Seq<u8>, k: int)
    requires
        0 <= k <= s.len(),
    ensures
        is_digits(s) ==> digits_val(s.take(k)) <= digits_val(s),
    decreases s.len() - k,
{
    if k < s.len() {
        lemma_digits_prefix_le(s, k + 1);
        if is_digits(s) {
            assert(s.take(k + 1).drop_last() =~= s.take(k));
            assert(digits_val(s.take(k)) >= 0) by {
                lemma_digits_nonneg(s.take(k));
            }
            assert(digits_val(s.take(k + 1)) == digits_val(s.take(k)) * 10 + (s[k] - 48));
        }
    } else {
        assert(s.take(k) =~= s);
    }
}

/// The value of a digit string is non-negative.
proof fn lemma_digits_nonneg(s: Seq<u8>)
    requires
        forall|k: int| 0 <= k < s.len() ==> 48 <= #[trigger] s[k] <= 57,
    ensures
        digits_val(s) >= 0,
    decreases s.len(),
{
    if s.len() > 0 {
        lemma_digits_nonneg(s.drop_last());
    }
}

} // verus!
