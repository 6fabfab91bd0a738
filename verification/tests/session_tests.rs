use tetris::session::{parse_high_score, PieceDefs, PlayState};
use tetris::teto::{Input, TetoType};

fn defs() -> PieceDefs {
    let flat = vec![(0, 0), (0, 1), (0, 2), (0, 3)];
    let tall = vec![(0, 0), (1, 0), (2, 0), (3, 0)];
    let square = vec![(0, 0), (0, 1), (1, 0), (1, 1)];
    let mut all: Vec<Vec<Vec<(i32, i32)>>> = Vec::new();
    // I
    all.push(vec![flat.clone(), tall.clone(), flat.clone(), tall.clone()]);
    // O
    all.push(vec![square.clone(), square.clone(), square.clone(), square.clone()]);
    // T
    all.push(vec![
        vec![(0, 1), (1, 0), (1, 1), (1, 2)],
        vec![(0, 0), (1, 0), (1, 1), (2, 0)],
        vec![(0, 0), (0, 1), (0, 2), (1, 1)],
        vec![(0, 1), (1, 0), (1, 1), (2, 1)],
    ]);
    // S
    all.push(vec![
        vec![(0, 1), (0, 2), (1, 0), (1, 1)],
        vec![(0, 0), (1, 0), (1, 1), (2, 1)],
        vec![(0, 1), (0, 2), (1, 0), (1, 1)],
        vec![(0, 0), (1, 0), (1, 1), (2, 1)],
    ]);
    // Z
    all.push(vec![
        vec![(0, 0), (0, 1), (1, 1), (1, 2)],
        vec![(0, 1), (1, 0), (1, 1), (2, 0)],
        vec![(0, 0), (0, 1), (1, 1), (1, 2)],
        vec![(0, 1), (1, 0), (1, 1), (2, 0)],
    ]);
    // J
    all.push(vec![
        vec![(0, 0), (1, 0), (1, 1), (1, 2)],
        vec![(0, 0), (0, 1), (1, 0), (2, 0)],
        vec![(0, 0), (0, 1), (0, 2), (1, 2)],
        vec![(0, 1), (1, 1), (2, 0), (2, 1)],
    ]);
    // L
    all.push(vec![
        vec![(0, 2), (1, 0), (1, 1), (1, 2)],
        vec![(0, 0), (1, 0), (2, 0), (2, 1)],
        vec![(0, 0), (0, 1), (0, 2), (1, 0)],
        vec![(0, 0), (0, 1), (1, 1), (2, 1)],
    ]);
    PieceDefs::new(all)
}

fn type_id(t: TetoType) -> usize {
    match t {
        TetoType::I => 0,
        TetoType::O => 1,
        TetoType::T => 2,
        TetoType::S => 3,
        TetoType::Z => 4,
        TetoType::J => 5,
        TetoType::L => 6,
    }
}

#[test]
fn new_session_draws_two_from_full_bag() {
    let s = PlayState::new(defs(), 42);
    assert_eq!(s.tetos.len(), 5);
    assert_eq!(s.high_score, 42);
    assert_eq!(s.score, 0);
    assert!(s.can_hold);
    assert!(!s.game_over);
    assert!(s.held_teto.is_none());
}

#[test]
fn bag_empties_without_replacement_then_refills() {
    let mut s = PlayState::new(defs(), 0);
    let mut seen = [false; 7];
    seen[type_id(s.teto.t)] = true;
    seen[type_id(s.next_teto.t)] = true;
    for n in 0..5 {
        s.pop_teto();
        assert_eq!(s.tetos.len(), 4 - n);
        seen[type_id(s.next_teto.t)] = true;
    }
    // seven draws without replacement covered every type exactly once
    assert!(seen.iter().all(|x| *x));
    assert_eq!(s.tetos.len(), 0);
    // the next draw refills a full bag of 7 before drawing
    s.pop_teto();
    assert_eq!(s.tetos.len(), 6);
}

#[test]
fn pop_promotes_next_to_current() {
    let mut s = PlayState::new(defs(), 0);
    let old_current = s.teto.t;
    let old_next = s.next_teto.t;
    let popped = s.pop_teto();
    assert_eq!(popped.t, old_current);
    assert_eq!(s.teto.t, old_next);
}

#[test]
fn hold_with_nothing_held() {
    let mut s = PlayState::new(defs(), 0);
    let old_current = s.teto.t;
    let old_next = s.next_teto.t;
    let mut inp = Input::none();
    inp.hold_just = true;
    let persist = s.update(&inp, 1);
    assert!(!persist);
    // held becomes the old current piece, back at spawn
    let held = s.held_teto.as_ref().unwrap();
    assert_eq!(held.t, old_current);
    assert_eq!(held.rot, 0);
    // the new current piece came from next
    assert_eq!(s.teto.t, old_next);
    // holding is used up until the next placement
    assert!(!s.can_hold);

    // pressing hold again immediately is a no-op
    let held_t = held.t;
    let cur_t = s.teto.t;
    s.update(&inp, 2);
    assert_eq!(s.held_teto.as_ref().unwrap().t, held_t);
    assert_eq!(s.teto.t, cur_t);
    assert!(!s.can_hold);
}

#[test]
fn hold_with_piece_held_swaps() {
    let mut s = PlayState::new(defs(), 0);
    let mut inp = Input::none();
    inp.hold_just = true;
    s.update(&inp, 1);
    let held_t = s.held_teto.as_ref().unwrap().t;
    let cur_t = s.teto.t;
    // allow holding again, as a placement would
    s.can_hold = true;
    s.update(&inp, 2);
    assert_eq!(s.teto.t, held_t);
    assert_eq!(s.held_teto.as_ref().unwrap().t, cur_t);
    assert!(!s.can_hold);
}

#[test]
fn update_high_score_persists_only_on_increase() {
    let mut s = PlayState::new(defs(), 10);
    s.score = 5;
    assert!(!s.update_high_score());
    assert_eq!(s.high_score, 10);
    s.score = 25;
    assert!(s.update_high_score());
    assert_eq!(s.high_score, 25);
}

#[test]
fn game_over_freezes_until_restart() {
    let mut s = PlayState::new(defs(), 0);
    s.game_over = true;
    s.score = 7;
    let none = Input::none();
    assert!(!s.update(&none, 1));
    assert!(s.game_over);
    assert_eq!(s.score, 7);
    let mut restart = Input::none();
    restart.restart_released = true;
    let persist = s.update(&restart, 2);
    // the finished game's score becomes the high score and is persisted
    assert!(persist);
    assert_eq!(s.high_score, 7);
    assert_eq!(s.score, 0);
    assert!(!s.game_over);
    assert!(s.can_hold);
    assert!(s.held_teto.is_none());
    assert_eq!(s.tetos.len(), 5);
}

#[test]
fn frame_update_applies_gravity_to_current_piece() {
    let mut s = PlayState::new(defs(), 0);
    let i0 = s.teto.i;
    let none = Input::none();
    s.update(&none, 501);
    assert_eq!(s.teto.i, i0 + 1);
}

#[test]
fn hard_drop_frame_merges_and_allows_hold_again() {
    let mut s = PlayState::new(defs(), 0);
    s.can_hold = false;
    let next_t = s.next_teto.t;
    let mut inp = Input::none();
    inp.hard_drop_just = true;
    s.update(&inp, 1);
    // the dropped piece was merged: some bottom-row cells are filled
    assert!(s.board.data.iter().any(|c| c.is_some()));
    // the next piece was promoted and holding is allowed again
    assert_eq!(s.teto.t, next_t);
    assert!(s.can_hold);
    assert!(!s.game_over);
    assert_eq!(s.score, 0);
}

#[test]
fn high_score_parser_reads_persisted_value() {
    assert_eq!(parse_high_score(&b"777".to_vec()), 777);
}
