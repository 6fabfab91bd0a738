use tetris::board::Board;
use tetris::teto::{Input, Teto, TetoType};

fn i_rots() -> Vec<Vec<(i32, i32)>> {
    vec![
        vec![(0, 0), (0, 1), (0, 2), (0, 3)],
        vec![(0, 0), (1, 0), (2, 0), (3, 0)],
        vec![(0, 0), (0, 1), (0, 2), (0, 3)],
        vec![(0, 0), (1, 0), (2, 0), (3, 0)],
    ]
}

fn o_rots() -> Vec<Vec<(i32, i32)>> {
    let sq = vec![(0, 0), (0, 1), (1, 0), (1, 1)];
    vec![sq.clone(), sq.clone(), sq.clone(), sq]
}

#[test]
fn spawn_position_is_above_grid_and_centred() {
    let t = Teto::new(TetoType::I, i_rots());
    assert_eq!(t.rot, 0);
    // lowest cell of rotation 0 sits just above row 0
    assert_eq!(t.i, -1);
    // width 4 out of 10 columns
    assert_eq!(t.j, 2);
    assert!(!t.is_dead());
    let o = Teto::new(TetoType::O, o_rots());
    assert_eq!(o.i, -2);
    assert_eq!(o.j, 3);
}

#[test]
fn get_rot_returns_absolute_cells() {
    let mut t = Teto::new(TetoType::I, i_rots());
    t.i = 5;
    t.j = 3;
    assert_eq!(t.get_rot(), vec![(5, 3), (5, 4), (5, 5), (5, 6)]);
}

#[test]
fn rotation_round_trip_restores_rotation_and_anchor() {
    let b = Board::new();
    let mut t = Teto::new(TetoType::I, i_rots());
    t.i = 5;
    t.j = 3;
    let (i0, j0, r0) = (t.i, t.j, t.rot);
    let mut inp = Input::none();
    inp.rotate_left_just = true;
    t.update(&inp, 1, &b);
    assert_eq!(t.rot, 3);
    let mut inp2 = Input::none();
    inp2.rotate_right_just = true;
    t.update(&inp2, 2, &b);
    assert_eq!((t.i, t.j, t.rot), (i0, j0, r0));
}

#[test]
fn blocked_rotation_without_working_kick_reverts() {
    // a vertical I pinned in a single-column well of depth 4
    let mut b = Board::new();
    for i in 14..20 {
        for j in 0..10 {
            if j != 4 {
                b.data[i * 10 + j] = Some(TetoType::O);
            }
        }
    }
    let mut t = Teto::new(TetoType::I, i_rots());
    t.rot = 1;
    t.i = 16;
    t.j = 4;
    let mut inp = Input::none();
    inp.rotate_right_just = true;
    t.update(&inp, 1, &b);
    // the horizontal shape fits nowhere the kicks reach, so nothing moved
    assert_eq!(t.rot, 1);
    assert_eq!((t.i, t.j), (16, 4));
}

#[test]
fn wall_kick_takes_first_fitting_offset() {
    // a horizontal I high above the grid turns freely in place
    let b = Board::new();
    let mut t = Teto::new(TetoType::I, i_rots());
    t.i = -10;
    t.j = 3;
    let mut inp = Input::none();
    inp.rotate_right_just = true;
    t.update(&inp, 1, &b);
    assert_eq!(t.rot, 1);
    // in-place attempt fits, so the anchor is unchanged
    assert_eq!((t.i, t.j), (-10, 3));
}

#[test]
fn move_left_and_right() {
    let b = Board::new();
    let mut t = Teto::new(TetoType::I, i_rots());
    t.i = 5;
    let mut inp = Input::none();
    inp.move_left_just = true;
    t.update(&inp, 1, &b);
    assert_eq!(t.j, 1);
    let mut inp2 = Input::none();
    inp2.move_right_just = true;
    t.update(&inp2, 2, &b);
    assert_eq!(t.j, 2);
}

#[test]
fn move_into_wall_is_rejected() {
    let b = Board::new();
    let mut t = Teto::new(TetoType::I, i_rots());
    t.i = 5;
    t.j = 0;
    let mut inp = Input::none();
    inp.move_left_just = true;
    t.update(&inp, 1, &b);
    assert_eq!(t.j, 0);
}

#[test]
fn held_key_repeats_after_interval() {
    let b = Board::new();
    let mut t = Teto::new(TetoType::I, i_rots());
    t.i = 5;
    t.j = 6;
    let mut press = Input::none();
    press.move_left_just = true;
    press.move_left_held = true;
    t.update(&press, 1000, &b);
    assert_eq!(t.j, 5);
    let mut hold = Input::none();
    hold.move_left_held = true;
    // within the initial delay: no repeat fire
    t.update(&hold, 1100, &b);
    assert_eq!(t.j, 5);
    // the timer was armed at 1200; more than 100 ms later it fires
    t.update(&hold, 1301, &b);
    assert_eq!(t.j, 4);
}

#[test]
fn gravity_steps_after_fall_duration() {
    let b = Board::new();
    let mut t = Teto::new(TetoType::I, i_rots());
    let none = Input::none();
    t.update(&none, 500, &b);
    assert_eq!(t.i, -1);
    t.update(&none, 501, &b);
    assert_eq!(t.i, 0);
    t.update(&none, 600, &b);
    assert_eq!(t.i, 0);
    t.update(&none, 1002, &b);
    assert_eq!(t.i, 1);
}

#[test]
fn hard_drop_locks_on_bottom_row() {
    let b = Board::new();
    let mut t = Teto::new(TetoType::I, i_rots());
    let mut inp = Input::none();
    inp.hard_drop_just = true;
    t.update(&inp, 1, &b);
    assert!(t.is_dead());
    assert_eq!(t.i, 19);
}

#[test]
fn hard_drop_rests_on_stack() {
    let mut b = Board::new();
    for j in 0..10 {
        b.data[19 * 10 + j] = Some(TetoType::O);
    }
    let mut t = Teto::new(TetoType::I, i_rots());
    let mut inp = Input::none();
    inp.hard_drop_just = true;
    t.update(&inp, 1, &b);
    assert!(t.is_dead());
    assert_eq!(t.i, 18);
}

#[test]
fn soft_drop_steps_once() {
    let b = Board::new();
    let mut t = Teto::new(TetoType::I, i_rots());
    let mut inp = Input::none();
    inp.soft_drop_just = true;
    t.update(&inp, 1, &b);
    assert_eq!(t.i, 0);
    assert!(!t.is_dead());
}

#[test]
fn ghost_offset_probes_to_landing_row() {
    let b = Board::new();
    let mut t = Teto::new(TetoType::I, i_rots());
    t.i = 3;
    assert_eq!(t.get_ghost_i_offset(&b), 16);
    let mut stacked = Board::new();
    for j in 0..10 {
        stacked.data[19 * 10 + j] = Some(TetoType::O);
    }
    assert_eq!(t.get_ghost_i_offset(&stacked), 15);
}

#[test]
fn fall_step_marks_dead_and_backs_off() {
    let mut b = Board::new();
    for j in 0..10 {
        b.data[10 * 10 + j] = Some(TetoType::O);
    }
    let mut t = Teto::new(TetoType::I, i_rots());
    t.i = 9;
    let none = Input::none();
    // gravity fires and the step below collides: the piece dies in place
    t.update(&none, 501, &b);
    assert!(t.is_dead());
    assert_eq!(t.i, 9);
}

#[test]
fn wall_kick_shifts_anchor_when_in_place_is_blocked() {
    // two single-cell rotation states: rotating moves the cell from
    // (i + 1, j) to (i, j); with (i, j) occupied, the first candidate
    // offset (-1, 0) resolves the rotation one row higher
    let mut b = Board::new();
    b.data[10 * 10 + 5] = Some(TetoType::O);
    let rots = vec![vec![(1, 0)], vec![(0, 0)]];
    let mut t = Teto::new(TetoType::T, rots);
    t.i = 10;
    t.j = 5;
    let mut inp = Input::none();
    inp.rotate_right_just = true;
    t.update(&inp, 1, &b);
    assert_eq!(t.rot, 1);
    assert_eq!((t.i, t.j), (9, 5));
}
