use tetris::board::Board;
use tetris::teto::{Teto, TetoType};

fn i_rots() -> Vec<Vec<(i32, i32)>> {
    vec![
        vec![(0, 0), (0, 1), (0, 2), (0, 3)],
        vec![(0, 0), (1, 0), (2, 0), (3, 0)],
        vec![(0, 0), (0, 1), (0, 2), (0, 3)],
        vec![(0, 0), (1, 0), (2, 0), (3, 0)],
    ]
}

fn fill_cell(b: &mut Board, i: usize, j: usize) {
    b.data[i * 10 + j] = Some(TetoType::O);
}

#[test]
fn boundary_columns_always_collide() {
    let b = Board::new();
    for i in [-5, -1, 0, 10, 19, 25] {
        assert!(b.filled(i, -1));
        assert!(b.filled(i, 10));
    }
}

#[test]
fn rows_above_grid_are_open() {
    let b = Board::new();
    for j in 0..10 {
        assert!(!b.filled(-1, j));
        assert!(!b.filled(-7, j));
    }
}

#[test]
fn rows_below_grid_collide() {
    let b = Board::new();
    for j in 0..10 {
        assert!(b.filled(20, j));
    }
}

#[test]
fn single_line_clear_scores_one_hundred() {
    // empty board, row 19 complete but for the four cells an I-piece fills
    let mut b = Board::new();
    for j in 4..10 {
        fill_cell(&mut b, 19, j);
    }
    let mut t = Teto::new(TetoType::I, i_rots());
    t.i = 19;
    t.j = 0;
    let mut score: i32 = 0;
    let mut over = false;
    b.add(1000, t, &mut score, &mut over);
    assert!(!over);
    assert_eq!(b.clear_count, 1);
    assert_eq!(b.combo_count, 1);
    assert_eq!(score, 100);
    assert!(b.is_cleared[19]);
    assert_eq!(b.clear_i, 19);
    assert_eq!(b.clear_start_time, 1000);
}

#[test]
fn second_consecutive_clear_earns_combo_bonus() {
    let mut b = Board::new();
    for j in 4..10 {
        fill_cell(&mut b, 19, j);
    }
    let mut t = Teto::new(TetoType::I, i_rots());
    t.i = 19;
    t.j = 0;
    let mut score: i32 = 0;
    let mut over = false;
    b.add(1000, t, &mut score, &mut over);
    assert_eq!(score, 100);

    // let the animation finish and the cleared row drop out
    b.update(1251);
    assert!(!b.is_cleared[19]);

    for j in 4..10 {
        fill_cell(&mut b, 19, j);
    }
    let mut t2 = Teto::new(TetoType::I, i_rots());
    t2.i = 19;
    t2.j = 0;
    b.add(2000, t2, &mut score, &mut over);
    assert_eq!(b.clear_count, 1);
    assert_eq!(b.combo_count, 2);
    assert_eq!(score, 100 + 150);
}

#[test]
fn no_clear_resets_combo() {
    let mut b = Board::new();
    for j in 4..10 {
        fill_cell(&mut b, 19, j);
    }
    let mut t = Teto::new(TetoType::I, i_rots());
    t.i = 19;
    t.j = 0;
    let mut score: i32 = 0;
    let mut over = false;
    b.add(1000, t, &mut score, &mut over);
    assert_eq!(b.combo_count, 1);
    b.update(1251);

    // a placement that completes nothing
    let mut t2 = Teto::new(TetoType::I, i_rots());
    t2.i = 18;
    t2.j = 0;
    b.add(2000, t2, &mut score, &mut over);
    assert_eq!(b.clear_count, 0);
    assert_eq!(b.combo_count, 0);
    assert_eq!(score, 100);
}

#[test]
fn update_before_duration_changes_nothing() {
    let mut b = Board::new();
    for j in 4..10 {
        fill_cell(&mut b, 19, j);
    }
    let mut t = Teto::new(TetoType::I, i_rots());
    t.i = 19;
    t.j = 0;
    let mut score: i32 = 0;
    let mut over = false;
    b.add(1000, t, &mut score, &mut over);
    let data_before = b.data.clone();
    b.update(1250);
    assert_eq!(b.data, data_before);
    assert!(b.is_cleared[19]);
    b.update(1251);
    assert!(b.data.iter().all(|c| c.is_none()));
    assert!(!b.is_cleared[19]);
    assert_eq!(b.clear_i, -1);
}

#[test]
fn update_shifts_rows_above_cleared_row() {
    let mut b = Board::new();
    // a lone block on row 18, and row 19 full
    fill_cell(&mut b, 18, 0);
    for j in 0..10 {
        fill_cell(&mut b, 19, j);
    }
    b.is_cleared[19] = true;
    b.clear_start_time = 1000;
    b.update(1300);
    // the block moved from row 18 to row 19; everything else is empty
    assert_eq!(b.data[19 * 10], Some(TetoType::O));
    for k in 0..190 {
        assert_eq!(b.data[k], None);
    }
    for j in 1..10 {
        assert_eq!(b.data[19 * 10 + j], None);
    }
}

#[test]
fn adjacent_double_clear() {
    let mut b = Board::new();
    fill_cell(&mut b, 17, 3);
    for j in 0..10 {
        fill_cell(&mut b, 18, j);
        fill_cell(&mut b, 19, j);
    }
    b.is_cleared[18] = true;
    b.is_cleared[19] = true;
    b.clear_start_time = 0;
    b.update(251);
    // both full rows are gone and the lone block fell two rows
    assert_eq!(b.data[19 * 10 + 3], Some(TetoType::O));
    for k in 0..190 {
        assert_eq!(b.data[k], None);
    }
}

#[test]
fn out_of_bounds_placement_sets_game_over_but_writes_rest() {
    let mut b = Board::new();
    let mut t = Teto::new(TetoType::I, i_rots());
    // horizontal I at columns 8..12: two cells stick out to the right
    t.i = 19;
    t.j = 8;
    let mut score: i32 = 0;
    let mut over = false;
    b.add(500, t, &mut score, &mut over);
    assert!(over);
    assert_eq!(b.data[19 * 10 + 8], Some(TetoType::I));
    assert_eq!(b.data[19 * 10 + 9], Some(TetoType::I));
    assert_eq!(score, 0);
}

#[test]
fn four_line_clear_scores_eight_hundred() {
    let mut b = Board::new();
    for i in 16..20 {
        for j in 1..10 {
            fill_cell(&mut b, i, j);
        }
    }
    let mut t = Teto::new(TetoType::I, i_rots());
    // vertical I in column 0, rows 16..20
    t.rot = 1;
    t.i = 16;
    t.j = 0;
    let mut score: i32 = 0;
    let mut over = false;
    b.add(100, t, &mut score, &mut over);
    assert_eq!(b.clear_count, 4);
    assert_eq!(score, 800);
    assert_eq!(b.clear_i, 16);
}
