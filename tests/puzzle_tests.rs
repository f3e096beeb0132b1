use grid_puzzle::puzzle::{Cell, Puzzle};

#[test]
fn new_grid_is_all_empty() {
    let p = Puzzle::new(4);
    assert_eq!(p.size(), 4);
    for r in 0..4 {
        for c in 0..4 {
            assert_eq!(p.get(r, c), Cell::Empty);
        }
    }
    assert!(!p.is_solved());
}

#[test]
fn set_then_get_for_every_size_and_position() {
    for n in 4..=6usize {
        for r in 0..n {
            for c in 0..n {
                let mut p = Puzzle::new(n);
                p.set(r, c, Cell::Obstacle('Q'));
                assert_eq!(p.get(r, c), Cell::Obstacle('Q'));
                for i in 0..n {
                    for j in 0..n {
                        if (i, j) != (r, c) {
                            assert_eq!(p.get(i, j), Cell::Empty);
                        }
                    }
                }
            }
        }
    }
}

#[test]
fn set_replaces_without_checking_the_move() {
    let mut p = Puzzle::new(5);
    p.set(1, 2, Cell::Obstacle('B'));
    p.set(1, 2, Cell::Marked);
    assert_eq!(p.get(1, 2), Cell::Marked);
}

#[test]
fn solved_exactly_when_no_empty_cell_is_left() {
    let mut p = Puzzle::new(4);
    for r in 0..4 {
        for c in 0..4 {
            assert!(!p.is_solved());
            if (r + c) % 3 == 0 {
                p.set(r, c, Cell::Obstacle('K'));
            } else {
                p.set(r, c, Cell::Marked);
            }
        }
    }
    assert!(p.is_solved());
    p.set(3, 3, Cell::Empty);
    assert!(!p.is_solved());
}

#[test]
fn grid_of_only_obstacles_is_solved() {
    let mut p = Puzzle::new(1);
    p.set(0, 0, Cell::Obstacle('Z'));
    assert!(p.is_solved());
}

#[test]
fn rows_hand_back_every_cell() {
    let mut p = Puzzle::new(4);
    p.set(0, 3, Cell::Marked);
    p.set(2, 1, Cell::Obstacle('C'));
    let rows = p.rows();
    assert_eq!(rows.len(), 4);
    assert_eq!(rows[0], vec![Cell::Empty, Cell::Empty, Cell::Empty, Cell::Marked]);
    assert_eq!(rows[2], vec![Cell::Empty, Cell::Obstacle('C'), Cell::Empty, Cell::Empty]);
    let q = Puzzle::from_rows(rows).unwrap();
    assert_eq!(q.size(), 4);
    assert_eq!(q.rows(), p.rows());
}

#[test]
fn from_rows_rejects_shapes_that_are_not_square() {
    assert!(Puzzle::from_rows(vec![]).is_none());
    let ragged = vec![vec![Cell::Empty, Cell::Empty], vec![Cell::Empty]];
    assert!(Puzzle::from_rows(ragged).is_none());
    let wide = vec![vec![Cell::Empty, Cell::Empty, Cell::Empty]; 2];
    assert!(Puzzle::from_rows(wide).is_none());
    let square = vec![vec![Cell::Marked; 3]; 3];
    let p = Puzzle::from_rows(square).unwrap();
    assert_eq!(p.size(), 3);
    assert!(p.is_solved());
}

#[test]
fn from_rows_rejects_obstacles_without_a_letter() {
    let mut rows = vec![vec![Cell::Empty; 4]; 4];
    rows[1][2] = Cell::Obstacle('a');
    assert!(Puzzle::from_rows(rows.clone()).is_none());
    rows[1][2] = Cell::Obstacle('[');
    assert!(Puzzle::from_rows(rows.clone()).is_none());
    rows[1][2] = Cell::Obstacle('Z');
    assert!(Puzzle::from_rows(rows).is_some());
}

#[test]
fn letter_check_looks_at_every_obstacle() {
    let mut p = Puzzle::new(3);
    assert!(p.has_valid_letters());
    p.set(0, 0, Cell::Obstacle('A'));
    p.set(1, 1, Cell::Marked);
    assert!(p.has_valid_letters());
    p.set(2, 2, Cell::Obstacle('7'));
    assert!(!p.has_valid_letters());
}
