use grid_puzzle::generator::{generate_puzzle, letter_from_index, place_obstacle, side_for_difficulty};
use grid_puzzle::puzzle::{Cell, Puzzle};

fn obstacles(p: &Puzzle) -> usize {
    let mut n = 0;
    for r in 0..p.size() {
        for c in 0..p.size() {
            if let Cell::Obstacle(_) = p.get(r, c) {
                n += 1;
            }
        }
    }
    n
}

#[test]
fn side_follows_the_tier() {
    assert_eq!(side_for_difficulty(1), 4);
    assert_eq!(side_for_difficulty(2), 5);
    assert_eq!(side_for_difficulty(3), 6);
    assert_eq!(side_for_difficulty(0), 6);
    assert_eq!(side_for_difficulty(u32::MAX), 6);
}

#[test]
fn letters_run_from_a_to_z() {
    assert_eq!(letter_from_index(0), 'A');
    assert_eq!(letter_from_index(7), 'H');
    assert_eq!(letter_from_index(25), 'Z');
}

#[test]
fn placement_fills_a_free_cell() {
    let mut p = Puzzle::new(4);
    place_obstacle(&mut p, 2, 3, 'M');
    assert_eq!(p.get(2, 3), Cell::Obstacle('M'));
    assert_eq!(obstacles(&p), 1);
}

#[test]
fn placement_never_overwrites() {
    let mut p = Puzzle::new(4);
    place_obstacle(&mut p, 1, 1, 'A');
    place_obstacle(&mut p, 1, 1, 'B');
    assert_eq!(p.get(1, 1), Cell::Obstacle('A'));
    p.set(0, 0, Cell::Marked);
    place_obstacle(&mut p, 0, 0, 'C');
    assert_eq!(p.get(0, 0), Cell::Marked);
    assert_eq!(obstacles(&p), 1);
}

#[test]
fn generated_grids_have_the_tier_size_and_bounded_obstacles() {
    for (tier, side) in [(1u32, 4usize), (2, 5), (3, 6), (9, 6)] {
        for _ in 0..50 {
            let p = generate_puzzle(tier);
            assert_eq!(p.size(), side);
            assert!(obstacles(&p) <= side * side / 3);
            for r in 0..side {
                for c in 0..side {
                    match p.get(r, c) {
                        Cell::Empty => {}
                        Cell::Obstacle(l) => assert!(l.is_ascii_uppercase()),
                        Cell::Marked => panic!("a fresh grid holds no mark"),
                    }
                }
            }
        }
    }
}

#[test]
fn fresh_grid_with_a_free_cell_is_unsolved() {
    for tier in 1..=3u32 {
        let p = generate_puzzle(tier);
        let side = p.size();
        if obstacles(&p) < side * side {
            assert!(!p.is_solved());
        }
    }
}

#[test]
fn generated_grids_always_hold_an_obstacle() {
    for tier in [1u32, 2, 3, 0] {
        for _ in 0..50 {
            assert!(obstacles(&generate_puzzle(tier)) >= 1);
        }
    }
}
