use life::pos::Pos;
use life::world::World;

fn board(dimensions: (usize, usize), live: &[(isize, isize)]) -> World {
    let mut w = World::dead(dimensions);
    for &(x, y) in live {
        w.set_alive(&Pos::new(x, y), true);
    }
    w
}

fn live_cells(w: &World, dimensions: (usize, usize)) -> Vec<(isize, isize)> {
    let mut cells = Vec::new();
    for x in -1..=(dimensions.0 as isize + 1) {
        for y in -1..=(dimensions.1 as isize + 1) {
            if w.is_alive(&Pos::new(x, y)) {
                cells.push((x, y));
            }
        }
    }
    cells
}

#[test]
fn dead_board_has_no_live_cell() {
    let w = World::dead((5, 3));
    for x in -3..10 {
        for y in -3..10 {
            assert!(!w.is_alive(&Pos::new(x, y)));
        }
    }
    assert!(!w.is_alive(&Pos::new(isize::MIN, isize::MAX)));
}

#[test]
fn set_alive_changes_one_cell() {
    let mut w = World::dead((3, 3));
    w.set_alive(&Pos::new(1, 2), true);
    assert_eq!(live_cells(&w, (3, 3)), vec![(1, 2)]);
    w.set_alive(&Pos::new(1, 2), false);
    assert!(live_cells(&w, (3, 3)).is_empty());
}

#[test]
fn lonely_cell_dies() {
    let mut w = board((2, 2), &[(1, 1)]);
    assert_eq!(w.num_living_neighbours(&Pos::new(1, 1)), 0);
    assert!(!w.next_cell_state(&Pos::new(1, 1)));
    w.tick();
    assert!(!w.is_alive(&Pos::new(1, 1)));
}

#[test]
fn dead_cell_with_three_neighbours_is_born() {
    let mut w = board((2, 2), &[(0, 0), (0, 2), (2, 1)]);
    assert_eq!(w.num_living_neighbours(&Pos::new(1, 1)), 3);
    assert!(w.next_cell_state(&Pos::new(1, 1)));
    w.tick();
    assert!(w.is_alive(&Pos::new(1, 1)));
}

#[test]
fn live_cell_with_two_or_three_neighbours_survives() {
    let mut two = board((2, 2), &[(1, 1), (0, 0), (2, 2)]);
    assert_eq!(two.num_living_neighbours(&Pos::new(1, 1)), 2);
    two.tick();
    assert!(two.is_alive(&Pos::new(1, 1)));

    let mut three = board((2, 2), &[(1, 1), (0, 0), (2, 2), (0, 2)]);
    assert_eq!(three.num_living_neighbours(&Pos::new(1, 1)), 3);
    three.tick();
    assert!(three.is_alive(&Pos::new(1, 1)));
}

#[test]
fn crowded_cell_dies() {
    let mut w = board((2, 2), &[(1, 1), (0, 0), (0, 2), (2, 0), (2, 2)]);
    assert_eq!(w.num_living_neighbours(&Pos::new(1, 1)), 4);
    assert!(!w.next_cell_state(&Pos::new(1, 1)));
    w.tick();
    assert!(!w.is_alive(&Pos::new(1, 1)));
}

#[test]
fn full_neighbourhood_counts_eight() {
    let all: Vec<(isize, isize)> =
        (0..3).flat_map(|x| (0..3).map(move |y| (x, y))).collect();
    let w = board((2, 2), &all);
    assert_eq!(w.num_living_neighbours(&Pos::new(1, 1)), 8);
    assert_eq!(w.num_living_neighbours(&Pos::new(0, 0)), 3);
    assert_eq!(w.num_living_neighbours(&Pos::new(0, 1)), 5);
}

#[test]
fn block_is_a_still_life() {
    let cells = vec![(2, 3), (2, 4), (3, 3), (3, 4)];
    let mut w = board((6, 7), &cells);
    w.tick();
    assert_eq!(live_cells(&w, (6, 7)), cells);
    w.tick();
    assert_eq!(live_cells(&w, (6, 7)), cells);
}

#[test]
fn blinker_oscillates() {
    let row = vec![(2, 1), (2, 2), (2, 3)];
    let column = vec![(1, 2), (2, 2), (3, 2)];
    let mut w = board((4, 4), &row);
    w.tick();
    assert_eq!(live_cells(&w, (4, 4)), column);
    w.tick();
    assert_eq!(live_cells(&w, (4, 4)), row);
}

#[test]
fn corner_counts_only_in_bounds_neighbours() {
    let mut w = board((3, 3), &[(0, 0), (0, 1), (1, 0)]);
    assert_eq!(w.num_living_neighbours(&Pos::new(0, 0)), 2);
    assert!(w.next_cell_state(&Pos::new(0, 0)));
    w.tick();
    assert!(w.is_alive(&Pos::new(0, 0)));
    assert!(w.is_alive(&Pos::new(1, 1)));

    let mut lonely = board((3, 3), &[(0, 0), (1, 1)]);
    assert_eq!(lonely.num_living_neighbours(&Pos::new(0, 0)), 1);
    lonely.tick();
    assert!(!lonely.is_alive(&Pos::new(0, 0)));
}

#[test]
fn runs_from_the_same_board_agree() {
    let dimensions = (9, 11);
    let n = 10 * 12;
    let draws: Vec<u8> = (0..n).map(|i| ((i * 7 + i / 5) % 6) as u8).collect();
    let mut a = World::from_draws(dimensions, &draws);
    let mut b = World::from_draws(dimensions, &draws);
    for _ in 0..6 {
        a.tick();
        b.tick();
        assert_eq!(a.render(), b.render());
    }
}

#[test]
fn from_draws_makes_fives_alive() {
    let draws: Vec<u8> = vec![5, 0, 1, 2, 3, 5, 4, 5, 0];
    let w = World::from_draws((2, 2), &draws);
    assert_eq!(live_cells(&w, (2, 2)), vec![(0, 0), (1, 2), (2, 1)]);
}

#[test]
fn render_shows_rows_after_line_breaks() {
    let w = board((1, 2), &[(0, 1), (1, 0), (1, 2)]);
    assert_eq!(w.render(), "\n \u{25A0} \n\u{25A0} \u{25A0}");
}

#[test]
fn render_of_dead_board_is_blank() {
    let w = World::dead((0, 3));
    assert_eq!(w.render(), "\n    ");
}

#[test]
fn random_board_is_about_one_sixth_alive() {
    let dimensions = (299, 299);
    let w = World::new(dimensions);
    let mut alive = 0usize;
    for x in 0..=299 {
        for y in 0..=299 {
            if w.is_alive(&Pos::new(x, y)) {
                alive += 1;
            }
        }
    }
    let fraction = alive as f64 / 90000.0;
    assert!((fraction - 1.0 / 6.0).abs() < 0.02, "fraction {}", fraction);
}
