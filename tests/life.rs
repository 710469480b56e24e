use game_of_life::{Cell, Universe};

/// A `width` by `height` grid whose live cells are the given `(row, column)`
/// positions.
fn grid(width: u32, height: u32, live: &[(u32, u32)]) -> Universe {
    let mut cells = vec![Cell::Dead; (width * height) as usize];
    for &(row, column) in live {
        cells[(row * width + column) as usize] = Cell::Alive;
    }
    Universe::from_cells(width, height, cells)
}

fn snapshot(u: &Universe) -> Vec<Cell> {
    let mut out = Vec::new();
    for row in 0..u.height() {
        for column in 0..u.width() {
            out.push(u.cell_at(row, column));
        }
    }
    out
}

fn live_cells(u: &Universe) -> Vec<(u32, u32)> {
    let mut out = Vec::new();
    for row in 0..u.height() {
        for column in 0..u.width() {
            if u.cell_at(row, column) == Cell::Alive {
                out.push((row, column));
            }
        }
    }
    out
}

#[test]
fn new_seeds_multiples_of_two_and_seven() {
    let u = Universe::new(3, 3);
    // Indices 0, 2, 4, 6, 7 and 8 start alive.
    assert_eq!(live_cells(&u), vec![(0, 0), (0, 2), (1, 1), (2, 0), (2, 1), (2, 2)]);
    assert_eq!(
        u.changed_cells().clone(),
        vec![
            (0, 0, Cell::Alive),
            (2, 0, Cell::Alive),
            (1, 1, Cell::Alive),
            (0, 2, Cell::Alive),
            (1, 2, Cell::Alive),
            (2, 2, Cell::Alive),
        ]
    );
    assert_eq!(u.changed_cells, u.changed_cells().clone());
}

#[test]
fn new_seed_on_a_wide_row() {
    let u = Universe::new(15, 1);
    let expected: Vec<Cell> = (0..15u32)
        .map(|i| if i % 2 == 0 || i % 7 == 0 { Cell::Alive } else { Cell::Dead })
        .collect();
    assert_eq!(snapshot(&u), expected);
    assert_eq!(u.cell_at(0, 7), Cell::Alive);
    assert_eq!(u.cell_at(0, 9), Cell::Dead);
}

#[test]
fn size_is_kept_by_every_step() {
    let mut u = Universe::new(6, 4);
    assert_eq!((u.width(), u.height()), (6, 4));
    assert_eq!(snapshot(&u).len(), 24);
    for _ in 0..5 {
        u.update();
        assert_eq!((u.width(), u.height()), (6, 4));
        assert_eq!(snapshot(&u).len(), 24);
    }
}

#[test]
fn one_by_one_grid() {
    let mut u = Universe::new(1, 1);
    assert_eq!(u.cell_at(0, 0), Cell::Alive);
    // The single cell is each of its own eight neighbours.
    assert_eq!(u.live_neighbor_count(0, 0), 8);
    u.update();
    assert_eq!(u.cell_at(0, 0), Cell::Dead);
    assert_eq!(u.changed_cells().clone(), vec![(0, 0, Cell::Dead)]);
}

#[test]
fn corners_wrap_to_the_opposite_corner() {
    let (w, h) = (5, 4);
    assert_eq!(grid(w, h, &[(h - 1, w - 1)]).live_neighbor_count(0, 0), 1);
    assert_eq!(grid(w, h, &[(h - 1, 0)]).live_neighbor_count(0, w - 1), 1);
    assert_eq!(grid(w, h, &[(0, w - 1)]).live_neighbor_count(h - 1, 0), 1);
    assert_eq!(grid(w, h, &[(0, 0)]).live_neighbor_count(h - 1, w - 1), 1);
    // Not a neighbour: the far side of the grid away from the edge.
    assert_eq!(grid(w, h, &[(2, 2)]).live_neighbor_count(0, 0), 0);
}

#[test]
fn edges_wrap_to_the_opposite_edge() {
    let (w, h) = (5, 4);
    assert_eq!(grid(w, h, &[(h - 1, 2)]).live_neighbor_count(0, 2), 1);
    assert_eq!(grid(w, h, &[(0, 2)]).live_neighbor_count(h - 1, 2), 1);
    assert_eq!(grid(w, h, &[(1, w - 1)]).live_neighbor_count(1, 0), 1);
    assert_eq!(grid(w, h, &[(1, 0)]).live_neighbor_count(1, w - 1), 1);
    let full = grid(w, h, &[(3, 4), (3, 0), (3, 1), (0, 4), (0, 1), (1, 4), (1, 0), (1, 1)]);
    assert_eq!(full.live_neighbor_count(0, 0), 8);
}

#[test]
fn block_is_a_still_life() {
    let block = [(1, 1), (1, 2), (2, 1), (2, 2)];
    let mut u = grid(4, 4, &block);
    u.update();
    assert_eq!(live_cells(&u), block.to_vec());
    assert!(u.changed_cells().is_empty());
}

#[test]
fn blinker_oscillates_with_period_two() {
    let horizontal = vec![(2, 1), (2, 2), (2, 3)];
    let vertical = vec![(1, 2), (2, 2), (3, 2)];
    let mut u = grid(5, 5, &horizontal);
    u.update();
    assert_eq!(live_cells(&u), vertical);
    // The centre survives; two cells die and two are born.
    assert_eq!(
        u.changed_cells().clone(),
        vec![(2, 1, Cell::Alive), (1, 2, Cell::Dead), (3, 2, Cell::Dead), (2, 3, Cell::Alive)]
    );
    u.update();
    assert_eq!(live_cells(&u), horizontal);
    assert_eq!(
        u.changed_cells().clone(),
        vec![(2, 1, Cell::Dead), (1, 2, Cell::Alive), (3, 2, Cell::Alive), (2, 3, Cell::Dead)]
    );
}

const AROUND: [(u32, u32); 8] = [(1, 1), (1, 2), (1, 3), (2, 1), (2, 3), (3, 1), (3, 2), (3, 3)];

/// The centre of a 5 by 5 grid with `n` live neighbours, and itself alive or
/// dead.
fn centre_with(n: usize, alive: bool) -> Universe {
    let mut live: Vec<(u32, u32)> = AROUND[..n].to_vec();
    if alive {
        live.push((2, 2));
    }
    let u = grid(5, 5, &live);
    assert_eq!(u.live_neighbor_count(2, 2), n as u8);
    u
}

#[test]
fn dead_cell_with_three_neighbours_is_born() {
    let mut u = centre_with(3, false);
    u.update();
    assert_eq!(u.cell_at(2, 2), Cell::Alive);
    assert!(u.changed_cells().contains(&(2, 2, Cell::Alive)));
}

#[test]
fn dead_cell_with_two_or_four_neighbours_stays_dead() {
    for n in [2, 4] {
        let mut u = centre_with(n, false);
        u.update();
        assert_eq!(u.cell_at(2, 2), Cell::Dead);
        assert!(u.changed_cells().iter().all(|&(c, r, _)| (c, r) != (2, 2)));
    }
}

#[test]
fn live_cell_with_one_neighbour_dies() {
    let mut u = centre_with(1, true);
    u.update();
    assert_eq!(u.cell_at(2, 2), Cell::Dead);
    assert!(u.changed_cells().contains(&(2, 2, Cell::Dead)));
}

#[test]
fn live_cell_with_four_neighbours_dies() {
    let mut u = centre_with(4, true);
    u.update();
    assert_eq!(u.cell_at(2, 2), Cell::Dead);
    assert!(u.changed_cells().contains(&(2, 2, Cell::Dead)));
}

#[test]
fn live_cell_with_two_or_three_neighbours_survives() {
    for n in [2, 3] {
        let mut u = centre_with(n, true);
        u.update();
        assert_eq!(u.cell_at(2, 2), Cell::Alive);
        assert!(u.changed_cells().iter().all(|&(c, r, _)| (c, r) != (2, 2)));
    }
}

/// The changes between two snapshots of a `width`-wide grid, as
/// `(column, row, new state)` in row-major order.
fn diff(width: u32, before: &[Cell], after: &[Cell]) -> Vec<(u32, u32, Cell)> {
    let mut out = Vec::new();
    for i in 0..before.len() {
        if before[i] != after[i] {
            out.push((i as u32 % width, i as u32 / width, after[i]));
        }
    }
    out
}

#[test]
fn change_record_lists_exactly_the_changed_cells() {
    let glider = [(0, 1), (1, 2), (2, 0), (2, 1), (2, 2)];
    let mut u = grid(8, 8, &glider);
    for _ in 0..8 {
        let before = snapshot(&u);
        u.update();
        let expected = diff(8, &before, &snapshot(&u));
        assert!(!expected.is_empty());
        assert_eq!(u.changed_cells().clone(), expected);
    }
    let mut seeded = Universe::new(7, 5);
    for _ in 0..4 {
        let before = snapshot(&seeded);
        seeded.update();
        assert_eq!(seeded.changed_cells().clone(), diff(7, &before, &snapshot(&seeded)));
    }
}

#[test]
fn change_record_is_replaced_not_accumulated() {
    let mut u = grid(5, 5, &[(2, 1), (2, 2), (2, 3)]);
    u.update();
    u.update();
    assert_eq!(u.changed_cells().len(), 4);
}

#[test]
fn clear_is_idempotent() {
    let mut u = Universe::new(4, 3);
    assert!(!u.changed_cells().is_empty());
    let cells = snapshot(&u);
    u.clear_changed_cells();
    assert!(u.changed_cells().is_empty());
    u.clear_changed_cells();
    assert!(u.changed_cells().is_empty());
    assert_eq!(snapshot(&u), cells);

    let mut fresh = grid(3, 3, &[]);
    assert!(fresh.changed_cells().is_empty());
    fresh.clear_changed_cells();
    assert!(fresh.changed_cells().is_empty());
}

#[test]
fn equal_grids_evolve_identically() {
    let mut a = Universe::new(9, 8);
    let mut b = Universe::new(9, 8);
    assert_eq!(snapshot(&a), snapshot(&b));
    for _ in 0..6 {
        a.update();
        b.update();
        assert_eq!(snapshot(&a), snapshot(&b));
        assert_eq!(a.changed_cells().clone(), b.changed_cells().clone());
    }
}

#[test]
fn from_cells_records_live_cells() {
    let u = grid(3, 2, &[(0, 1), (1, 0), (1, 2)]);
    assert_eq!(
        u.changed_cells().clone(),
        vec![(1, 0, Cell::Alive), (0, 1, Cell::Alive), (2, 1, Cell::Alive)]
    );
}
