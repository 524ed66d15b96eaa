use rust_of_life::cell::{Cell, CellState};
use rust_of_life::universe::{InvalidConfiguration, Universe};
use rust_of_life::{alive_squares, parse_arguments};

fn grid(side: i32, alive: &[(u32, u32)]) -> Universe {
    let n = (side * side) as usize;
    let mut states = vec![CellState::Dead; n];
    for &(x, y) in alive {
        states[(x + y * side as u32) as usize] = CellState::Alive;
    }
    Universe::from_states(1000, side, states).unwrap()
}

fn alive_coords(u: &Universe) -> Vec<(u32, u32)> {
    let w = u.width();
    let mut r = Vec::new();
    for (i, c) in u.cells.iter().enumerate() {
        if c.state == CellState::Alive {
            r.push((i as u32 % w, i as u32 / w));
        }
    }
    r
}

#[test]
fn new_rejects_zero_side() {
    assert_eq!(Universe::new(1000, 0).err(), Some(InvalidConfiguration));
}

#[test]
fn new_rejects_negative_side() {
    assert_eq!(Universe::new(1000, -5).err(), Some(InvalidConfiguration));
}

#[test]
fn new_rejects_unrepresentable_geometry() {
    assert_eq!(Universe::new(i32::MAX, 66051).err(), Some(InvalidConfiguration));
}

#[test]
fn new_lays_out_square_grid() {
    let u = Universe::new(1000, 100).unwrap();
    assert_eq!(u.width(), 100);
    assert_eq!(u.height(), 100);
    assert_eq!(u.cells.len(), 10000);
    assert_eq!((u.cells[0].x, u.cells[0].y, u.cells[0].size), (0, 0, 10));
    assert_eq!((u.cells[101].x, u.cells[101].y), (10, 10));
    assert_eq!((u.cells[9999].x, u.cells[9999].y), (990, 990));
    for c in &u.cells {
        assert!(c.state == CellState::Alive || c.state == CellState::Dead);
    }
}

#[test]
fn cell_size_rounds_to_nearest() {
    assert_eq!(Universe::new(1000, 3).unwrap().cells[0].size, 333);
    assert_eq!(Universe::new(1000, 400).unwrap().cells[0].size, 3);
    assert_eq!(Universe::new(1000, 600).unwrap().cells[0].size, 2);
    assert_eq!(Universe::new(-10, 4).unwrap().cells[0].size, -3);
}

#[test]
fn from_states_places_states_in_row_major_order() {
    let u = grid(4, &[(2, 1)]);
    assert_eq!(u.cells[6].state, CellState::Alive);
    assert_eq!((u.cells[6].x, u.cells[6].y, u.cells[6].size), (500, 250, 250));
    assert_eq!(alive_coords(&u), vec![(2, 1)]);
}

#[test]
fn from_states_rejects_wrong_state_count() {
    let states = vec![CellState::Dead; 15];
    assert_eq!(Universe::from_states(1000, 4, states).err(), Some(InvalidConfiguration));
}

#[test]
fn from_states_rejects_non_positive_side() {
    assert_eq!(Universe::from_states(1000, 0, Vec::new()).err(), Some(InvalidConfiguration));
}

#[test]
fn get_index_is_row_major() {
    let u = grid(5, &[]);
    assert_eq!(u.get_index(0, 0), 0);
    assert_eq!(u.get_index(3, 0), 3);
    assert_eq!(u.get_index(3, 2), 13);
    assert_eq!(u.get_index(4, 4), 24);
}

#[test]
fn corner_neighbors_wrap_around() {
    for (x, y) in [(4, 4), (4, 0), (0, 4)] {
        let u = grid(5, &[(x, y)]);
        assert_eq!(u.live_neighbor_count(0, 0), 1);
    }
    let far = grid(5, &[(2, 2)]);
    assert_eq!(far.live_neighbor_count(0, 0), 0);
}

#[test]
fn neighbor_count_of_full_grid_is_eight() {
    let all: Vec<(u32, u32)> = (0..16).map(|i| (i % 4, i / 4)).collect();
    let u = grid(4, &all);
    assert_eq!(u.live_neighbor_count(0, 0), 8);
    assert_eq!(u.live_neighbor_count(2, 3), 8);
}

#[test]
fn lonely_cell_dies() {
    let mut u = grid(5, &[(2, 2)]);
    u.update();
    assert!(alive_coords(&u).is_empty());
}

#[test]
fn crowded_cell_dies() {
    let mut u = grid(5, &[(2, 2), (1, 1), (2, 1), (3, 1), (1, 2)]);
    u.update();
    assert_eq!(u.cells[u.get_index(2, 2)].state, CellState::Dead);
}

#[test]
fn three_neighbors_bring_dead_cell_to_life() {
    let mut u = grid(6, &[(1, 1), (2, 1), (3, 1)]);
    assert_eq!(u.live_neighbor_count(2, 2), 3);
    u.update();
    assert_eq!(u.cells[u.get_index(2, 2)].state, CellState::Alive);
}

#[test]
fn update_keeps_geometry() {
    let mut u = grid(4, &[(1, 1), (2, 1)]);
    let before: Vec<(i32, i32, i32)> = u.cells.iter().map(|c| (c.x, c.y, c.size)).collect();
    u.update();
    let after: Vec<(i32, i32, i32)> = u.cells.iter().map(|c| (c.x, c.y, c.size)).collect();
    assert_eq!(before, after);
    assert_eq!(u.cells.len(), 16);
}

#[test]
fn block_is_still_life() {
    for side in [4, 5, 6, 9] {
        let block = [(1, 1), (2, 1), (1, 2), (2, 2)];
        let mut u = grid(side, &block);
        u.update();
        assert_eq!(alive_coords(&u), block.to_vec());
    }
}

#[test]
fn block_across_the_edge_is_still_life() {
    let block = [(0, 0), (4, 0), (0, 4), (4, 4)];
    let mut u = grid(5, &block);
    u.update();
    assert_eq!(alive_coords(&u), vec![(0, 0), (4, 0), (0, 4), (4, 4)]);
}

#[test]
fn blinker_oscillates() {
    let horizontal = vec![(0, 1), (1, 1), (2, 1)];
    let vertical = vec![(1, 0), (1, 1), (1, 2)];
    let mut u = grid(5, &horizontal);
    u.update();
    assert_eq!(alive_coords(&u), vertical);
    u.update();
    assert_eq!(alive_coords(&u), horizontal);
}

#[test]
fn all_dead_grid_stays_dead() {
    for side in [1, 2, 3, 7] {
        let mut u = grid(side, &[]);
        for _ in 0..5 {
            u.update();
            assert!(alive_coords(&u).is_empty());
        }
    }
}

#[test]
fn equal_starts_give_equal_generations() {
    let start = [(1, 0), (2, 1), (0, 2), (1, 2), (2, 2)];
    let mut a = grid(8, &start);
    let mut b = grid(8, &start);
    for _ in 0..12 {
        a.update();
        b.update();
        assert_eq!(a.cells, b.cells);
    }
    assert_eq!(alive_coords(&a), vec![(4, 3), (5, 4), (3, 5), (4, 5), (5, 5)]);
}

#[test]
fn single_cell_grid_counts_itself_eight_times() {
    let mut u = grid(1, &[(0, 0)]);
    assert_eq!(u.live_neighbor_count(0, 0), 8);
    u.update();
    assert_eq!(u.cells[0].state, CellState::Dead);
}

#[test]
fn parse_arguments_reads_second_argument() {
    let args = vec![String::from("life"), String::from("42")];
    assert_eq!(parse_arguments(&args), 42);
    let args = vec![String::from("life"), String::from("-5")];
    assert_eq!(parse_arguments(&args), -5);
}

#[test]
fn parse_arguments_falls_back_to_default() {
    assert_eq!(parse_arguments(&[String::from("life")]), 100);
    let args = vec![String::from("life"), String::from("many")];
    assert_eq!(parse_arguments(&args), 100);
    assert_eq!(parse_arguments(&[]), 100);
}

#[test]
fn alive_squares_skip_dead_cells() {
    let cells = vec![
        Cell { state: CellState::Alive, x: 0, y: 0, size: 10 },
        Cell { state: CellState::Dead, x: 10, y: 0, size: 10 },
        Cell { state: CellState::Alive, x: 20, y: 10, size: 10 },
    ];
    assert_eq!(alive_squares(&cells), vec![(0, 0, 9), (20, 10, 9)]);
    assert!(alive_squares(&[]).is_empty());
}

#[test]
fn state_counts() {
    assert_eq!(CellState::Alive.as_count(), 1);
    assert_eq!(CellState::Dead.as_count(), 0);
}
