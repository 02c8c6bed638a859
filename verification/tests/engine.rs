use game_of_life_lib::board::Board;
use game_of_life_lib::cell::{generate_live_cells, Cell};
use game_of_life_lib::game_of_life::{birth_universe, cells_transform, get_neighbors};

fn alive_lookup(cells: &[Cell], row: i32, col: i32) -> bool {
    cells
        .iter()
        .any(|c| Cell::to_tuple(c) == (row, col) && Cell::is_alive(c))
}

fn seed(rows: i32, cols: i32, live: &[(i32, i32)]) -> Board {
    let live_cells: Vec<Cell> = live
        .iter()
        .map(|&(r, c)| Cell::birth(&Cell::new(r, c)))
        .collect();
    birth_universe(rows, cols, live_cells)
}

#[test]
fn board_new_starts_all_dead() {
    let board = Board::new(3, 4);
    let cells = board.get_cells();
    assert_eq!(cells.len(), 12);
    assert!(cells.iter().all(|c| !Cell::is_alive(c)));
}

#[test]
fn board_covers_every_coordinate_once() {
    let board = Board::new(5, 7);
    let cells = board.get_cells();
    assert_eq!(cells.len(), 35);
    for r in 0..5 {
        for c in 0..7 {
            assert_eq!(
                cells
                    .iter()
                    .filter(|cell| Cell::to_tuple(cell) == (r, c))
                    .count(),
                1
            );
        }
    }
}

#[test]
fn birth_universe_seeds_exactly_the_listed_coordinates() {
    let board = seed(4, 4, &[(0, 0), (2, 3)]);
    let cells = board.get_cells();
    assert_eq!(cells.len(), 16);
    for cell in &cells {
        let (r, c) = Cell::to_tuple(cell);
        let expected = (r, c) == (0, 0) || (r, c) == (2, 3);
        assert_eq!(Cell::is_alive(cell), expected);
    }
}

#[test]
fn get_neighbors_returns_the_eight_surrounding_coordinates() {
    let neighbors = get_neighbors((5, 9));
    assert_eq!(
        neighbors,
        vec![
            (6, 9),
            (4, 9),
            (5, 8),
            (5, 10),
            (6, 10),
            (6, 8),
            (4, 10),
            (4, 8)
        ]
    );
}

#[test]
fn still_life_block_is_unchanged_by_a_transition() {
    // a 2x2 block of living cells surrounded by dead cells maps to itself
    let board = seed(4, 4, &[(1, 1), (1, 2), (2, 1), (2, 2)]);
    let before = board.get_cells();
    let after = cells_transform(&before, 4, 4);
    assert_eq!(after.len(), before.len());
    for cell in &after {
        let (r, c) = Cell::to_tuple(cell);
        assert_eq!(Cell::is_alive(cell), alive_lookup(&before, r, c));
    }
}

#[test]
fn blinker_oscillates() {
    let board = seed(3, 3, &[(0, 1), (1, 1), (2, 1)]);
    let first = cells_transform(&board.get_cells(), 3, 3);
    for cell in &first {
        let (r, c) = Cell::to_tuple(cell);
        let expected = r == 1 && (c == 0 || c == 1 || c == 2);
        assert_eq!(Cell::is_alive(cell), expected);
    }
    let second = cells_transform(&first, 3, 3);
    for cell in &second {
        let (r, c) = Cell::to_tuple(cell);
        let expected = c == 1;
        assert_eq!(Cell::is_alive(cell), expected, "at ({}, {})", r, c);
    }
}

#[test]
fn dead_cell_with_three_living_neighbors_is_born() {
    // (0, 0) is dead and has exactly 3 living neighbors
    let board = seed(2, 2, &[(0, 1), (1, 0), (1, 1)]);
    let after = cells_transform(&board.get_cells(), 2, 2);
    assert!(alive_lookup(&after, 0, 0));
}

#[test]
fn dead_cell_with_two_living_neighbors_stays_dead() {
    let board = seed(2, 2, &[(0, 1), (1, 0)]);
    let after = cells_transform(&board.get_cells(), 2, 2);
    assert!(!alive_lookup(&after, 0, 0));
}

#[test]
fn living_cell_without_two_or_three_neighbors_dies() {
    // two cells side by side: each has one living neighbor, so both die
    let board = seed(3, 3, &[(1, 0), (1, 1)]);
    let after = cells_transform(&board.get_cells(), 3, 3);
    assert!(after.iter().all(|c| !Cell::is_alive(c)));
}

#[test]
fn corner_cell_counts_at_most_three_neighbors_without_wrapping() {
    // every cell except (0, 0) is alive on a 3x3 grid; if edges wrapped,
    // (0, 0) would see 8 living neighbors and stay dead, but it has only the
    // 3 real ones and is born
    let live: Vec<(i32, i32)> = (0..3)
        .flat_map(|r| (0..3).map(move |c| (r, c)))
        .filter(|&(r, c)| (r, c) != (0, 0))
        .collect();
    let board = seed(3, 3, &live);
    let after = cells_transform(&board.get_cells(), 3, 3);
    assert!(alive_lookup(&after, 0, 0));
}

#[test]
fn transition_preserves_cell_count() {
    let board = seed(6, 5, &[(0, 0), (1, 1), (2, 2), (3, 3), (4, 4), (5, 2)]);
    let mut cells = board.get_cells();
    for _ in 0..4 {
        cells = cells_transform(&cells, 6, 5);
        assert_eq!(cells.len(), 30);
    }
}

#[test]
fn run_cells_transform_applies_the_given_function() {
    let board = Board::new(2, 3);
    let flipped = board.run_cells_transform(|cells: &Vec<Cell>| {
        cells.iter().map(Cell::birth).collect()
    });
    let cells = flipped.get_cells();
    assert_eq!(cells.len(), 6);
    assert!(cells.iter().all(Cell::is_alive));
}

#[test]
fn take_cells_hands_the_cell_set_over() {
    let board = seed(2, 2, &[(1, 1)]);
    let expected = board.get_cells();
    let cells = board.take_cells();
    assert_eq!(cells.len(), expected.len());
    for (a, b) in cells.iter().zip(expected.iter()) {
        assert_eq!(Cell::to_tuple(a), Cell::to_tuple(b));
        assert_eq!(Cell::is_alive(a), Cell::is_alive(b));
    }
}

#[test]
fn cell_identity_is_coordinate_only() {
    let dead = Cell::new(3, 4);
    let live = Cell::birth(&dead);
    assert_eq!(dead, live);
    assert_ne!(Cell::new(3, 5), dead);
    assert!(!Cell::is_alive(&Cell::kill(&live)));
    assert_eq!(Cell::to_tuple(&live), (3, 4));
}

#[test]
fn generate_live_cells_covers_the_hundred_grid() {
    let cells = generate_live_cells();
    assert_eq!(cells.len(), 10000);
    let mut seen = vec![false; 10000];
    for cell in &cells {
        let (r, c) = Cell::to_tuple(cell);
        assert!((0..100).contains(&r) && (0..100).contains(&c));
        assert!(Cell::is_alive(cell));
        let idx = (r * 100 + c) as usize;
        assert!(!seen[idx], "duplicate coordinate ({}, {})", r, c);
        seen[idx] = true;
    }
}
