use bc_lifehash::cell_grid::CellGrid;
use bc_lifehash::change_grid::ChangeGrid;
use bc_lifehash::generation_grid::GenerationGrid;
use bc_lifehash::grid::Grid;

fn alive(grid: &CellGrid) -> Vec<(usize, usize)> {
    let mut v = Vec::new();
    for y in 0..grid.grid.height {
        for x in 0..grid.grid.width {
            if grid.grid.get_value(x, y) {
                v.push((x, y));
            }
        }
    }
    v
}

fn grid_with(width: usize, height: usize, cells: &[(usize, usize)]) -> CellGrid {
    let mut g = CellGrid::new(width, height);
    for &(x, y) in cells {
        g.grid.set_value(true, x, y);
    }
    g
}

fn step(grid: &CellGrid) -> CellGrid {
    let w = grid.grid.width;
    let h = grid.grid.height;
    let mut changes = ChangeGrid::new(w, h);
    changes.grid.set_all(true);
    let mut next = CellGrid::new(w, h);
    let mut next_changes = ChangeGrid::new(w, h);
    grid.next_generation(&changes, &mut next, &mut next_changes);
    next
}

#[test]
fn grid_starts_with_defaults_and_stores_values() {
    let mut g: Grid<u32> = Grid::new(3, 2);
    assert_eq!(g.storage, vec![0; 6]);
    g.set_value(7, 2, 1);
    assert_eq!(g.get_value(2, 1), 7);
    assert_eq!(g.storage[5], 7);
    assert_eq!(g.get_value(1, 1), 0);
    g.set_all(4);
    assert_eq!(g.storage, vec![4; 6]);
}

#[test]
fn grid_for_all_visits_row_by_row() {
    let g: Grid<bool> = Grid::new(2, 3);
    assert_eq!(g.for_all(), vec![(0, 0), (1, 0), (0, 1), (1, 1), (0, 2), (1, 2)]);
}

#[test]
fn grid_neighborhood_wraps_around() {
    let g: Grid<bool> = Grid::new(4, 3);
    let n = g.for_neighborhood(0, 2);
    assert_eq!(n.len(), 9);
    assert_eq!(n[0], (-1, -1, 3, 1));
    assert_eq!(n[4], (0, 0, 0, 2));
    assert_eq!(n[8], (1, 1, 1, 0));
    assert_eq!(n[2], (1, -1, 1, 1));
    assert_eq!(n[6], (-1, 1, 3, 0));
}

#[test]
fn change_grid_marks_the_neighbourhood_on_the_torus() {
    let mut c = ChangeGrid::new(4, 4);
    c.set_changed(0, 0);
    let mut marked = Vec::new();
    for y in 0..4 {
        for x in 0..4 {
            if c.grid.get_value(x, y) {
                marked.push((x, y));
            }
        }
    }
    assert_eq!(marked, vec![(0, 0), (1, 0), (3, 0), (0, 1), (1, 1), (3, 1), (0, 3), (1, 3), (3, 3)]);
}

#[test]
fn blinker_oscillates() {
    let g = grid_with(5, 5, &[(2, 1), (2, 2), (2, 3)]);
    let g1 = step(&g);
    assert_eq!(alive(&g1), vec![(1, 2), (2, 2), (3, 2)]);
    let g2 = step(&g1);
    assert_eq!(alive(&g2), vec![(2, 1), (2, 2), (2, 3)]);
}

#[test]
fn block_is_still() {
    let g = grid_with(6, 6, &[(1, 1), (2, 1), (1, 2), (2, 2)]);
    assert_eq!(alive(&step(&g)), alive(&g));
}

#[test]
fn lone_cell_dies_and_three_give_birth() {
    let g = grid_with(6, 6, &[(0, 0)]);
    assert!(alive(&step(&g)).is_empty());
    let g = grid_with(6, 6, &[(1, 1), (3, 1), (2, 3)]);
    assert_eq!(alive(&step(&g)), vec![(2, 2)]);
}

#[test]
fn neighbours_wrap_across_edges() {
    // A blinker split across the right edge of the torus.
    let g = grid_with(5, 5, &[(4, 2), (0, 2), (1, 2)]);
    assert_eq!(alive(&step(&g)), vec![(0, 1), (0, 2), (0, 3)]);
}

#[test]
fn tracked_generations_match_full_generations() {
    // A glider run with change tracking gives the same generations as recomputing
    // every cell.
    let w = 8;
    let h = 8;
    let mut cells = grid_with(w, h, &[(1, 0), (2, 1), (0, 2), (1, 2), (2, 2)]);
    let mut changes = ChangeGrid::new(w, h);
    changes.grid.set_all(true);
    let mut full = grid_with(w, h, &[(1, 0), (2, 1), (0, 2), (1, 2), (2, 2)]);
    for _ in 0..40 {
        let mut next = CellGrid::new(w, h);
        let mut next_changes = ChangeGrid::new(w, h);
        cells.next_generation(&changes, &mut next, &mut next_changes);
        cells = next;
        changes = next_changes;
        full = step(&full);
        assert_eq!(alive(&cells), alive(&full));
    }
    // A glider moves one cell diagonally every four generations, so after
    // 40 generations on an 8 by 8 torus it stands ten cells on, two cells
    // modulo eight.
    let moved: Vec<(usize, usize)> = {
        let mut v: Vec<(usize, usize)> =
            [(1, 0), (2, 1), (0, 2), (1, 2), (2, 2)].iter().map(|&(x, y)| ((x + 2) % 8, (y + 2) % 8)).collect();
        v.sort_by_key(|&(x, y)| (y, x));
        v
    };
    assert_eq!(alive(&full), moved);
}

#[test]
fn next_generation_marks_only_around_flips() {
    let g = grid_with(6, 6, &[(1, 1), (2, 1), (1, 2), (2, 2)]);
    let mut changes = ChangeGrid::new(6, 6);
    changes.grid.set_all(true);
    let mut next = CellGrid::new(6, 6);
    let mut next_changes = ChangeGrid::new(6, 6);
    g.next_generation(&changes, &mut next, &mut next_changes);
    assert!(next_changes.grid.storage.iter().all(|m| !m));
}

#[test]
fn data_packs_cells_row_by_row() {
    let g = grid_with(4, 4, &[(0, 0), (3, 0), (1, 1), (2, 3)]);
    assert_eq!(g.data(), vec![0b1001_0100, 0b0000_0010]);
}

#[test]
fn set_data_then_data_round_trip() {
    let bytes = vec![0x12, 0x34, 0xfe, 0x01, 0x80, 0x7f, 0x00, 0xaa];
    let mut g = CellGrid::new(8, 8);
    g.set_data(&bytes);
    assert_eq!(g.data(), bytes);
    assert!(g.grid.get_value(3, 0));
    assert!(!g.grid.get_value(0, 0));
    assert!(g.grid.get_value(7, 3));
}

#[test]
fn generation_grid_keeps_latest_generation() {
    let mut stamps = GenerationGrid::new(2, 2);
    stamps.overlay(&grid_with(2, 2, &[(0, 0), (1, 1)]), 1);
    stamps.overlay(&grid_with(2, 2, &[(1, 1)]), 2);
    stamps.overlay(&grid_with(2, 2, &[(1, 0)]), 3);
    assert_eq!(stamps.grid.storage, vec![1, 3, 0, 2]);
}
