use game_of_life::cell::{Cell, CellKind};
use game_of_life::universe::{Universe, UniverseError};

fn alive_cell() -> Cell {
    Cell { kind: CellKind::ALIVE }
}

fn dead_cell() -> Cell {
    Cell { kind: CellKind::DEAD }
}

fn base_universe() -> Universe {
    Universe {
        size: 3,
        cells: vec![
            vec![dead_cell(), alive_cell(), dead_cell()],
            vec![dead_cell(), dead_cell(), alive_cell()],
            vec![alive_cell(), alive_cell(), alive_cell()],
        ],
    }
}

fn uniform(size: usize, kind: CellKind) -> Universe {
    Universe { size, cells: vec![vec![Cell { kind }; size]; size] }
}

#[test]
fn test_tick() {
    let mut universe = base_universe();

    let expected = Universe {
        size: 3,
        cells: vec![
            vec![dead_cell(), dead_cell(), dead_cell()],
            vec![alive_cell(), dead_cell(), alive_cell()],
            vec![dead_cell(), alive_cell(), alive_cell()],
        ],
    };

    universe.tick();
    assert_eq!(universe, expected);
}

#[test]
fn test_alive_cells() {
    let universe = base_universe();
    assert_eq!(universe.alive_cells(), 5);
}

#[test]
fn test_dead_cells() {
    let universe = base_universe();
    assert_eq!(universe.dead_cells(), 4);
}

#[test]
fn universe_test_fmt() {
    let universe = base_universe();
    let expected = "\
        ◻ ◼ ◻ \n\
        ◻ ◻ ◼ \n\
        ◼ ◼ ◼ \n\
    ";

    assert_eq!(universe.render(), expected);
}

#[test]
fn glider_counts_after_tick() {
    let mut universe = base_universe();
    assert_eq!(universe.alive_cells(), 5);
    assert_eq!(universe.dead_cells(), 4);
    universe.tick();
    assert_eq!(universe.alive_cells(), 4);
    assert_eq!(universe.dead_cells(), 5);
    assert_eq!(universe.alive_cells() + universe.dead_cells(), 9);
    assert_eq!(universe.render(), "◻ ◻ ◻ \n◼ ◻ ◼ \n◻ ◼ ◼ \n");
}

#[test]
fn tick_is_deterministic() {
    let mut a = base_universe();
    let mut b = base_universe();
    for _ in 0..5 {
        a.tick();
        b.tick();
        assert_eq!(a, b);
    }
}

#[test]
fn neighbourhood_does_not_wrap() {
    // All alive: corners see 3 live neighbours and survive, edge cells see 5
    // and interior cells 8, and both die.
    let mut universe = uniform(4, CellKind::ALIVE);
    universe.tick();
    for i in 0..4 {
        for j in 0..4 {
            let corner = (i == 0 || i == 3) && (j == 0 || j == 3);
            let expected = if corner { CellKind::ALIVE } else { CellKind::DEAD };
            assert_eq!(universe.cells[i][j].kind, expected, "cell ({}, {})", i, j);
        }
    }
}

#[test]
fn blinker_oscillates() {
    let mut universe = uniform(5, CellKind::DEAD);
    for j in 1..4 {
        universe.cells[2][j] = alive_cell();
    }
    let start = universe.clone();
    universe.tick();
    for i in 0..5 {
        for j in 0..5 {
            let expected = if j == 2 && (1..4).contains(&i) { CellKind::ALIVE } else { CellKind::DEAD };
            assert_eq!(universe.cells[i][j].kind, expected);
        }
    }
    universe.tick();
    assert_eq!(universe, start);
}

#[test]
fn single_cell_universe_dies() {
    let mut universe = uniform(1, CellKind::ALIVE);
    universe.tick();
    assert_eq!(universe.cells[0][0].kind, CellKind::DEAD);
    assert_eq!(universe.alive_cells(), 0);
    assert_eq!(universe.dead_cells(), 1);
}

#[test]
fn counts_cover_grid_across_ticks() {
    let mut universe = Universe::new(12).unwrap();
    for _ in 0..10 {
        assert_eq!(universe.alive_cells() + universe.dead_cells(), 144);
        universe.tick();
    }
    assert_eq!(universe.alive_cells() + universe.dead_cells(), 144);
}

#[test]
fn render_has_size_lines_of_twice_size() {
    let universe = Universe::new(7).unwrap();
    let text = universe.render();
    assert!(text.ends_with('\n'));
    let lines: Vec<&str> = text.split_terminator('\n').collect();
    assert_eq!(lines.len(), 7);
    for line in lines {
        assert_eq!(line.chars().count(), 14);
    }
    assert_eq!(text.chars().count(), 7 * 15);
}

#[test]
fn new_rejects_zero_size() {
    assert_eq!(Universe::new(0), Err(UniverseError::InvalidSize));
}

#[test]
fn new_builds_square_grid() {
    let universe = Universe::new(5).unwrap();
    assert_eq!(universe.size, 5);
    assert_eq!(universe.cells.len(), 5);
    assert!(universe.cells.iter().all(|row| row.len() == 5));
}

#[test]
fn counts_of_uniform_grids() {
    assert_eq!(uniform(6, CellKind::ALIVE).alive_cells(), 36);
    assert_eq!(uniform(6, CellKind::ALIVE).dead_cells(), 0);
    assert_eq!(uniform(6, CellKind::DEAD).alive_cells(), 0);
    assert_eq!(uniform(6, CellKind::DEAD).dead_cells(), 36);
}
