use game_of_life::simulation::{step_states, Cell, CellState, Simulator};

fn cell_at(state: CellState, row: usize, col: usize) -> Cell {
    Cell { state, row, col }
}

fn cells_from(states: &[&[u8]]) -> Vec<Vec<Cell>> {
    let mut grid = Vec::new();
    for (x, row) in states.iter().enumerate() {
        let mut cells = Vec::new();
        for (y, v) in row.iter().enumerate() {
            let state = if *v == 1 { CellState::Alive } else { CellState::Dead };
            cells.push(cell_at(state, x, y));
        }
        grid.push(cells);
    }
    grid
}

fn states_of(cells: &[Vec<Cell>]) -> Vec<Vec<u8>> {
    cells
        .iter()
        .map(|row| {
            row.iter()
                .map(|c| match c.state {
                    CellState::Alive => 1,
                    CellState::Dead => 0,
                })
                .collect()
        })
        .collect()
}

#[test]
fn rule_alive_survives_with_two_or_three() {
    let c = cell_at(CellState::Alive, 0, 0);
    assert_eq!(c.conways_rules(2), CellState::Alive);
    assert_eq!(c.conways_rules(3), CellState::Alive);
}

#[test]
fn rule_alive_dies_otherwise() {
    let c = cell_at(CellState::Alive, 0, 0);
    assert_eq!(c.conways_rules(0), CellState::Dead);
    assert_eq!(c.conways_rules(1), CellState::Dead);
    assert_eq!(c.conways_rules(4), CellState::Dead);
    assert_eq!(c.conways_rules(8), CellState::Dead);
}

#[test]
fn rule_dead_born_with_exactly_three() {
    let c = cell_at(CellState::Dead, 0, 0);
    assert_eq!(c.conways_rules(3), CellState::Alive);
    assert_eq!(c.conways_rules(2), CellState::Dead);
    assert_eq!(c.conways_rules(4), CellState::Dead);
    assert_eq!(c.conways_rules(0), CellState::Dead);
}

#[test]
fn neighbor_count_one_by_one() {
    let g = cells_from(&[&[1]]);
    assert_eq!(g[0][0].count_alive_neighbours(&g), 0);
}

#[test]
fn neighbor_count_one_by_n() {
    let g = cells_from(&[&[1, 1, 1, 1]]);
    assert_eq!(g[0][0].count_alive_neighbours(&g), 1);
    assert_eq!(g[0][1].count_alive_neighbours(&g), 2);
    assert_eq!(g[0][2].count_alive_neighbours(&g), 2);
    assert_eq!(g[0][3].count_alive_neighbours(&g), 1);
}

#[test]
fn neighbor_count_n_by_one() {
    let g = cells_from(&[&[1], &[1], &[1]]);
    assert_eq!(g[0][0].count_alive_neighbours(&g), 1);
    assert_eq!(g[1][0].count_alive_neighbours(&g), 2);
    assert_eq!(g[2][0].count_alive_neighbours(&g), 1);
}

#[test]
fn neighbor_count_corners_edges_center() {
    let g = cells_from(&[&[1, 1, 1], &[1, 1, 1], &[1, 1, 1]]);
    // corners
    assert_eq!(g[0][0].count_alive_neighbours(&g), 3);
    assert_eq!(g[0][2].count_alive_neighbours(&g), 3);
    assert_eq!(g[2][0].count_alive_neighbours(&g), 3);
    assert_eq!(g[2][2].count_alive_neighbours(&g), 3);
    // edges
    assert_eq!(g[0][1].count_alive_neighbours(&g), 5);
    assert_eq!(g[1][0].count_alive_neighbours(&g), 5);
    assert_eq!(g[1][2].count_alive_neighbours(&g), 5);
    assert_eq!(g[2][1].count_alive_neighbours(&g), 5);
    // center
    assert_eq!(g[1][1].count_alive_neighbours(&g), 8);
}

#[test]
fn iterate_keeps_position() {
    let g = cells_from(&[&[0, 1], &[1, 1]]);
    let next = g[1][0].iterate(&g);
    assert_eq!(next.row, 1);
    assert_eq!(next.col, 0);
    assert_eq!(next.state, CellState::Alive);
}

#[test]
fn all_dead_grid_stays_all_dead() {
    let row: &[u8] = &[0, 0, 0, 0, 0];
    let mut g = cells_from(&[row, row, row, row]);
    for _ in 0..5 {
        g = step_states(&g);
        assert_eq!(states_of(&g), vec![vec![0u8; 5]; 4]);
    }
}

#[test]
fn block_is_a_still_life() {
    let g = cells_from(&[
        &[0, 0, 0, 0, 0, 0],
        &[0, 0, 0, 0, 0, 0],
        &[0, 0, 1, 1, 0, 0],
        &[0, 0, 1, 1, 0, 0],
        &[0, 0, 0, 0, 0, 0],
        &[0, 0, 0, 0, 0, 0],
    ]);
    let before = states_of(&g);
    let after = states_of(&step_states(&g));
    assert_eq!(before, after);
}

#[test]
fn blinker_alternates_for_four_generations() {
    let vertical = cells_from(&[
        &[0, 0, 0, 0, 0],
        &[0, 0, 1, 0, 0],
        &[0, 0, 1, 0, 0],
        &[0, 0, 1, 0, 0],
        &[0, 0, 0, 0, 0],
    ]);
    let horizontal = cells_from(&[
        &[0, 0, 0, 0, 0],
        &[0, 0, 0, 0, 0],
        &[0, 1, 1, 1, 0],
        &[0, 0, 0, 0, 0],
        &[0, 0, 0, 0, 0],
    ]);
    let mut g = vertical.clone();
    for k in 0..4 {
        g = step_states(&g);
        if k % 2 == 0 {
            assert_eq!(states_of(&g), states_of(&horizontal));
        } else {
            assert_eq!(states_of(&g), states_of(&vertical));
        }
    }
}

#[test]
fn initial_states_mirror_the_input() {
    let rows = vec![
        vec![CellState::Dead, CellState::Alive],
        vec![CellState::Alive, CellState::Dead],
    ];
    let sim = Simulator::new(1, None, rows.clone()).unwrap();
    let cells = sim.create_initial_states();
    for (x, row) in cells.iter().enumerate() {
        for (y, c) in row.iter().enumerate() {
            assert_eq!(c.row, x);
            assert_eq!(c.col, y);
            assert_eq!(c.state, rows[x][y]);
        }
    }
}
