use game_of_life::simulation::{generate_grid, CellState, SimError, Simulator};

fn rows_from(states: &[&[u8]]) -> Vec<Vec<CellState>> {
    states
        .iter()
        .map(|row| {
            row.iter()
                .map(|v| if *v == 1 { CellState::Alive } else { CellState::Dead })
                .collect()
        })
        .collect()
}

#[test]
fn new_rejects_zero_rows() {
    let r = Simulator::new(1, None, Vec::new());
    assert!(matches!(r, Err(SimError::ConfigurationError)));
}

#[test]
fn new_rejects_unequal_row_lengths() {
    let r = Simulator::new(1, None, rows_from(&[&[0, 1], &[0]]));
    assert!(matches!(r, Err(SimError::ConfigurationError)));
}

#[test]
fn new_rejects_empty_rows() {
    let r = Simulator::new(1, None, vec![Vec::new(), Vec::new()]);
    assert!(matches!(r, Err(SimError::ConfigurationError)));
}

#[test]
fn new_accepts_uniform_grid() {
    let r = Simulator::new(3, Some(String::from("out")), rows_from(&[&[0, 1], &[1, 0]]));
    assert!(r.is_ok());
}

#[test]
fn zero_iterations_produce_no_snapshots() {
    let mut sim = Simulator::new(0, None, rows_from(&[&[1, 1], &[1, 1]])).unwrap();
    let snapshots = sim.run_simulation();
    assert!(snapshots.is_empty());
}

#[test]
fn two_runs_are_byte_identical() {
    let rows = rows_from(&[
        &[0, 1, 0, 1, 0],
        &[1, 1, 0, 0, 1],
        &[0, 0, 1, 1, 0],
        &[1, 0, 1, 0, 1],
    ]);
    let mut a = Simulator::new(6, None, rows.clone()).unwrap();
    let mut b = Simulator::new(6, None, rows).unwrap();
    assert_eq!(a.run_simulation(), b.run_simulation());
}

#[test]
fn all_dead_run_snapshots_stay_all_dead() {
    let mut sim = Simulator::new(3, None, rows_from(&[&[0, 0, 0], &[0, 0, 0]])).unwrap();
    let snapshots = sim.run_simulation();
    assert_eq!(snapshots.len(), 3);
    for s in snapshots {
        assert_eq!(s, b"0,0,0\n0,0,0\n".to_vec());
    }
}

#[test]
fn vertical_blinker_two_iterations() {
    let rows = rows_from(&[&[0, 1, 0], &[0, 1, 0], &[0, 1, 0]]);
    let mut sim = Simulator::new(2, None, rows).unwrap();
    let snapshots = sim.run_simulation();
    assert_eq!(snapshots.len(), 2);
    assert_eq!(snapshots[0], b"0,0,0\n1,1,1\n0,0,0\n".to_vec());
    assert_eq!(snapshots[1], b"0,1,0\n0,1,0\n0,1,0\n".to_vec());
}

#[test]
fn generated_grid_has_requested_dimensions() {
    let g = generate_grid(4, 7);
    assert_eq!(g.len(), 4);
    for row in &g {
        assert_eq!(row.len(), 7);
    }
}

#[test]
fn generated_grid_feeds_a_run() {
    let g = generate_grid(5, 5);
    let mut sim = Simulator::new(2, None, g).unwrap();
    let snapshots = sim.run_simulation();
    assert_eq!(snapshots.len(), 2);
    // each snapshot renders a 5x5 grid: 5 lines of 5 cells and 4 commas
    for s in &snapshots {
        assert_eq!(s.len(), 5 * 10);
    }
}
