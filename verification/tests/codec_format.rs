use game_of_life::codec::{encode_cells, parse_grid, snapshot_file_name};
use game_of_life::simulation::{Cell, CellState, SimError};

fn cells_from(states: &[&[u8]]) -> Vec<Vec<Cell>> {
    let mut grid = Vec::new();
    for (x, row) in states.iter().enumerate() {
        let mut cells = Vec::new();
        for (y, v) in row.iter().enumerate() {
            let state = if *v == 1 { CellState::Alive } else { CellState::Dead };
            cells.push(Cell { state, row: x, col: y });
        }
        grid.push(cells);
    }
    grid
}

#[test]
fn encode_renders_exact_bytes() {
    let g = cells_from(&[&[0, 1], &[1, 0]]);
    assert_eq!(encode_cells(&g), b"0,1\n1,0\n".to_vec());
}

#[test]
fn encode_single_cell() {
    let g = cells_from(&[&[1]]);
    assert_eq!(encode_cells(&g), b"1\n".to_vec());
}

#[test]
fn parse_reads_encoded_grid_back() {
    let g = cells_from(&[&[0, 1, 1], &[1, 0, 0]]);
    let bytes = encode_cells(&g);
    let parsed = parse_grid(&bytes).unwrap();
    assert_eq!(parsed.len(), 2);
    for (x, row) in parsed.iter().enumerate() {
        for (y, state) in row.iter().enumerate() {
            assert_eq!(*state, g[x][y].state);
        }
    }
}

#[test]
fn parse_accepts_missing_final_newline() {
    let parsed = parse_grid(&b"0,1\n1,0".to_vec()).unwrap();
    assert_eq!(
        parsed,
        vec![
            vec![CellState::Dead, CellState::Alive],
            vec![CellState::Alive, CellState::Dead],
        ]
    );
}

#[test]
fn parse_empty_input_gives_zero_rows() {
    let parsed = parse_grid(&Vec::new()).unwrap();
    assert!(parsed.is_empty());
}

#[test]
fn parse_rejects_bad_token() {
    assert_eq!(parse_grid(&b"0,2\n".to_vec()), Err(SimError::ParseError));
}

#[test]
fn parse_rejects_blank_line() {
    assert_eq!(parse_grid(&b"0\n\n0\n".to_vec()), Err(SimError::ParseError));
}

#[test]
fn parse_rejects_trailing_comma() {
    assert_eq!(parse_grid(&b"0,\n".to_vec()), Err(SimError::ParseError));
}

#[test]
fn parse_rejects_multi_digit_token() {
    assert_eq!(parse_grid(&b"00\n".to_vec()), Err(SimError::ParseError));
}

#[test]
fn snapshot_names_follow_the_generation_index() {
    assert_eq!(snapshot_file_name(0), b"0.csv".to_vec());
    assert_eq!(snapshot_file_name(7), b"7.csv".to_vec());
    assert_eq!(snapshot_file_name(107), b"107.csv".to_vec());
    assert_eq!(snapshot_file_name(4294967295), b"4294967295.csv".to_vec());
}
