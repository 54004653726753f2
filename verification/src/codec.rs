//! The snapshot format: one line per row, cells rendered as `0` (dead) or `1`
//! (alive) joined by commas, each line terminated by a newline. The reader
//! accepts the same format with the final newline optional and rejects any
//! other byte with `ParseError`.

use vstd::prelude::*;

use crate::simulation::{rows_view, CellState, Cell, SimError, cells_view};

verus! {

/// The byte rendering one cell: `b'1'` for alive, `b'0'` for dead.
pub open spec fn cell_byte(b: bool) -> u8 {
    if b {
        49u8
    } else {
        48u8
    }
}

/// The rendering of one row: its cells' bytes joined by `b','`.
pub open spec fn encode_row_spec(row: Seq<bool>) -> Seq<u8>
    decreases row.len(),
{
    if row.len() == 0 {
        Seq::empty()
    } else if row.len() == 1 {
        seq![cell_byte(row[0])]
    } else {
        seq![cell_byte(row[0]), 44u8] + encode_row_spec(row.skip(1))
    }
}

/// The rendering of a whole grid: each row's rendering followed by `b'\n'`,
/// in row order.
pub open spec fn encode_grid_spec(g: Seq<Seq<bool>>) -> Seq<u8>
    decreases g.len(),
{
    if g.len() == 0 {
        Seq::empty()
    } else {
        encode_row_spec(g[0]) + seq![10u8] + encode_grid_spec(g.skip(1))
    }
}

/// The cell a single byte stands for, if any.
pub open spec fn cell_of_byte(b: u8) -> Option<bool> {
    if b == 48 {
        Some(false)
    } else if b == 49 {
        Some(true)
    } else {
        None
    }
}

/// The reader's meaning at the start of a line (or of the input): empty input
/// closes the grid; otherwise a row must follow. `done` holds the rows read
/// so far.
pub open spec fn parse_rows_spec(s: Seq<u8>, done: Seq<Seq<bool>>) -> Option<Seq<Seq<bool>>>
    decreases s.len(), 1int,
{
    if s.len() == 0 {
        Some(done)
    } else {
        parse_cells_spec(s, done, Seq::empty())
    }
}

/// The reader's meaning where one cell byte is expected: the byte must render
/// a cell; then either the input ends (the final newline is optional), a
/// comma continues the row, or a newline closes it. `row` holds the current
/// row's cells read so far.
pub open spec fn parse_cells_spec(s: Seq<u8>, done: Seq<Seq<bool>>, row: Seq<bool>) -> Option<
    Seq<Seq<bool>>,
>
    decreases s.len(), 0int,
{
    if s.len() == 0 {
        None
    } else {
        match cell_of_byte(s[0]) {
            None => None,
            Some(b) => {
                let row2 = row.push(b);
                if s.len() == 1 {
                    Some(done.push(row2))
                } else if s[1] == 44 {
                    parse_cells_spec(s.skip(2), done, row2)
                } else if s[1] == 10 {
                    parse_rows_spec(s.skip(2), done.push(row2))
                } else {
                    None
                }
            },
        }
    }
}

/// What the whole input means to the reader.
pub open spec fn parse_spec(s: Seq<u8>) -> Option<Seq<Seq<bool>>> {
    parse_rows_spec(s, Seq::empty())
}

/// Appending a cell to a nonempty row appends a comma and the cell's byte to
/// the row's rendering.
proof fn lemma_encode_row_snoc(row: Seq<bool>, b: bool)
    requires
        row.len() >= 1,
    ensures
        encode_row_spec(row.push(b)) == encode_row_spec(row) + seq![44u8, cell_byte(b)],
    decreases row.len(),
{
    let rp = row.push(b);
    if row.len() == 1 {
        assert(rp.len() == 2);
        assert(rp.skip(1) =~= seq![b]);
        assert(encode_row_spec(seq![b]) == seq![cell_byte(b)]);
        assert(encode_row_spec(rp) =~= encode_row_spec(row) + seq![44u8, cell_byte(b)]);
    } else {
        lemma_encode_row_snoc(row.skip(1), b);
        assert(rp.skip(1) =~= row.skip(1).push(b));
        assert(encode_row_spec(rp) == seq![cell_byte(rp[0]), 44u8] + encode_row_spec(rp.skip(1)));
        assert(encode_row_spec(rp) =~= encode_row_spec(row) + seq![44u8, cell_byte(b)]);
    }
}

/// Render one row of cells into `out`.
fn encode_row_into(row: &Vec<Cell>, out: &mut Vec<u8>)
    ensures
        final(out)@ == old(out)@ + encode_row_spec(row@.map(|j: int, c: Cell| c.state.is_alive())),
{
    let ghost rv = row@.map(|j: int, c: Cell| c.state.is_alive());
    let ghost out0 = out@;
    let mut y: usize = 0;
    while y < row.len()
        invariant
            rv == row@.map(|j: int, c: Cell| c.state.is_alive()),
            rv.len() == row@.len(),
            out0 == old(out)@,
            y <= row@.len(),
            out@ == out0 + encode_row_spec(rv.take(y as int)),
        decreases row@.len() - y,
    {
        let byte: u8 = match row[y].state {
            CellState::Alive => 49,
            CellState::Dead => 48,
        };
        proof {
            assert(rv.take(y as int).push(rv[y as int]) =~= rv.take(y as int + 1));
            if y == 0 {
                assert(encode_row_spec(rv.take(1)) =~= seq![cell_byte(rv[0])]);
            } else {
                lemma_encode_row_snoc(rv.take(y as int), rv[y as int]);
            }
        }
        if y > 0 {
            out.push(44);
        }
        out.push(byte);
        proof {
            assert(out@ =~= out0 + encode_row_spec(rv.take(y as int + 1)));
        }
        y = y + 1;
    }
    proof {
        assert(rv.take(row@.len() as int) =~= rv);
    }
}

/// Render a grid of cells in the snapshot format: each row's cells as `0`/`1`
/// joined by commas, each row closed by a newline, no header and no trailer.
pub fn encode_cells(cells: &Vec<Vec<Cell>>) -> (out: Vec<u8>)
    ensures
        out@ == encode_grid_spec(cells_view(cells@)),
{
    let ghost g = cells_view(cells@);
    let mut out: Vec<u8> = Vec::new();
    let mut x: usize = 0;
    proof {
        assert(g.skip(0) =~= g);
        assert(out@ + encode_grid_spec(g) =~= encode_grid_spec(g));
    }
    while x < cells.len()
        invariant
            g == cells_view(cells@),
            g.len() == cells@.len(),
            x <= cells@.len(),
            out@ + encode_grid_spec(g.skip(x as int)) == encode_grid_spec(g),
        decreases cells@.len() - x,
    {
        proof {
            assert(g[x as int] == cells@[x as int]@.map(|j: int, c: Cell| c.state.is_alive()));
            assert(g.skip(x as int).skip(1) =~= g.skip(x as int + 1));
            assert(g.skip(x as int)[0] == g[x as int]);
            assert(encode_grid_spec(g.skip(x as int)) == encode_row_spec(g[x as int]) + seq![10u8]
                + encode_grid_spec(g.skip(x as int + 1)));
        }
        encode_row_into(&cells[x], &mut out);
        out.push(10);
        proof {
            assert(out@ + encode_grid_spec(g.skip(x as int + 1)) =~= encode_grid_spec(g));
        }
        x = x + 1;
    }
    proof {
        assert(g.skip(g.len() as int) =~= Seq::<Seq<bool>>::empty());
        assert(out@ =~= encode_grid_spec(g));
    }
    out
}

/// The decimal digits of `n`, most significant first.
pub open spec fn decimal_spec(n: nat) -> Seq<u8>
    decreases n,
{
    if n < 10 {
        seq![(48 + n) as u8]
    } else {
        decimal_spec(n / 10).push((48 + n % 10) as u8)
    }
}

/// The name of the snapshot file for generation index `n`: the index in
/// decimal followed by `.csv`.
pub open spec fn snapshot_name_spec(n: nat) -> Seq<u8> {
    decimal_spec(n) + seq![46u8, 99u8, 115u8, 118u8]
}

/// Render the name of the snapshot file that persists generation `index`:
/// the zero-based index in decimal, with a `.csv` extension.
pub fn snapshot_file_name(index: u32) -> (name: Vec<u8>)
    ensures
        name@ == snapshot_name_spec(index as nat),
{
    let mut digits: Vec<u8> = Vec::new();
    let mut m = index;
    loop
        invariant_except_break
            digits@.len() == 0 ==> m == index,
            digits@.len() > 0 ==> m > 0 && decimal_spec(index as nat) == decimal_spec(m as nat)
                + digits@.reverse(),
        ensures
            decimal_spec(index as nat) == digits@.reverse(),
        decreases m,
    {
        let d: u8 = (m % 10) as u8;
        proof {
            assert(digits@.push((48 + d) as u8).reverse() =~= seq![(48 + d) as u8]
                + digits@.reverse());
        }
        digits.push(48 + d);
        m = m / 10;
        if m == 0 {
            proof {
                assert(decimal_spec(index as nat) =~= digits@.reverse());
            }
            break ;
        }
        proof {
            assert(decimal_spec(index as nat) =~= decimal_spec(m as nat) + digits@.reverse());
        }
    }
    let mut name: Vec<u8> = Vec::new();
    let mut j = digits.len();
    while j > 0
        invariant
            j <= digits@.len(),
            name@ =~= digits@.reverse().take(digits@.len() - j),
        decreases j,
    {
        j = j - 1;
        name.push(digits[j]);
        proof {
            assert(name@ =~= digits@.reverse().take(digits@.len() - j));
        }
    }
    proof {
        assert(digits@.reverse().take(digits@.len() as int) =~= digits@.reverse());
    }
    name.push(46);
    name.push(99);
    name.push(115);
    name.push(118);
    proof {
        assert(name@ =~= snapshot_name_spec(index as nat));
    }
    name
}

/// Reading a rendered row consumes it up to and including its closing
/// newline: the cells already read (`acc`) are extended by the row's, the row
/// is closed, and reading goes on behind the newline.
proof fn lemma_parse_encoded_row(row: Seq<bool>, rest: Seq<u8>, done: Seq<Seq<bool>>, acc: Seq<bool>)
    requires
        row.len() >= 1,
    ensures
        parse_cells_spec(encode_row_spec(row) + seq![10u8] + rest, done, acc) == parse_rows_spec(
            rest,
            done.push(acc + row),
        ),
    decreases row.len(),
{
    let s = encode_row_spec(row) + seq![10u8] + rest;
    if row.len() == 1 {
        assert(s =~= seq![cell_byte(row[0]), 10u8] + rest);
        assert(s[0] == cell_byte(row[0]));
        assert(s[1] == 10u8);
        assert(cell_of_byte(cell_byte(row[0])) == Some(row[0]));
        assert(s.skip(2) =~= rest);
        assert(acc.push(row[0]) =~= acc + row);
    } else {
        assert(s =~= seq![cell_byte(row[0]), 44u8] + (encode_row_spec(row.skip(1)) + seq![10u8]
            + rest));
        assert(s[0] == cell_byte(row[0]));
        assert(s[1] == 44u8);
        assert(cell_of_byte(cell_byte(row[0])) == Some(row[0]));
        assert(s.skip(2) =~= encode_row_spec(row.skip(1)) + seq![10u8] + rest);
        lemma_parse_encoded_row(row.skip(1), rest, done, acc.push(row[0]));
        assert(acc.push(row[0]) + row.skip(1) =~= acc + row);
    }
}

/// Reading a rendered grid behind rows already read yields those rows
/// followed by the grid's, provided no row of the grid is empty.
proof fn lemma_parse_encoded_grid(g: Seq<Seq<bool>>, done: Seq<Seq<bool>>)
    requires
        forall|i: int| 0 <= i < g.len() ==> (#[trigger] g[i]).len() > 0,
    ensures
        parse_rows_spec(encode_grid_spec(g), done) == Some(done + g),
    decreases g.len(),
{
    if g.len() == 0 {
        assert(encode_grid_spec(g).len() == 0);
        assert(done + g =~= done);
    } else {
        let s = encode_grid_spec(g);
        assert(s =~= encode_row_spec(g[0]) + seq![10u8] + encode_grid_spec(g.skip(1)));
        assert(s.len() > 0);
        lemma_parse_encoded_row(g[0], encode_grid_spec(g.skip(1)), done, Seq::empty());
        assert(Seq::<bool>::empty() + g[0] =~= g[0]);
        lemma_parse_encoded_grid(g.skip(1), done.push(g[0]));
        assert(done.push(g[0]) + g.skip(1) =~= done + g);
    }
}

/// Round trip: rendering a grid in the snapshot format and reading the result
/// back yields exactly the same cell states, for every grid whose rows are
/// all nonempty.
pub proof fn lemma_round_trip(g: Seq<Seq<bool>>)
    requires
        forall|i: int| 0 <= i < g.len() ==> (#[trigger] g[i]).len() > 0,
    ensures
        parse_spec(encode_grid_spec(g)) == Some(g),
{
    lemma_parse_encoded_grid(g, Seq::empty());
    assert(Seq::<Seq<bool>>::empty() + g =~= g);
}

/// Read a grid from the snapshot format: one row per line, cells as `0`/`1`
/// joined by commas, the final newline optional. Any other shape fails with
/// `ParseError`; the rows read are exactly what `parse_spec` gives the input.
pub fn parse_grid(input: &Vec<u8>) -> (r: Result<Vec<Vec<CellState>>, SimError>)
    ensures
        match r {
            Ok(grid) => parse_spec(input@) == Some(rows_view(grid@)),
            Err(e) => {
                &&& parse_spec(input@) is None
                &&& e == SimError::ParseError
            },
        },
{
    let mut grid: Vec<Vec<CellState>> = Vec::new();
    let mut i: usize = 0;
    proof {
        assert(input@.skip(0) =~= input@);
        assert(rows_view(grid@) =~= Seq::<Seq<bool>>::empty());
    }
    while i < input.len()
        invariant
            i <= input@.len(),
            parse_spec(input@) == parse_rows_spec(input@.skip(i as int), rows_view(grid@)),
        decreases input@.len() - i,
    {
        let mut row: Vec<CellState> = Vec::new();
        let ghost done = rows_view(grid@);
        let ghost i0 = i;
        proof {
            assert(parse_rows_spec(input@.skip(i as int), done) == parse_cells_spec(
                input@.skip(i as int),
                done,
                Seq::empty(),
            ));
            assert(row@.map(|j: int, c: CellState| c.is_alive()) =~= Seq::<bool>::empty());
        }
        loop
            invariant_except_break
                i0 <= i <= input@.len(),
                done == rows_view(grid@),
                parse_spec(input@) == parse_cells_spec(
                    input@.skip(i as int),
                    done,
                    row@.map(|j: int, c: CellState| c.is_alive()),
                ),
            ensures
                i0 < i <= input@.len(),
                parse_spec(input@) == parse_rows_spec(input@.skip(i as int), rows_view(grid@)),
            decreases input@.len() - i,
        {
            if i >= input.len() {
                proof {
                    assert(input@.skip(i as int).len() == 0);
                }
                return Err(SimError::ParseError);
            }
            proof {
                assert(input@.skip(i as int)[0] == input@[i as int]);
            }
            let b = input[i];
            let cell = if b == 48 {
                CellState::Dead
            } else if b == 49 {
                CellState::Alive
            } else {
                return Err(SimError::ParseError);
            };
            proof {
                let rv = row@.map(|j: int, c: CellState| c.is_alive());
                assert(row@.push(cell).map(|j: int, c: CellState| c.is_alive()) =~= rv.push(
                    cell.is_alive(),
                ));
            }
            row.push(cell);
            i = i + 1;
            let ghost rv2 = row@.map(|j: int, c: CellState| c.is_alive());
            if i >= input.len() {
                proof {
                    assert(input@.skip(i - 1).len() == 1);
                    assert(rows_view(grid@.push(row)) =~= rows_view(grid@).push(rv2));
                }
                grid.push(row);
                return Ok(grid);
            }
            proof {
                assert(input@.skip(i - 1).len() >= 2);
                assert(input@.skip(i - 1)[1] == input@[i as int]);
                assert(input@.skip(i - 1).skip(2) =~= input@.skip(i as int + 1));
            }
            let sep = input[i];
            if sep == 44 {
                i = i + 1;
            } else if sep == 10 {
                i = i + 1;
                proof {
                    assert(rows_view(grid@.push(row)) =~= rows_view(grid@).push(rv2));
                }
                grid.push(row);
                break ;
            } else {
                return Err(SimError::ParseError);
            }
        }
    }
    proof {
        assert(input@.skip(input@.len() as int) =~= Seq::<u8>::empty());
    }
    Ok(grid)
}

} // verus!
