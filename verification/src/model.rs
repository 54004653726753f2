//! The mathematical model of the automaton: a generation is a sequence of
//! rows, each row a sequence of `bool` (`true` = alive). The transition rule,
//! neighbor counting and the iterated step are defined here as specification
//! functions; the executable code in `simulation` is proved against them.

use vstd::prelude::*;

verus! {

/// A well-formed generation: at least one row, a positive width, and every
/// row of that same width.
pub open spec fn grid_wf(g: Seq<Seq<bool>>) -> bool {
    &&& g.len() > 0
    &&& g[0].len() > 0
    &&& forall|r: int| 0 <= r < g.len() ==> #[trigger] g[r].len() == g[0].len()
}

/// Whether position `(r, c)` lies inside the grid and holds an alive cell.
/// Positions outside the bounds are simply absent: they are not alive.
pub open spec fn alive_at(g: Seq<Seq<bool>>, r: int, c: int) -> bool {
    0 <= r < g.len() && 0 <= c < g[r].len() && g[r][c]
}

/// 1 for an alive neighbor, 0 otherwise.
pub open spec fn indicator(b: bool) -> int {
    if b {
        1
    } else {
        0
    }
}

/// How many of the 8 positions surrounding `(r, c)` hold an alive cell.
/// Out-of-bounds positions contribute nothing (no wraparound).
pub open spec fn neighbor_count(g: Seq<Seq<bool>>, r: int, c: int) -> int {
    indicator(alive_at(g, r - 1, c - 1)) + indicator(alive_at(g, r - 1, c)) + indicator(
        alive_at(g, r - 1, c + 1),
    ) + indicator(alive_at(g, r, c - 1)) + indicator(alive_at(g, r, c + 1)) + indicator(
        alive_at(g, r + 1, c - 1),
    ) + indicator(alive_at(g, r + 1, c)) + indicator(alive_at(g, r + 1, c + 1))
}

/// The transition rule for one cell: an alive cell survives with 2 or 3 alive
/// neighbors, a dead cell becomes alive with exactly 3, all else is dead.
pub open spec fn next_alive(alive: bool, n: int) -> bool {
    if alive {
        n == 2 || n == 3
    } else {
        n == 3
    }
}

/// One full generation step: a grid of the same shape where every cell is the
/// transition rule applied to its state and neighbor count in `g`.
pub open spec fn step_spec(g: Seq<Seq<bool>>) -> Seq<Seq<bool>> {
    Seq::new(
        g.len(),
        |r: int| Seq::new(g[r].len(), |c: int| next_alive(g[r][c], neighbor_count(g, r, c))),
    )
}

/// The grid after `k` generation steps from `g`; generation 0 is `g` itself.
pub open spec fn gen_k(g: Seq<Seq<bool>>, k: nat) -> Seq<Seq<bool>>
    decreases k,
{
    if k == 0 {
        g
    } else {
        step_spec(gen_k(g, (k - 1) as nat))
    }
}

/// A step keeps the grid's shape, so it keeps well-formedness.
pub proof fn lemma_step_preserves_wf(g: Seq<Seq<bool>>)
    requires
        grid_wf(g),
    ensures
        grid_wf(step_spec(g)),
        step_spec(g).len() == g.len(),
        forall|r: int| 0 <= r < g.len() ==> #[trigger] step_spec(g)[r].len() == g[r].len(),
{
}

} // verus!
