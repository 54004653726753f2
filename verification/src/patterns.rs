//! Laws of the transition rule on distinguished patterns: the all-dead grid
//! is a fixed point, the 2x2 block is a still life, and the 3-cell line (the
//! blinker) alternates between its horizontal and vertical orientation.

use vstd::prelude::*;

use crate::model::{alive_at, gen_k, neighbor_count, next_alive, step_spec};

verus! {

/// Every cell of the grid is dead.
pub open spec fn all_dead(g: Seq<Seq<bool>>) -> bool {
    forall|r: int, c: int| 0 <= r < g.len() && 0 <= c < g[r].len() ==> !(#[trigger] g[r][c])
}

/// One step of an all-dead grid changes nothing.
pub proof fn lemma_all_dead_step(g: Seq<Seq<bool>>)
    requires
        all_dead(g),
    ensures
        step_spec(g) == g,
{
    assert forall|r: int, c: int| !alive_at(g, r, c) by {
        if 0 <= r < g.len() && 0 <= c < g[r].len() {
            assert(!g[r][c]);
        }
    }
    assert(step_spec(g) =~~= g);
}

/// Fixed point: an all-dead grid of any size remains all-dead (indeed,
/// unchanged) after any number of generations.
pub proof fn lemma_all_dead_fixed_point(g: Seq<Seq<bool>>, k: nat)
    requires
        all_dead(g),
    ensures
        gen_k(g, k) == g,
    decreases k,
{
    if k > 0 {
        lemma_all_dead_fixed_point(g, (k - 1) as nat);
        lemma_all_dead_step(g);
    }
}

/// An `h` by `w` grid that is dead everywhere except a 2x2 block of alive
/// cells whose upper-left corner is `(r0, c0)`.
pub open spec fn block_grid(h: nat, w: nat, r0: int, c0: int) -> Seq<Seq<bool>> {
    Seq::new(h, |r: int| Seq::new(w, |c: int| r0 <= r < r0 + 2 && c0 <= c < c0 + 2))
}

/// Still life: a 2x2 block of alive cells placed with a margin of at least 2
/// empty cells from all four edges is unchanged by a generation step.
pub proof fn lemma_block_still_life(h: nat, w: nat, r0: int, c0: int)
    requires
        2 <= r0,
        r0 + 4 <= h,
        2 <= c0,
        c0 + 4 <= w,
    ensures
        step_spec(block_grid(h, w, r0, c0)) == block_grid(h, w, r0, c0),
{
    let g = block_grid(h, w, r0, c0);
    assert forall|a: int, b: int| alive_at(g, a, b) == (r0 <= a < r0 + 2 && c0 <= b < c0 + 2) by {
        if 0 <= a < h && 0 <= b < w {
            assert(g[a] == Seq::new(w, |c: int| r0 <= a < r0 + 2 && c0 <= c < c0 + 2));
        }
    }
    assert forall|r: int, c: int|
        0 <= r < h && 0 <= c < w implies #[trigger] step_spec(g)[r][c] == g[r][c] by {
        assert(g[r] == Seq::new(w, |cc: int| r0 <= r < r0 + 2 && c0 <= cc < c0 + 2));
        assert(step_spec(g)[r][c] == next_alive(g[r][c], neighbor_count(g, r, c)));
    }
    assert(step_spec(g) =~~= g);
}

/// An `h` by `w` grid that is dead everywhere except the three cells in row
/// `rc`, columns `cc - 1` through `cc + 1`.
pub open spec fn horizontal_blinker(h: nat, w: nat, rc: int, cc: int) -> Seq<Seq<bool>> {
    Seq::new(h, |r: int| Seq::new(w, |c: int| r == rc && cc - 1 <= c <= cc + 1))
}

/// An `h` by `w` grid that is dead everywhere except the three cells in
/// column `cc`, rows `rc - 1` through `rc + 1`.
pub open spec fn vertical_blinker(h: nat, w: nat, rc: int, cc: int) -> Seq<Seq<bool>> {
    Seq::new(h, |r: int| Seq::new(w, |c: int| rc - 1 <= r <= rc + 1 && c == cc))
}

/// One step turns the horizontal blinker centered at `(rc, cc)` into the
/// vertical one, as long as the 3x3 box around the center lies in the grid.
pub proof fn lemma_blinker_horizontal_to_vertical(h: nat, w: nat, rc: int, cc: int)
    requires
        1 <= rc,
        rc + 2 <= h,
        1 <= cc,
        cc + 2 <= w,
    ensures
        step_spec(horizontal_blinker(h, w, rc, cc)) == vertical_blinker(h, w, rc, cc),
{
    let g = horizontal_blinker(h, w, rc, cc);
    let v = vertical_blinker(h, w, rc, cc);
    assert forall|a: int, b: int| alive_at(g, a, b) == (a == rc && cc - 1 <= b <= cc + 1) by {
        if 0 <= a < h && 0 <= b < w {
            assert(g[a] == Seq::new(w, |c: int| a == rc && cc - 1 <= c <= cc + 1));
        }
    }
    assert forall|r: int, c: int|
        0 <= r < h && 0 <= c < w implies #[trigger] step_spec(g)[r][c] == v[r][c] by {
        assert(g[r] == Seq::new(w, |cc2: int| r == rc && cc - 1 <= cc2 <= cc + 1));
        assert(v[r] == Seq::new(w, |cc2: int| rc - 1 <= r <= rc + 1 && cc2 == cc));
        assert(step_spec(g)[r][c] == next_alive(g[r][c], neighbor_count(g, r, c)));
    }
    assert(step_spec(g) =~~= v);
}

/// One step turns the vertical blinker centered at `(rc, cc)` into the
/// horizontal one, as long as the 3x3 box around the center lies in the grid.
pub proof fn lemma_blinker_vertical_to_horizontal(h: nat, w: nat, rc: int, cc: int)
    requires
        1 <= rc,
        rc + 2 <= h,
        1 <= cc,
        cc + 2 <= w,
    ensures
        step_spec(vertical_blinker(h, w, rc, cc)) == horizontal_blinker(h, w, rc, cc),
{
    let g = vertical_blinker(h, w, rc, cc);
    let hz = horizontal_blinker(h, w, rc, cc);
    assert forall|a: int, b: int| alive_at(g, a, b) == (rc - 1 <= a <= rc + 1 && b == cc) by {
        if 0 <= a < h && 0 <= b < w {
            assert(g[a] == Seq::new(w, |c: int| rc - 1 <= a <= rc + 1 && c == cc));
        }
    }
    assert forall|r: int, c: int|
        0 <= r < h && 0 <= c < w implies #[trigger] step_spec(g)[r][c] == hz[r][c] by {
        assert(g[r] == Seq::new(w, |cc2: int| rc - 1 <= r <= rc + 1 && cc2 == cc));
        assert(hz[r] == Seq::new(w, |cc2: int| r == rc && cc - 1 <= cc2 <= cc + 1));
        assert(step_spec(g)[r][c] == next_alive(g[r][c], neighbor_count(g, r, c)));
    }
    assert(step_spec(g) =~~= hz);
}

/// The blinker alternates between its two orientations every generation, for
/// any number of generations: after an even number of steps the vertical
/// blinker is itself again, after an odd number it is the horizontal one.
pub proof fn lemma_blinker_oscillates(h: nat, w: nat, rc: int, cc: int, k: nat)
    requires
        1 <= rc,
        rc + 2 <= h,
        1 <= cc,
        cc + 2 <= w,
    ensures
        gen_k(vertical_blinker(h, w, rc, cc), k) == if k % 2 == 0 {
            vertical_blinker(h, w, rc, cc)
        } else {
            horizontal_blinker(h, w, rc, cc)
        },
    decreases k,
{
    if k > 0 {
        lemma_blinker_oscillates(h, w, rc, cc, (k - 1) as nat);
        if (k - 1) % 2 == 0 {
            lemma_blinker_vertical_to_horizontal(h, w, rc, cc);
        } else {
            lemma_blinker_horizontal_to_vertical(h, w, rc, cc);
        }
    }
}

} // verus!
