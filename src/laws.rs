use vstd::prelude::*;
use vstd::arithmetic::div_mod::{lemma_fundamental_div_mod, lemma_div_pos_is_pos, lemma_small_mod};

use crate::universe::{
    all_dead, at, lemma_index_in_grid, lemma_index_split, lemma_wrap, live_neighbors,
    next_generation, next_state, pulsar_cell, pulsar_hit, pulsar_index, stamped, Cell,
};

verus! {

/// `cells` is a `width` by `height` buffer whose live cells are exactly the
/// coordinates that `p` picks.
pub open spec fn shows(cells: Seq<Cell>, width: int, height: int, p: spec_fn(int, int) -> bool) -> bool {
    &&& cells.len() == width * height
    &&& forall|r: int, c: int|
        0 <= r < height && 0 <= c < width ==> (#[trigger] at(cells, width, r, c) is Alive <==> p(r, c))
}

/// Every flat index of the buffer is the index of one in-grid coordinate.
proof fn lemma_index_coords(i: int, width: int, height: int)
    requires
        width >= 1,
        0 <= i < width * height,
    ensures
        0 <= i / width < height,
        0 <= i % width < width,
        i == (i / width) * width + i % width,
{
    lemma_fundamental_div_mod(i, width);
    lemma_div_pos_is_pos(i, width);
    assert(i / width < height) by (nonlinear_arith)
        requires
            width >= 1,
            i < width * height,
            i == width * (i / width) + i % width,
            0 <= i % width,
    ;
    assert(i == width * (i / width) + i % width);
    assert(width * (i / width) == (i / width) * width) by (nonlinear_arith);
}

/// In the next generation the cell at `(r, c)` follows the rule from its
/// own state and its live neighbour count.
proof fn lemma_at_next(cells: Seq<Cell>, width: int, height: int, r: int, c: int)
    requires
        cells.len() == width * height,
        0 <= r < height,
        0 <= c < width,
    ensures
        at(next_generation(cells, width, height), width, r, c) == next_state(
            at(cells, width, r, c),
            live_neighbors(cells, width, height, r, c),
        ),
        (r - 1) % height == if r == 0 { height - 1 } else { r - 1 },
        (r + 1) % height == if r == height - 1 { 0 } else { r + 1 },
        (c - 1) % width == if c == 0 { width - 1 } else { c - 1 },
        (c + 1) % width == if c == width - 1 { 0 } else { c + 1 },
{
    lemma_index_in_grid(r, c, width, height);
    lemma_index_split(r, c, width);
    lemma_wrap(r, height);
    lemma_wrap(c, width);
}

/// Two buffers of one size whose live cells are the same coordinates are
/// equal.
pub proof fn lemma_shows_unique(a: Seq<Cell>, b: Seq<Cell>, width: int, height: int, p: spec_fn(int, int) -> bool)
    requires
        width >= 1,
        shows(a, width, height, p),
        shows(b, width, height, p),
    ensures
        a == b,
{
    assert forall|i: int| 0 <= i < a.len() implies a[i] == b[i] by {
        lemma_index_coords(i, width, height);
        let r = i / width;
        let c = i % width;
        assert(at(a, width, r, c) is Alive <==> p(r, c));
        assert(at(b, width, r, c) is Alive <==> p(r, c));
    }
    assert(a =~= b);
}

/// The rule: after one step a live cell stays alive exactly when it has two
/// or three live neighbours, and a dead cell becomes alive exactly when it
/// has three.
pub proof fn lemma_rule(cells: Seq<Cell>, width: int, height: int, r: int, c: int)
    requires
        cells.len() == width * height,
        0 <= r < height,
        0 <= c < width,
    ensures
        ({
            let n = live_neighbors(cells, width, height, r, c);
            let now = at(cells, width, r, c);
            let next = at(next_generation(cells, width, height), width, r, c);
            &&& now is Alive && (n == 2 || n == 3) ==> next is Alive
            &&& now is Alive && (n < 2 || n > 3) ==> next is Dead
            &&& now is Dead && n == 3 ==> next is Alive
            &&& now is Dead && n != 3 ==> next is Dead
        }),
{
    lemma_at_next(cells, width, height, r, c);
}

/// The grid is a torus: in an `n` by `n` grid, `n >= 3`, the cell at
/// `(n - 1, n - 1)` is counted once among the neighbours of `(0, 0)`; when
/// it is the only live cell, `(0, 0)` has exactly one live neighbour.
pub proof fn lemma_corner_is_neighbor(cells: Seq<Cell>, n: int)
    requires
        n >= 3,
        cells.len() == n * n,
        at(cells, n, n - 1, n - 1) is Alive,
    ensures
        live_neighbors(cells, n, n, 0, 0) == 1 + live_neighbors(
            cells.update(n * n - 1, Cell::Dead),
            n,
            n,
            0,
            0,
        ),
        cells.update(n * n - 1, Cell::Dead) == all_dead((n * n) as nat) ==> live_neighbors(cells, n, n, 0, 0)
            == 1,
{
    lemma_wrap(0, n);
    assert((n - 1) * n + (n - 1) == n * n - 1) by (nonlinear_arith);
    assert((n - 1) * n + 1 < n * n - 1) by (nonlinear_arith)
        requires
            n >= 3,
    ;
    assert(1 * n + (n - 1) < n * n - 1) by (nonlinear_arith)
        requires
            n >= 3,
    ;
    assert(0 * n == 0 && 1 * n == n);
}

/// A pulsar stamped at `(0, 0)` on a cleared grid of at least 13 by 13
/// cells makes alive exactly the pulsar's cells, in the top-left 13 by 13
/// square, and nothing else.
pub proof fn lemma_pulsar_at_origin(before: Seq<Cell>, after: Seq<Cell>, width: int, height: int)
    requires
        width >= 13,
        height >= 13,
        before == all_dead((width * height) as nat),
        stamped(after, before, |j: int| pulsar_hit(width, height, 0, 0, 13, j)),
    ensures
        shows(after, width, height, |r: int, c: int| r < 13 && c < 13 && pulsar_cell(r, c)),
{
    assert forall|r: int, c: int| 0 <= r < height && 0 <= c < width implies (#[trigger] at(after, width, r, c) is Alive
        <==> (r < 13 && c < 13 && pulsar_cell(r, c))) by {
        let j = r * width + c;
        lemma_index_in_grid(r, c, width, height);
        lemma_index_split(r, c, width);
        assert(after[j] == (if pulsar_hit(width, height, 0, 0, 13, j) { Cell::Alive } else { before[j] }));
        if pulsar_hit(width, height, 0, 0, 13, j) {
            let (rr, kk) = choose|rr: int, kk: int|
                0 <= rr < 13 && 0 <= kk < 13 && pulsar_cell(rr, kk) && #[trigger] pulsar_index(width, height, 0, 0, rr, kk) == j;
            lemma_index_in_grid(rr, kk, width, height);
            assert(0 * width + 0 + rr * width + kk == rr * width + kk);
            lemma_small_mod((rr * width + kk) as nat, (width * height) as nat);
            lemma_index_split(rr, kk, width);
        }
        if r < 13 && c < 13 && pulsar_cell(r, c) {
            lemma_small_mod(j as nat, (width * height) as nat);
            assert(0 * width + 0 + r * width + c == j);
            assert(pulsar_index(width, height, 0, 0, r, c) == j);
        }
    }
}

/// Whether `(r, c)` belongs to the 2 by 2 block whose top-left cell is
/// `(r0, c0)`.
pub open spec fn in_block(r0: int, c0: int, r: int, c: int) -> bool {
    r0 <= r <= r0 + 1 && c0 <= c <= c0 + 1
}

/// A lone 2 by 2 block in a grid of at least 4 by 4 cells is a still life:
/// each of its cells has exactly three live neighbours, and one step leaves
/// the buffer unchanged.
pub proof fn lemma_block_still(cells: Seq<Cell>, width: int, height: int, r0: int, c0: int)
    requires
        width >= 4,
        height >= 4,
        0 <= r0 && r0 + 1 < height,
        0 <= c0 && c0 + 1 < width,
        shows(cells, width, height, |r: int, c: int| in_block(r0, c0, r, c)),
    ensures
        forall|r: int, c: int|
            in_block(r0, c0, r, c) ==> #[trigger] live_neighbors(cells, width, height, r, c) == 3,
        next_generation(cells, width, height) == cells,
{
    assert forall|r: int, c: int| in_block(r0, c0, r, c) implies #[trigger] live_neighbors(cells, width, height, r, c) == 3 by {
        lemma_at_next(cells, width, height, r, c);
    }
    let next = next_generation(cells, width, height);
    assert forall|r: int, c: int| 0 <= r < height && 0 <= c < width implies (#[trigger] at(next, width, r, c) is Alive
        <==> in_block(r0, c0, r, c)) by {
        lemma_at_next(cells, width, height, r, c);
    }
    lemma_shows_unique(next, cells, width, height, |r: int, c: int| in_block(r0, c0, r, c));
}

/// Whether `(r, c)` belongs to the horizontal bar of three centred on
/// `(r0, c0)`.
pub open spec fn in_row_bar(r0: int, c0: int, r: int, c: int) -> bool {
    r == r0 && c0 - 1 <= c <= c0 + 1
}

/// Whether `(r, c)` belongs to the vertical bar of three centred on
/// `(r0, c0)`.
pub open spec fn in_column_bar(r0: int, c0: int, r: int, c: int) -> bool {
    c == c0 && r0 - 1 <= r <= r0 + 1
}

/// One step turns a lone horizontal bar of three into the vertical one.
proof fn lemma_row_bar_step(cells: Seq<Cell>, width: int, height: int, r0: int, c0: int)
    requires
        width >= 5,
        height >= 5,
        1 <= r0 && r0 + 1 < height,
        1 <= c0 && c0 + 1 < width,
        shows(cells, width, height, |r: int, c: int| in_row_bar(r0, c0, r, c)),
    ensures
        shows(
            next_generation(cells, width, height),
            width,
            height,
            |r: int, c: int| in_column_bar(r0, c0, r, c),
        ),
{
    let once = next_generation(cells, width, height);
    assert forall|r: int, c: int| 0 <= r < height && 0 <= c < width implies (#[trigger] at(once, width, r, c) is Alive
        <==> in_column_bar(r0, c0, r, c)) by {
        lemma_at_next(cells, width, height, r, c);
    }
}

/// One step turns a lone vertical bar of three, away from the edges of a
/// grid of at least 5 by 5 cells, into the horizontal one.
pub proof fn lemma_column_bar_step(cells: Seq<Cell>, width: int, height: int, r0: int, c0: int)
    requires
        width >= 5,
        height >= 5,
        1 <= r0 && r0 + 1 < height,
        1 <= c0 && c0 + 1 < width,
        shows(cells, width, height, |r: int, c: int| in_column_bar(r0, c0, r, c)),
    ensures
        shows(
            next_generation(cells, width, height),
            width,
            height,
            |r: int, c: int| in_row_bar(r0, c0, r, c),
        ),
{
    let once = next_generation(cells, width, height);
    assert forall|r: int, c: int| 0 <= r < height && 0 <= c < width implies (#[trigger] at(once, width, r, c) is Alive
        <==> in_row_bar(r0, c0, r, c)) by {
        lemma_at_next(cells, width, height, r, c);
    }
}

/// A lone horizontal bar of three, away from the edges of a grid of at least
/// 5 by 5 cells, turns vertical after one step and back after two.
pub proof fn lemma_blinker(cells: Seq<Cell>, width: int, height: int, r0: int, c0: int)
    requires
        width >= 5,
        height >= 5,
        1 <= r0 && r0 + 1 < height,
        1 <= c0 && c0 + 1 < width,
        shows(cells, width, height, |r: int, c: int| in_row_bar(r0, c0, r, c)),
    ensures
        shows(
            next_generation(cells, width, height),
            width,
            height,
            |r: int, c: int| in_column_bar(r0, c0, r, c),
        ),
        next_generation(next_generation(cells, width, height), width, height) == cells,
{
    let once = next_generation(cells, width, height);
    lemma_row_bar_step(cells, width, height, r0, c0);
    lemma_column_bar_step(once, width, height, r0, c0);
    let twice = next_generation(once, width, height);
    lemma_shows_unique(twice, cells, width, height, |r: int, c: int| in_row_bar(r0, c0, r, c));
}

} // verus!
