use vstd::prelude::*;
use vstd::arithmetic::div_mod::lemma_fundamental_div_mod_converse;
use vstd::string::*;

use crate::seed::{random, random_cells};

verus! {

/// The state of one cell.
#[derive(Clone, Copy, Debug, PartialEq, Eq, Structural)]
pub enum Cell {
    Dead,
    Alive,
}

/// The mathematical picture of a universe: its dimensions and its
/// row-major cell buffer.
pub struct Grid {
    pub width: nat,
    pub height: nat,
    pub cells: Seq<Cell>,
}

/// One for a live cell, zero for a dead one.
pub open spec fn live_value(c: Cell) -> int {
    if c is Alive { 1 } else { 0 }
}

/// The cell at `(r, c)` of a row-major buffer `width` cells wide.
pub open spec fn at(cells: Seq<Cell>, width: int, r: int, c: int) -> Cell {
    cells[r * width + c]
}

/// Whether `(r, c)` is alive, as a number.
pub open spec fn live(cells: Seq<Cell>, width: int, r: int, c: int) -> int {
    live_value(at(cells, width, r, c))
}

/// How many of the eight neighbours of `(r, c)` are alive, where rows wrap
/// modulo `height` and columns wrap modulo `width`.
pub open spec fn live_neighbors(cells: Seq<Cell>, width: int, height: int, r: int, c: int) -> int {
    let north = (r - 1) % height;
    let south = (r + 1) % height;
    let west = (c - 1) % width;
    let east = (c + 1) % width;
    live(cells, width, north, west) + live(cells, width, north, c) + live(cells, width, north, east)
        + live(cells, width, r, west) + live(cells, width, r, east) + live(cells, width, south, west)
        + live(cells, width, south, c) + live(cells, width, south, east)
}

/// The classic rule: a live cell survives with two or three live
/// neighbours, a dead cell is born with exactly three, all else is dead.
pub open spec fn next_state(c: Cell, n: int) -> Cell {
    match c {
        Cell::Alive => if n == 2 || n == 3 { Cell::Alive } else { Cell::Dead },
        Cell::Dead => if n == 3 { Cell::Alive } else { Cell::Dead },
    }
}

/// The generation that follows `cells`, every cell computed from the old
/// buffer alone.
pub open spec fn next_generation(cells: Seq<Cell>, width: int, height: int) -> Seq<Cell> {
    Seq::new(
        (width * height) as nat,
        |i: int| next_state(cells[i], live_neighbors(cells, width, height, i / width, i % width)),
    )
}

/// Where a pattern position `i` lands once shifted by `shift` and wrapped
/// around the whole flat buffer of `limit` cells.
pub open spec fn stamp_at(i: int, shift: int, limit: int) -> int {
    (i + shift) % limit
}

/// Whether flat index `j` is marked when every `i` in `min..max` whose offset
/// `i - min` is listed in `offsets` is stamped at `stamp_at(i, shift, limit)`.
pub open spec fn pattern_hit(offsets: Seq<u32>, min: int, max: int, shift: int, limit: int, j: int) -> bool {
    exists|i: int| min <= i < max && offsets.contains((i - min) as u32) && #[trigger] stamp_at(i, shift, limit) == j
}

/// The cells of the 13 by 13 pulsar, by row `r` and column `k`.
pub open spec fn pulsar_cell(r: int, k: int) -> bool {
    ||| (r == 0 || r == 5 || r == 7 || r == 12) && (k == 2 || k == 3 || k == 4 || k == 8 || k == 9 || k == 10)
    ||| (r == 2 || r == 3 || r == 4 || r == 8 || r == 9 || r == 10) && (k == 0 || k == 5 || k == 7 || k == 12)
}

/// Where the pulsar's cell `(r, k)` lands when anchored at `(row, col)`: the
/// anchor's flat index plus the offset, wrapped around the whole buffer.
pub open spec fn pulsar_index(width: int, height: int, row: int, col: int, r: int, k: int) -> int {
    (row * width + col + r * width + k) % (width * height)
}

/// Whether flat index `j` is marked by the first `rows` rows of a pulsar
/// anchored at `(row, col)`.
pub open spec fn pulsar_hit(width: int, height: int, row: int, col: int, rows: int, j: int) -> bool {
    exists|r: int, k: int|
        0 <= r < rows && 0 <= k < 13 && pulsar_cell(r, k) && #[trigger] pulsar_index(width, height, row, col, r, k) == j
}

/// Flat index `j` of `cells` is `old[j]`, or alive where `hit` holds.
pub open spec fn stamped(cells: Seq<Cell>, old: Seq<Cell>, hit: spec_fn(int) -> bool) -> bool {
    &&& cells.len() == old.len()
    &&& forall|j: int| 0 <= j < cells.len() ==> #[trigger] cells[j] == (if hit(j) { Cell::Alive } else { old[j] })
}

/// Where the glider's cell `(r, k)` lands when anchored at `(row, col)`:
/// the flat index wrapped around the whole buffer.
pub open spec fn glider_index(width: int, height: int, row: int, col: int, r: int, k: int) -> int {
    (k + col + width * (r + row)) % (width * height)
}

/// Whether flat index `j` is one of the five glider cells anchored at
/// `(row, col)`.
pub open spec fn glider_hit(width: int, height: int, row: int, col: int, j: int) -> bool {
    ||| j == glider_index(width, height, row, col, 0, 1)
    ||| j == glider_index(width, height, row, col, 1, 2)
    ||| j == glider_index(width, height, row, col, 2, 0)
    ||| j == glider_index(width, height, row, col, 2, 1)
    ||| j == glider_index(width, height, row, col, 2, 2)
}

/// Whether flat index `j` is named by one of the coordinates of `list`.
pub open spec fn listed(list: Seq<(u32, u32)>, width: int, j: int) -> bool {
    exists|t: int| 0 <= t < list.len() && #[trigger] list[t].0 * width + list[t].1 == j
}

/// The glyph shown for a cell.
pub open spec fn glyph(c: Cell) -> char {
    if c is Alive { '\u{25fc}' } else { '\u{25fb}' }
}

/// The glyphs of the first `n` cells of row `r`.
pub open spec fn row_text(cells: Seq<Cell>, width: int, r: int, n: nat) -> Seq<char>
    decreases n,
{
    if n == 0 {
        Seq::empty()
    } else {
        row_text(cells, width, r, (n - 1) as nat).push(glyph(at(cells, width, r, n - 1)))
    }
}

/// The first `rows` rows as text, each row's glyphs followed by a newline.
pub open spec fn grid_text(cells: Seq<Cell>, width: int, rows: nat) -> Seq<char>
    decreases rows,
{
    if rows == 0 {
        Seq::empty()
    } else {
        grid_text(cells, width, (rows - 1) as nat) + row_text(cells, width, rows - 1, width as nat).push('\n')
    }
}

/// A buffer of `len` dead cells.
pub open spec fn all_dead(len: nat) -> Seq<Cell> {
    Seq::new(len, |i: int| Cell::Dead)
}

/// Wrapping one step back or forward within `0..n` is the same as the
/// explicit edge tests.
pub proof fn lemma_wrap(x: int, n: int)
    requires
        0 <= x < n,
    ensures
        (x - 1) % n == if x == 0 { n - 1 } else { x - 1 },
        (x + 1) % n == if x == n - 1 { 0 } else { x + 1 },
{
    if x == 0 {
        lemma_fundamental_div_mod_converse(x - 1, n, -1, n - 1);
    } else {
        lemma_fundamental_div_mod_converse(x - 1, n, 0, x - 1);
    }
    if x == n - 1 {
        lemma_fundamental_div_mod_converse(x + 1, n, 1, 0);
    } else {
        lemma_fundamental_div_mod_converse(x + 1, n, 0, x + 1);
    }
}

/// A coordinate inside the grid has a flat index inside the buffer.
pub proof fn lemma_index_in_grid(r: int, c: int, width: int, height: int)
    requires
        0 <= r < height,
        0 <= c < width,
    ensures
        0 <= r * width + c < width * height,
{
    assert(0 <= r * width + c < width * height) by (nonlinear_arith)
        requires
            0 <= r < height,
            0 <= c < width,
    ;
}

/// The flat index `r * width + c` of an in-grid coordinate splits back
/// into `r` and `c`.
pub proof fn lemma_index_split(r: int, c: int, width: int)
    requires
        0 <= r,
        0 <= c < width,
    ensures
        (r * width + c) / width == r,
        (r * width + c) % width == c,
{
    lemma_fundamental_div_mod_converse(r * width + c, width, r, c);
}

/// Whether `x` is listed in `arr`.
fn contains(arr: &[u32], x: u32) -> (r: bool)
    ensures
        r == arr@.contains(x),
{
    let mut i: usize = 0;
    while i < arr.len()
        invariant
            i <= arr@.len(),
            forall|t: int| 0 <= t < i ==> arr@[t] != x,
        decreases arr@.len() - i,
    {
        if arr[i] == x {
            return true;
        }
        i = i + 1;
    }
    false
}

/// One row `r` of the pulsar, stamped by `cells_from_pattern` with the
/// offsets `arr` of that row, marks exactly the row's cells at their
/// `pulsar_index`.
proof fn lemma_pulsar_row(arr: Seq<u32>, width: int, height: int, row: int, col: int, r: int, j: int)
    requires
        width >= 13,
        height >= 1,
        0 <= r < 13,
        forall|k: u32| #[trigger] arr.contains(k) ==> k < 13 && pulsar_cell(r, k as int),
        forall|k: u32| k < 13 && pulsar_cell(r, k as int) ==> #[trigger] arr.contains(k),
    ensures
        pattern_hit(arr, 13 * r, 13 * r + 13, row * width + col + r * (width - 13), width * height, j)
            <==> exists|k: int| 0 <= k < 13 && pulsar_cell(r, k) && #[trigger] pulsar_index(width, height, row, col, r, k) == j,
{
    let shift = row * width + col + r * (width - 13);
    assert(13 * r + r * (width - 13) == r * width) by (nonlinear_arith);
    if pattern_hit(arr, 13 * r, 13 * r + 13, shift, width * height, j) {
        let i = choose|i: int| 13 * r <= i < 13 * r + 13 && arr.contains((i - 13 * r) as u32) && #[trigger] stamp_at(i, shift, width * height) == j;
        let k = i - 13 * r;
        assert(pulsar_index(width, height, row, col, r, k) == j);
    }
    if exists|k: int| 0 <= k < 13 && pulsar_cell(r, k) && #[trigger] pulsar_index(width, height, row, col, r, k) == j {
        let k = choose|k: int| 0 <= k < 13 && pulsar_cell(r, k) && #[trigger] pulsar_index(width, height, row, col, r, k) == j;
        let i = 13 * r + k;
        assert(arr.contains(k as u32));
        assert(stamp_at(i, shift, width * height) == j);
    }
}

/// Returns `len` dead cells.
fn dead_cells(len: u32) -> (r: Vec<Cell>)
    ensures
        r@ == all_dead(len as nat),
{
    let mut cells: Vec<Cell> = Vec::with_capacity(len as usize);
    let mut i: u32 = 0;
    while i < len
        invariant
            i <= len,
            cells@ == all_dead(i as nat),
        decreases len - i,
    {
        cells.push(Cell::Dead);
        i = i + 1;
        assert(cells@ =~= all_dead(i as nat));
    }
    cells
}

impl Cell {
    /// Flips a cell between dead and alive.
    pub fn toggle(&mut self)
        ensures
            *final(self) == (if *old(self) is Alive { Cell::Dead } else { Cell::Alive }),
    {
        *self = match *self {
            Cell::Dead => Cell::Alive,
            Cell::Alive => Cell::Dead,
        };
    }

    fn count(&self) -> (r: u8)
        ensures
            r as int == live_value(*self),
    {
        match self {
            Cell::Dead => 0,
            Cell::Alive => 1,
        }
    }
}

/// A toroidal grid of cells, stored row-major.
pub struct Universe {
    width: u32,
    height: u32,
    cells: Vec<Cell>,
}

impl View for Universe {
    type V = Grid;

    closed spec fn view(&self) -> Grid {
        Grid { width: self.width as nat, height: self.height as nat, cells: self.cells@ }
    }
}

impl Universe {
    /// The buffer holds exactly `width * height` cells, and that product
    /// fits the 32-bit dimensions.
    pub open spec fn wf(&self) -> bool {
        &&& self@.cells.len() == self@.width * self@.height
        &&& self@.width * self@.height <= u32::MAX
    }

    /// Advances the universe by one generation.
    pub fn tick(&mut self)
        requires
            old(self).wf(),
        ensures
            final(self).wf(),
            final(self)@.width == old(self)@.width,
            final(self)@.height == old(self)@.height,
            final(self)@.cells == next_generation(
                old(self)@.cells,
                old(self)@.width as int,
                old(self)@.height as int,
            ),
    {
        let ghost w = self.width as int;
        let ghost h = self.height as int;
        let ghost gen = next_generation(self.cells@, w, h);
        let mut next: Vec<Cell> = Vec::with_capacity(self.cells.len());
        let mut row: u32 = 0;
        while row < self.height
            invariant
                self.wf(),
                w == self.width,
                h == self.height,
                gen == next_generation(self.cells@, w, h),
                row <= h,
                next@.len() == row * w,
                forall|i: int| 0 <= i < next@.len() ==> next@[i] == gen[i],
            decreases h - row,
        {
            let mut col: u32 = 0;
            while col < self.width
                invariant
                    self.wf(),
                    w == self.width,
                    h == self.height,
                    gen == next_generation(self.cells@, w, h),
                    row < h,
                    col <= w,
                    next@.len() == row * w + col,
                    forall|i: int| 0 <= i < next@.len() ==> next@[i] == gen[i],
                decreases w - col,
            {
                proof {
                    lemma_index_in_grid(row as int, col as int, w, h);
                    lemma_index_split(row as int, col as int, w);
                }
                let idx = self.get_index(row, col);
                let cell = self.cells[idx];
                let live_neighbors = self.live_neighbor_count(row, col);
                let next_cell = match (cell, live_neighbors) {
                    // Too few neighbours: the cell dies.
                    (Cell::Alive, x) if x < 2 => Cell::Dead,
                    // Two or three neighbours: the cell lives on.
                    (Cell::Alive, 2) | (Cell::Alive, 3) => Cell::Alive,
                    // Too many neighbours: the cell dies.
                    (Cell::Alive, x) if x > 3 => Cell::Dead,
                    // Exactly three neighbours: a cell is born.
                    (Cell::Dead, 3) => Cell::Alive,
                    (otherwise, _) => otherwise,
                };
                next.push(next_cell);
                col = col + 1;
            }
            assert(row * w + w == (row + 1) * w) by (nonlinear_arith);
            row = row + 1;
        }
        assert(row * w == w * h) by (nonlinear_arith)
            requires
                row == h,
        ;
        assert(next@ =~= gen);
        self.cells = next;
    }

    /// The flat index of `(row, col)`.
    fn get_index(&self, row: u32, col: u32) -> (r: usize)
        requires
            row * self@.width + col <= u32::MAX,
        ensures
            r == row * self@.width + col,
    {
        assert(row * self.width <= row * self.width + col);
        (row * self.width + col) as usize
    }

    /// Counts the live neighbours of `(row, col)`, wrapping at every edge.
    #[verifier::rlimit(40)]
    fn live_neighbor_count(&self, row: u32, col: u32) -> (r: u8)
        requires
            self.wf(),
            row < self@.height,
            col < self@.width,
        ensures
            r as int == live_neighbors(
                self@.cells,
                self@.width as int,
                self@.height as int,
                row as int,
                col as int,
            ),
    {
        let ghost w = self.width as int;
        let ghost h = self.height as int;
        let north = if row == 0 { self.height - 1 } else { row - 1 };
        let south = if row == self.height - 1 { 0 } else { row + 1 };
        let west = if col == 0 { self.width - 1 } else { col - 1 };
        let east = if col == self.width - 1 { 0 } else { col + 1 };
        proof {
            lemma_wrap(row as int, h);
            lemma_wrap(col as int, w);
            lemma_index_in_grid(north as int, west as int, w, h);
            lemma_index_in_grid(north as int, col as int, w, h);
            lemma_index_in_grid(north as int, east as int, w, h);
            lemma_index_in_grid(row as int, west as int, w, h);
            lemma_index_in_grid(row as int, east as int, w, h);
            lemma_index_in_grid(south as int, west as int, w, h);
            lemma_index_in_grid(south as int, col as int, w, h);
            lemma_index_in_grid(south as int, east as int, w, h);
        }
        let mut count: u8 = 0;
        let nw = self.get_index(north, west);
        count = count + self.cells[nw].count();
        let n = self.get_index(north, col);
        count = count + self.cells[n].count();
        let ne = self.get_index(north, east);
        count = count + self.cells[ne].count();
        let wi = self.get_index(row, west);
        count = count + self.cells[wi].count();
        let e = self.get_index(row, east);
        count = count + self.cells[e].count();
        let sw = self.get_index(south, west);
        count = count + self.cells[sw].count();
        let s = self.get_index(south, col);
        count = count + self.cells[s].count();
        let se = self.get_index(south, east);
        count = count + self.cells[se].count();
        count
    }

    /// Marks alive, for every `i` in `min..max` whose offset `i - min` is
    /// listed in `arr`, the cell at `(i + row_translate + col_translate) % limit`.
    pub fn cells_from_pattern(
        &mut self,
        arr: &[u32],
        min: u32,
        max: u32,
        row_translate: u32,
        col_translate: u32,
        limit: u32,
    )
        requires
            old(self).wf(),
            0 < limit <= old(self)@.cells.len(),
            forall|k: u32|
                #[trigger] arr@.contains(k) && min + k < max ==> min + k + row_translate + col_translate
                    <= u32::MAX,
        ensures
            final(self).wf(),
            final(self)@.width == old(self)@.width,
            final(self)@.height == old(self)@.height,
            stamped(
                final(self)@.cells,
                old(self)@.cells,
                |j: int|
                    pattern_hit(arr@, min as int, max as int, row_translate + col_translate, limit as int, j),
            ),
    {
        let ghost shift = row_translate + col_translate;
        let ghost start = self.cells@;
        let mut i: u32 = min;
        while i < max
            invariant
                self.wf(),
                self@.width == old(self)@.width,
                self@.height == old(self)@.height,
                0 < limit <= self@.cells.len(),
                start == old(self)@.cells,
                shift == row_translate + col_translate,
                min <= i,
                min <= max ==> i <= max,
                min > max ==> i == min,
                forall|k: u32|
                    #[trigger] arr@.contains(k) && min + k < max ==> min + k + row_translate + col_translate
                        <= u32::MAX,
                stamped(self@.cells, start, |j: int| pattern_hit(arr@, min as int, i as int, shift, limit as int, j)),
            decreases max - i,
        {
            let ghost before = self.cells@;
            if contains(arr, i - min) {
                let t = ((i + row_translate + col_translate) % limit) as usize;
                self.cells.set(t, Cell::Alive);
                assert forall|j: int| 0 <= j < self@.cells.len() implies #[trigger] self@.cells[j] == (if pattern_hit(arr@, min as int, i + 1, shift, limit as int, j) { Cell::Alive } else { start[j] }) by {
                    if j == t {
                        assert(stamp_at(i as int, shift, limit as int) == j);
                    } else {
                        assert(before[j] == self@.cells[j]);
                        if pattern_hit(arr@, min as int, i + 1, shift, limit as int, j) {
                            let w = choose|w: int| min <= w < i + 1 && arr@.contains((w - min) as u32) && #[trigger] stamp_at(w, shift, limit as int) == j;
                            assert(w != i);
                        }
                    }
                }
            } else {
                assert forall|j: int| 0 <= j < self@.cells.len() implies #[trigger] self@.cells[j] == (if pattern_hit(arr@, min as int, i + 1, shift, limit as int, j) { Cell::Alive } else { start[j] }) by {
                    if pattern_hit(arr@, min as int, i + 1, shift, limit as int, j) {
                        let w = choose|w: int| min <= w < i + 1 && arr@.contains((w - min) as u32) && #[trigger] stamp_at(w, shift, limit as int) == j;
                        assert(w != i);
                    }
                }
            }
            i = i + 1;
        }
        assert forall|j: int| 0 <= j < self@.cells.len() implies #[trigger] self@.cells[j] == (if pattern_hit(arr@, min as int, max as int, shift, limit as int, j) { Cell::Alive } else { start[j] }) by {
            if min > max {
                assert(!pattern_hit(arr@, min as int, i as int, shift, limit as int, j));
                assert(!pattern_hit(arr@, min as int, max as int, shift, limit as int, j));
            }
        }
    }

    /// Stamps a 13 by 13 pulsar anchored at `(row, col)`: each of its cells
    /// lands at the anchor's flat index plus its offset, wrapped around the
    /// whole buffer. Other cells are left as they are.
    pub fn pulsar(&mut self, row: u32, col: u32)
        requires
            old(self).wf(),
            old(self)@.width >= 13,
            old(self)@.height >= 1,
            row * old(self)@.width + col + 12 * old(self)@.width + 10 <= u32::MAX,
        ensures
            final(self).wf(),
            final(self)@.width == old(self)@.width,
            final(self)@.height == old(self)@.height,
            stamped(
                final(self)@.cells,
                old(self)@.cells,
                |j: int|
                    pulsar_hit(
                        old(self)@.width as int,
                        old(self)@.height as int,
                        row as int,
                        col as int,
                        13,
                        j,
                    ),
            ),
    {
        let top: Vec<u32> = vec![2, 3, 4, 8, 9, 10];
        let side: Vec<u32> = vec![0, 5, 7, 12];
        let none: Vec<u32> = Vec::new();
        proof {
            assert(top@[0] == 2 && top@[1] == 3 && top@[2] == 4 && top@[3] == 8 && top@[4] == 9 && top@[5] == 10);
            assert(side@[0] == 0 && side@[1] == 5 && side@[2] == 7 && side@[3] == 12);
        }
        let ghost w = self.width as int;
        let ghost h = self.height as int;
        let ghost start = self.cells@;
        let pulsar_width: u32 = 13;
        let pulsar_height: u32 = 13;
        let limit = self.width * self.height;
        assert(w * h > 0) by (nonlinear_arith)
            requires
                w >= 13,
                h >= 1,
        ;
        let mut idx: u32 = 0;
        while idx < pulsar_height
            invariant
                self.wf(),
                w == self@.width,
                h == self@.height,
                w >= 13,
                h >= 1,
                limit == w * h,
                limit > 0,
                start == old(self)@.cells,
                pulsar_width == 13,
                pulsar_height == 13,
                row * w + col + 12 * w + 10 <= u32::MAX,
                idx <= 13,
                top@ == seq![2u32, 3, 4, 8, 9, 10],
                side@ == seq![0u32, 5, 7, 12],
                none@ == Seq::<u32>::empty(),
                stamped(self@.cells, start, |j: int| pulsar_hit(w, h, row as int, col as int, idx as int, j)),
            decreases 13 - idx,
        {
            let ghost before = self.cells@;
            let start_i = idx * pulsar_width;
            let end_i = start_i + pulsar_width;
            proof {
                assert(row * w <= row * w + col);
                assert(idx * (w - 13) <= 12 * w) by (nonlinear_arith)
                    requires
                        idx <= 12,
                        w >= 13,
                ;
                assert(13 * idx + idx * (w - 13) == idx * w) by (nonlinear_arith);
                assert(idx <= 10 ==> idx * w <= 10 * w) by (nonlinear_arith)
                    requires
                        w >= 13,
                ;
                assert(idx * w <= 12 * w) by (nonlinear_arith)
                    requires
                        idx <= 12,
                        w >= 13,
                ;
            }
            let row_translate = row * self.width;
            let col_translate = col + idx * (self.width - pulsar_width);
            let ghost arr: Seq<u32>;
            if idx == 0 || idx == 5 || idx == 7 || idx == 12 {
                // rows with the horizontal bars
                proof { arr = top@; }
                self.cells_from_pattern(top.as_slice(), start_i, end_i, row_translate, col_translate, limit);
            } else if idx == 1 || idx == 6 || idx == 11 {
                // blank rows
                proof { arr = none@; }
                self.cells_from_pattern(none.as_slice(), start_i, end_i, row_translate, col_translate, limit);
            } else {
                // rows with the vertical bars
                proof { arr = side@; }
                self.cells_from_pattern(side.as_slice(), start_i, end_i, row_translate, col_translate, limit);
            }
            assert forall|j: int| 0 <= j < self@.cells.len() implies #[trigger] self@.cells[j] == (if pulsar_hit(w, h, row as int, col as int, idx + 1, j) { Cell::Alive } else { start[j] }) by {
                lemma_pulsar_row(arr, w, h, row as int, col as int, idx as int, j);
                if pulsar_hit(w, h, row as int, col as int, idx + 1, j) && !pulsar_hit(w, h, row as int, col as int, idx as int, j) {
                    let (r, k) = choose|r: int, k: int| 0 <= r < idx + 1 && 0 <= k < 13 && pulsar_cell(r, k) && #[trigger] pulsar_index(w, h, row as int, col as int, r, k) == j;
                    assert(r == idx);
                }
                if pulsar_hit(w, h, row as int, col as int, idx as int, j) {
                    let (r, k) = choose|r: int, k: int| 0 <= r < idx && 0 <= k < 13 && pulsar_cell(r, k) && #[trigger] pulsar_index(w, h, row as int, col as int, r, k) == j;
                    assert(pulsar_index(w, h, row as int, col as int, r, k) == j);
                }
                if exists|k: int| 0 <= k < 13 && pulsar_cell(idx as int, k) && #[trigger] pulsar_index(w, h, row as int, col as int, idx as int, k) == j {
                    let k = choose|k: int| 0 <= k < 13 && pulsar_cell(idx as int, k) && #[trigger] pulsar_index(w, h, row as int, col as int, idx as int, k) == j;
                    assert(pulsar_index(w, h, row as int, col as int, idx as int, k) == j);
                }
            }
            idx = idx + 1;
        }
    }

    /// A 128 by 128 universe, each cell alive exactly where its coin flip in
    /// `coins` came up true.
    pub fn new(coins: &[bool]) -> (r: Universe)
        requires
            128 * 128 <= coins@.len(),
        ensures
            r.wf(),
            r@.width == 128,
            r@.height == 128,
            r@.cells == random_cells(128 * 128, coins@),
    {
        let width: u32 = 128;
        let height: u32 = 128;
        let size = (width * height) as usize;
        let cells = random(size, coins);
        Universe { width, height, cells }
    }

    /// Returns a fresh `width` by `height` universe seeded from `coins`, one
    /// fair coin flip per cell. The receiver takes the same dimensions and
    /// the same cells.
    pub fn set_size(&mut self, width: u32, height: u32, coins: &[bool]) -> (r: Universe)
        requires
            width * height <= u32::MAX,
            width * height <= coins@.len(),
        ensures
            r.wf(),
            r@.width == width,
            r@.height == height,
            r@.cells == random_cells((width * height) as nat, coins@),
            final(self)@ == r@,
    {
        self.width = width;
        self.height = height;
        let size = (width * height) as usize;
        self.cells = random(size, coins);
        let cells = random(size, coins);
        Universe { width, height, cells }
    }

    /// The text picture of the grid: one line per row, one glyph per cell.
    pub fn render(&self) -> (r: String)
        requires
            self.wf(),
            self@.width > 0,
        ensures
            r@ == grid_text(self@.cells, self@.width as int, self@.height as nat),
    {
        let ghost w = self.width as int;
        let ghost h = self.height as int;
        let alive = "\u{25fc}";
        let dead = "\u{25fb}";
        let newline = "\n";
        proof {
            reveal_strlit("\u{25fc}");
            reveal_strlit("\u{25fb}");
            reveal_strlit("\n");
        }
        let mut text = String::new();
        let mut row: u32 = 0;
        while row < self.height
            invariant
                self.wf(),
                w == self@.width,
                h == self@.height,
                row <= h,
                alive@ == seq!['\u{25fc}'],
                dead@ == seq!['\u{25fb}'],
                newline@ == seq!['\n'],
                text@ == grid_text(self@.cells, w, row as nat),
            decreases h - row,
        {
            let mut col: u32 = 0;
            while col < self.width
                invariant
                    self.wf(),
                    w == self@.width,
                    h == self@.height,
                    row < h,
                    col <= w,
                    alive@ == seq!['\u{25fc}'],
                    dead@ == seq!['\u{25fb}'],
                    newline@ == seq!['\n'],
                    text@ == grid_text(self@.cells, w, row as nat) + row_text(self@.cells, w, row as int, col as nat),
                decreases w - col,
            {
                proof {
                    lemma_index_in_grid(row as int, col as int, w, h);
                }
                let idx = self.get_index(row, col);
                if self.cells[idx] == Cell::Dead {
                    text.append(dead);
                } else {
                    text.append(alive);
                }
                col = col + 1;
                assert(text@ =~= grid_text(self@.cells, w, row as nat) + row_text(self@.cells, w, row as int, col as nat));
            }
            text.append(newline);
            row = row + 1;
            assert(text@ =~= grid_text(self@.cells, w, row as nat));
        }
        text
    }

    /// The number of columns.
    pub fn width(&self) -> (r: u32)
        ensures
            r == self@.width,
    {
        self.width
    }

    /// The number of rows.
    pub fn height(&self) -> (r: u32)
        ensures
            r == self@.height,
    {
        self.height
    }

    /// Sets the number of columns and makes every cell dead.
    pub fn set_width(&mut self, width: u32)
        requires
            width * old(self)@.height <= u32::MAX,
        ensures
            final(self).wf(),
            final(self)@.width == width,
            final(self)@.height == old(self)@.height,
            final(self)@.cells == all_dead((width * old(self)@.height) as nat),
    {
        self.width = width;
        self.cells = dead_cells(width * self.height);
    }

    /// Sets the number of rows and makes every cell dead.
    pub fn set_height(&mut self, height: u32)
        requires
            old(self)@.width * height <= u32::MAX,
        ensures
            final(self).wf(),
            final(self)@.width == old(self)@.width,
            final(self)@.height == height,
            final(self)@.cells == all_dead((old(self)@.width * height) as nat),
    {
        self.height = height;
        self.cells = dead_cells(self.width * height);
    }

    /// Flips the cell at `(row, col)`.
    pub fn toggle_cell(&mut self, row: u32, col: u32)
        requires
            old(self).wf(),
            row < old(self)@.height,
            col < old(self)@.width,
        ensures
            final(self).wf(),
            final(self)@.width == old(self)@.width,
            final(self)@.height == old(self)@.height,
            final(self)@.cells == old(self)@.cells.update(
                row * old(self)@.width + col,
                if old(self)@.cells[row * old(self)@.width + col] is Alive { Cell::Dead } else { Cell::Alive },
            ),
    {
        proof {
            lemma_index_in_grid(row as int, col as int, self@.width as int, self@.height as int);
        }
        let idx = self.get_index(row, col);
        let mut c = self.cells[idx];
        c.toggle();
        self.cells.set(idx, c);
    }

    /// Re-seeds every cell from `coins`, one fair coin flip per cell,
    /// keeping the dimensions.
    pub fn reset(&mut self, coins: &[bool])
        requires
            old(self).wf(),
            old(self)@.cells.len() <= coins@.len(),
        ensures
            final(self).wf(),
            final(self)@.width == old(self)@.width,
            final(self)@.height == old(self)@.height,
            final(self)@.cells == random_cells(old(self)@.cells.len(), coins@),
    {
        let size = (self.width * self.height) as usize;
        self.cells = random(size, coins);
    }

    /// Makes every cell dead, keeping the dimensions.
    pub fn clear(&mut self)
        requires
            old(self).wf(),
        ensures
            final(self).wf(),
            final(self)@.width == old(self)@.width,
            final(self)@.height == old(self)@.height,
            final(self)@.cells == all_dead(old(self)@.cells.len()),
    {
        self.cells = dead_cells(self.width * self.height);
    }

    /// Stamps a glider anchored at `(row, col)`: each of its five cells lands
    /// at its flat index wrapped around the whole buffer. Other cells are left
    /// as they are.
    pub fn glider(&mut self, row: u32, col: u32)
        requires
            old(self).wf(),
            old(self)@.width >= 1,
            old(self)@.height >= 1,
            2 + col + old(self)@.width * (2 + row) <= u32::MAX,
        ensures
            final(self).wf(),
            final(self)@.width == old(self)@.width,
            final(self)@.height == old(self)@.height,
            stamped(
                final(self)@.cells,
                old(self)@.cells,
                |j: int| glider_hit(old(self)@.width as int, old(self)@.height as int, row as int, col as int, j),
            ),
    {
        let ghost w = self.width as int;
        let ghost h = self.height as int;
        let ghost start = self.cells@;
        let limit = self.width * self.height;
        proof {
            assert(w * h > 0) by (nonlinear_arith)
                requires
                    w >= 1,
                    h >= 1,
            ;
            let r = row as int;
            assert(w * r <= w * (1 + r)) by (nonlinear_arith)
                requires
                    w >= 1,
                    r >= 0,
            ;
            assert(w * (1 + r) <= w * (2 + r)) by (nonlinear_arith)
                requires
                    w >= 1,
                    r >= 0,
            ;
            assert(2 + r <= w * (2 + r)) by (nonlinear_arith)
                requires
                    w >= 1,
                    r >= 0,
            ;
        }
        let width = self.width;
        self.cells.set(((1 + col + width * (0 + row)) % limit) as usize, Cell::Alive);
        self.cells.set(((2 + col + width * (1 + row)) % limit) as usize, Cell::Alive);
        let mut i: u32 = 0;
        while i < 3
            invariant
                self.wf(),
                self@.width == w,
                self@.height == h,
                width == w,
                limit == w * h,
                limit > 0,
                w * (1 + row) <= w * (2 + row),
                2 + row <= w * (2 + row),
                2 + col + w * (2 + row) <= u32::MAX,
                i <= 3,
                stamped(
                    self@.cells,
                    start,
                    |j: int|
                        j == glider_index(w, h, row as int, col as int, 0, 1) || j == glider_index(w, h, row as int, col as int, 1, 2)
                            || exists|k: int| 0 <= k < i && j == #[trigger] glider_index(w, h, row as int, col as int, 2, k),
                ),
            decreases 3 - i,
        {
            let ghost before = self.cells@;
            let t = ((i + col + width * (2 + row)) % limit) as usize;
            self.cells.set(t, Cell::Alive);
            assert forall|j: int| 0 <= j < self@.cells.len() implies #[trigger] self@.cells[j] == (if j == glider_index(w, h, row as int, col as int, 0, 1) || j == glider_index(w, h, row as int, col as int, 1, 2) || exists|k: int| 0 <= k < i + 1 && j == #[trigger] glider_index(w, h, row as int, col as int, 2, k) { Cell::Alive } else { start[j] }) by {
                if j == t {
                    assert(j == glider_index(w, h, row as int, col as int, 2, i as int));
                } else if exists|k: int| 0 <= k < i + 1 && j == #[trigger] glider_index(w, h, row as int, col as int, 2, k) {
                    let k = choose|k: int| 0 <= k < i + 1 && j == #[trigger] glider_index(w, h, row as int, col as int, 2, k);
                    assert(k != i);
                }
            }
            i = i + 1;
        }
        assert forall|j: int| 0 <= j < self@.cells.len() implies #[trigger] self@.cells[j] == (if glider_hit(w, h, row as int, col as int, j) { Cell::Alive } else { start[j] }) by {
            if j == glider_index(w, h, row as int, col as int, 2, 0) {
                assert(exists|k: int| 0 <= k < 3 && j == #[trigger] glider_index(w, h, row as int, col as int, 2, k));
            } else if j == glider_index(w, h, row as int, col as int, 2, 1) {
                assert(exists|k: int| 0 <= k < 3 && j == #[trigger] glider_index(w, h, row as int, col as int, 2, k));
            } else if j == glider_index(w, h, row as int, col as int, 2, 2) {
                assert(exists|k: int| 0 <= k < 3 && j == #[trigger] glider_index(w, h, row as int, col as int, 2, k));
            }
        }
    }

    /// The row-major cell buffer.
    pub fn get_cells(&self) -> (r: &[Cell])
        ensures
            r@ == self@.cells,
    {
        self.cells.as_slice()
    }

    /// Makes alive the cell at `(row, col)` for each pair of `cells`.
    pub fn set_cells(&mut self, cells: &[(u32, u32)])
        requires
            old(self).wf(),
            forall|t: int|
                0 <= t < cells@.len() ==> #[trigger] cells@[t].0 < old(self)@.height && cells@[t].1
                    < old(self)@.width,
        ensures
            final(self).wf(),
            final(self)@.width == old(self)@.width,
            final(self)@.height == old(self)@.height,
            stamped(final(self)@.cells, old(self)@.cells, |j: int| listed(cells@, old(self)@.width as int, j)),
    {
        let ghost w = self.width as int;
        let ghost start = self.cells@;
        let mut i: usize = 0;
        while i < cells.len()
            invariant
                self.wf(),
                w == self@.width,
                self@.height == old(self)@.height,
                start == old(self)@.cells,
                i <= cells@.len(),
                forall|t: int|
                    0 <= t < cells@.len() ==> #[trigger] cells@[t].0 < self@.height && cells@[t].1 < w,
                stamped(self@.cells, start, |j: int| listed(cells@.take(i as int), w, j)),
            decreases cells@.len() - i,
        {
            let (row, col) = cells[i];
            let ghost before = self.cells@;
            assert(cells@[i as int].0 < self@.height && cells@[i as int].1 < w);
            proof {
                lemma_index_in_grid(row as int, col as int, w, self@.height as int);
            }
            let idx = self.get_index(row, col);
            self.cells.set(idx, Cell::Alive);
            assert forall|j: int| 0 <= j < self@.cells.len() implies #[trigger] self@.cells[j] == (if listed(cells@.take(i + 1), w, j) { Cell::Alive } else { start[j] }) by {
                let pre = cells@.take(i as int);
                let post = cells@.take(i + 1);
                if listed(post, w, j) && j != idx {
                    let t = choose|t: int| 0 <= t < post.len() && #[trigger] post[t].0 * w + post[t].1 == j;
                    assert(pre[t] == post[t]);
                }
                if listed(pre, w, j) {
                    let t = choose|t: int| 0 <= t < pre.len() && #[trigger] pre[t].0 * w + pre[t].1 == j;
                    assert(pre[t] == post[t]);
                }
                if j == idx {
                    assert(post[i as int] == cells@[i as int]);
                }
            }
            i = i + 1;
        }
        assert(cells@.take(cells@.len() as int) =~= cells@);
    }
}

} // verus!
