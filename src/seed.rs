use vstd::prelude::*;

use crate::universe::Cell;

verus! {

/// The named generators that fill a fresh cell buffer.
#[derive(Clone, Copy, Debug, PartialEq, Eq)]
pub enum Seed {
    /// Alive at every even index and every multiple of seven.
    Default,
    /// A single glider at the origin, everything else dead.
    Glider,
    /// One independent coin flip per cell.
    Random,
}

/// Whether index `i` is alive in the striped default fill.
pub open spec fn default_alive(i: int) -> bool {
    i % 2 == 0 || i % 7 == 0
}

/// The striped default fill of `size` cells.
pub open spec fn default_cells(size: nat) -> Seq<Cell> {
    Seq::new(size, |i: int| if default_alive(i) { Cell::Alive } else { Cell::Dead })
}

/// Returns `size` cells, alive at every even index and every multiple of seven.
pub fn default(size: usize) -> (r: Vec<Cell>)
    ensures
        r@ == default_cells(size as nat),
{
    let mut cells: Vec<Cell> = Vec::with_capacity(size);
    let mut i: usize = 0;
    while i < size
        invariant
            i <= size,
            cells@ == default_cells(size as nat).take(i as int),
        decreases size - i,
    {
        let c = if i % 2 == 0 || i % 7 == 0 {
            Cell::Alive
        } else {
            Cell::Dead
        };
        cells.push(c);
        i = i + 1;
        assert(cells@ =~= default_cells(size as nat).take(i as int));
    }
    assert(cells@ =~= default_cells(size as nat));
    cells
}

/// Whether index `i` holds one of the glider's five cells when the glider
/// sits at the origin of a buffer `width` cells wide.
pub open spec fn glider_seed_alive(width: int, i: int) -> bool {
    i == 1 || i == width + 2 || i == 2 * width || i == 2 * width + 1 || i == 2 * width + 2
}

/// `size` cells, all dead but one glider at the origin.
pub open spec fn glider_cells(size: nat, width: int) -> Seq<Cell> {
    Seq::new(size, |i: int| if glider_seed_alive(width, i) { Cell::Alive } else { Cell::Dead })
}

/// `size` cells, alive exactly where the coin flip came up true.
pub open spec fn random_cells(size: nat, coins: Seq<bool>) -> Seq<Cell> {
    Seq::new(size, |i: int| if coins[i] { Cell::Alive } else { Cell::Dead })
}

/// The buffer that `seed` produces.
pub open spec fn seed_cells(seed: Seed, size: nat, width: int, coins: Seq<bool>) -> Seq<Cell> {
    match seed {
        Seed::Default => default_cells(size),
        Seed::Glider => glider_cells(size, width),
        Seed::Random => random_cells(size, coins),
    }
}

/// Fills `size` cells with the named generator. `coins` holds one fair coin
/// flip per cell and is read by the random generator only.
pub fn create_cells(seed: Seed, size: usize, width: usize, coins: &[bool]) -> (r: Vec<Cell>)
    requires
        seed is Glider ==> 2 * width + 2 < size,
        seed is Random ==> size <= coins@.len(),
    ensures
        r@ == seed_cells(seed, size as nat, width as int, coins@),
{
    match seed {
        Seed::Default => default(size),
        Seed::Glider => glider(size, width),
        Seed::Random => random(size, coins),
    }
}

/// Returns `size` dead cells with one glider whose top-left corner is at
/// the origin of a buffer `width` cells wide.
pub fn glider(size: usize, width: usize) -> (r: Vec<Cell>)
    requires
        2 * width + 2 < size,
    ensures
        r@ == glider_cells(size as nat, width as int),
{
    let mut cells: Vec<Cell> = Vec::with_capacity(size);
    let mut i: usize = 0;
    while i < size
        invariant
            i <= size,
            cells@ == Seq::new(i as nat, |t: int| Cell::Dead),
        decreases size - i,
    {
        cells.push(Cell::Dead);
        i = i + 1;
        assert(cells@ =~= Seq::new(i as nat, |t: int| Cell::Dead));
    }
    cells.set(1 + width * 0, Cell::Alive);
    cells.set(2 + width * 1, Cell::Alive);
    let mut k: usize = 0;
    while k < 3
        invariant
            2 * width + 2 < size,
            k <= 3,
            cells@.len() == size,
            forall|t: int|
                0 <= t < size ==> #[trigger] cells@[t] == (if t == 1 || t == width + 2 || (2 * width <= t
                    < 2 * width + k) { Cell::Alive } else { Cell::Dead }),
        decreases 3 - k,
    {
        cells.set(k + width * 2, Cell::Alive);
        k = k + 1;
    }
    assert(cells@ =~= glider_cells(size as nat, width as int));
    cells
}

/// Returns `size` cells, each alive exactly where its coin flip in `coins`
/// came up true.
pub fn random(size: usize, coins: &[bool]) -> (r: Vec<Cell>)
    requires
        size <= coins@.len(),
    ensures
        r@ == random_cells(size as nat, coins@),
{
    let mut cells: Vec<Cell> = Vec::with_capacity(size);
    let mut i: usize = 0;
    while i < size
        invariant
            i <= size,
            size <= coins@.len(),
            cells@ == random_cells(size as nat, coins@).take(i as int),
        decreases size - i,
    {
        if coins[i] {
            cells.push(Cell::Alive);
        } else {
            cells.push(Cell::Dead);
        }
        i = i + 1;
        assert(cells@ =~= random_cells(size as nat, coins@).take(i as int));
    }
    assert(cells@ =~= random_cells(size as nat, coins@));
    cells
}

} // verus!
