use convida::seed::{create_cells, glider, random};
use convida::{Cell, Seed, Universe};

fn coins(n: usize, alive_every: usize) -> Vec<bool> {
    (0..n).map(|i| i % alive_every == 0).collect()
}

/// A `width` by `height` universe, all dead but the listed cells.
fn universe_with(width: u32, height: u32, alive: &[(u32, u32)]) -> Universe {
    let mut u = Universe::new(&coins(128 * 128, 2));
    u.set_width(width);
    u.set_height(height);
    u.set_cells(alive);
    u
}

fn alive_cells(u: &Universe) -> Vec<(u32, u32)> {
    let mut out = Vec::new();
    for (i, c) in u.get_cells().iter().enumerate() {
        if *c == Cell::Alive {
            out.push((i as u32 / u.width(), i as u32 % u.width()));
        }
    }
    out
}

#[test]
fn new_is_128_square_seeded_from_coins() {
    let c = coins(128 * 128, 3);
    let u = Universe::new(&c);
    assert_eq!(u.width(), 128);
    assert_eq!(u.height(), 128);
    assert_eq!(u.get_cells().len(), 128 * 128);
    for (i, cell) in u.get_cells().iter().enumerate() {
        let want = if i % 3 == 0 { Cell::Alive } else { Cell::Dead };
        assert_eq!(*cell, want);
    }
}

#[test]
fn set_size_returns_fresh_grid_and_receiver_takes_it() {
    let mut u = universe_with(4, 4, &[(1, 1)]);
    let fresh = u.set_size(3, 2, &[true, false, false, true, true, false]);
    assert_eq!(fresh.width(), 3);
    assert_eq!(fresh.height(), 2);
    assert_eq!(
        fresh.get_cells(),
        &[Cell::Alive, Cell::Dead, Cell::Dead, Cell::Alive, Cell::Alive, Cell::Dead]
    );
    assert_eq!(u.width(), 3);
    assert_eq!(u.height(), 2);
    assert_eq!(u.get_cells(), fresh.get_cells());
    assert_eq!(u.get_cells().len(), 6);
}

#[test]
fn live_cell_with_two_or_three_neighbours_survives() {
    // (2,2) has two live neighbours
    let mut u = universe_with(6, 6, &[(2, 2), (1, 1), (3, 3)]);
    u.tick();
    assert_eq!(u.get_cells()[2 * 6 + 2], Cell::Alive);
    // (2,2) has three live neighbours
    let mut u = universe_with(6, 6, &[(2, 2), (1, 1), (3, 3), (1, 3)]);
    u.tick();
    assert_eq!(u.get_cells()[2 * 6 + 2], Cell::Alive);
}

#[test]
fn live_cell_with_few_or_many_neighbours_dies() {
    let mut u = universe_with(6, 6, &[(2, 2)]);
    u.tick();
    assert_eq!(u.get_cells()[2 * 6 + 2], Cell::Dead);
    let mut u = universe_with(6, 6, &[(2, 2), (1, 1)]);
    u.tick();
    assert_eq!(u.get_cells()[2 * 6 + 2], Cell::Dead);
    let mut u = universe_with(6, 6, &[(2, 2), (1, 1), (1, 2), (1, 3), (2, 1)]);
    u.tick();
    assert_eq!(u.get_cells()[2 * 6 + 2], Cell::Dead);
}

#[test]
fn dead_cell_with_three_neighbours_is_born() {
    let mut u = universe_with(6, 6, &[(1, 1), (1, 2), (1, 3)]);
    u.tick();
    assert_eq!(u.get_cells()[2 * 6 + 2], Cell::Alive);
    let mut u = universe_with(6, 6, &[(1, 1), (1, 3)]);
    u.tick();
    assert_eq!(u.get_cells()[2 * 6 + 2], Cell::Dead);
}

#[test]
fn block_is_a_still_life() {
    let block = [(1, 1), (1, 2), (2, 1), (2, 2)];
    let mut u = universe_with(6, 6, &block);
    let before: Vec<Cell> = u.get_cells().to_vec();
    u.tick();
    assert_eq!(u.get_cells(), before.as_slice());
}

#[test]
fn blinker_oscillates_with_period_two() {
    let mut u = universe_with(5, 5, &[(2, 1), (2, 2), (2, 3)]);
    u.tick();
    assert_eq!(alive_cells(&u), vec![(1, 2), (2, 2), (3, 2)]);
    u.tick();
    assert_eq!(alive_cells(&u), vec![(2, 1), (2, 2), (2, 3)]);
}

#[test]
fn neighbours_wrap_around_the_torus() {
    // (0,0) sees (4,4), (4,0) and (0,4) across the edges and is born.
    let mut u = universe_with(5, 5, &[(4, 4), (4, 0), (0, 4)]);
    u.tick();
    assert_eq!(u.get_cells()[0], Cell::Alive);
    // Without the far corner it has only two.
    let mut u = universe_with(5, 5, &[(4, 0), (0, 4)]);
    u.tick();
    assert_eq!(u.get_cells()[0], Cell::Dead);
}

#[test]
fn glider_seed_moves_diagonally_in_four_ticks() {
    let mut u = universe_with(8, 8, &[(0, 1), (1, 2), (2, 0), (2, 1), (2, 2)]);
    assert_eq!(u.get_cells(), glider(64, 8).as_slice());
    for _ in 0..4 {
        u.tick();
    }
    assert_eq!(alive_cells(&u), vec![(1, 2), (2, 3), (3, 1), (3, 2), (3, 3)]);
}

#[test]
fn clear_kills_every_cell() {
    let mut u = Universe::new(&coins(128 * 128, 2));
    u.clear();
    assert_eq!(u.width(), 128);
    assert_eq!(u.get_cells().len(), 128 * 128);
    assert!(u.get_cells().iter().all(|c| *c == Cell::Dead));
}

#[test]
fn reset_reseeds_from_coins() {
    let mut u = universe_with(3, 2, &[(0, 0)]);
    u.reset(&[false, true, true, false, false, true]);
    assert_eq!(u.width(), 3);
    assert_eq!(u.height(), 2);
    assert_eq!(
        u.get_cells(),
        &[Cell::Dead, Cell::Alive, Cell::Alive, Cell::Dead, Cell::Dead, Cell::Alive]
    );
}

#[test]
fn reset_with_fair_coins_is_about_half_alive() {
    let mut state: u64 = 0x2545_f491_4f6c_dd1d;
    let flips: Vec<bool> = (0..128 * 128)
        .map(|_| {
            state ^= state << 13;
            state ^= state >> 7;
            state ^= state << 17;
            state & 1 == 1
        })
        .collect();
    let mut u = Universe::new(&coins(128 * 128, 1));
    u.reset(&flips);
    let alive = u.get_cells().iter().filter(|c| **c == Cell::Alive).count();
    assert!(alive > 128 * 128 * 45 / 100 && alive < 128 * 128 * 55 / 100);
}

#[test]
fn set_width_and_set_height_kill_every_cell() {
    let mut u = Universe::new(&coins(128 * 128, 1));
    u.set_width(10);
    assert_eq!(u.width(), 10);
    assert_eq!(u.height(), 128);
    assert_eq!(u.get_cells().len(), 1280);
    assert!(u.get_cells().iter().all(|c| *c == Cell::Dead));
    u.set_cells(&[(3, 3)]);
    u.set_height(7);
    assert_eq!(u.height(), 7);
    assert_eq!(u.get_cells().len(), 70);
    assert!(u.get_cells().iter().all(|c| *c == Cell::Dead));
}

#[test]
fn pulsar_at_origin_matches_the_diagram() {
    let diagram = [
        "..OOO...OOO..",
        ".............",
        "O....O.O....O",
        "O....O.O....O",
        "O....O.O....O",
        "..OOO...OOO..",
        ".............",
        "..OOO...OOO..",
        "O....O.O....O",
        "O....O.O....O",
        "O....O.O....O",
        ".............",
        "..OOO...OOO..",
    ];
    let mut u = universe_with(15, 14, &[]);
    u.pulsar(0, 0);
    let cells = u.get_cells();
    let mut count = 0;
    for r in 0..14usize {
        for c in 0..15usize {
            let want = r < 13 && c < 13 && diagram[r].as_bytes()[c] == b'O';
            assert_eq!(cells[r * 15 + c] == Cell::Alive, want, "cell ({}, {})", r, c);
            if want {
                count += 1;
            }
        }
    }
    assert_eq!(count, 48);
}

#[test]
fn pulsar_wraps_around_the_flat_buffer() {
    // Anchored at (10, 10) of a 13 by 13 grid: the cell (0, 2) of the
    // pattern lands at flat index 10 * 13 + 10 + 2 = 142.
    let mut u = universe_with(13, 13, &[]);
    u.pulsar(10, 10);
    let alive = u.get_cells().iter().filter(|c| **c == Cell::Alive).count();
    assert_eq!(alive, 48);
    assert_eq!(u.get_cells()[142], Cell::Alive);
    // The pattern's cell (12, 10) lands at (130 + 10 + 156 + 10) % 169 = 137.
    assert_eq!(u.get_cells()[137], Cell::Alive);
}

#[test]
fn glider_stamp_wraps_around_the_flat_buffer() {
    let mut u = universe_with(5, 5, &[]);
    u.glider(3, 4);
    // 1 + 4 + 15 = 20, 2 + 4 + 20 = 26 % 25 = 1, then 4 + 25 = 29 % 25 = 4, 5, 6
    assert_eq!(alive_cells(&u), vec![(0, 1), (0, 4), (1, 0), (1, 1), (4, 0)]);
}

#[test]
fn cells_from_pattern_marks_listed_offsets() {
    let mut u = universe_with(4, 2, &[]);
    u.cells_from_pattern(&[0, 2], 3, 6, 1, 1, 8);
    // i = 3 (offset 0) -> 5, i = 5 (offset 2) -> 7
    assert_eq!(alive_cells(&u), vec![(1, 1), (1, 3)]);
}

#[test]
fn toggle_cell_flips_one_cell() {
    let mut u = universe_with(4, 4, &[(1, 2)]);
    u.toggle_cell(1, 2);
    u.toggle_cell(3, 0);
    assert_eq!(alive_cells(&u), vec![(3, 0)]);
}

#[test]
fn set_cells_marks_each_pair_alive() {
    let u = universe_with(4, 3, &[(0, 0), (2, 3), (0, 0), (1, 1)]);
    assert_eq!(alive_cells(&u), vec![(0, 0), (1, 1), (2, 3)]);
}

#[test]
fn cell_toggle_flips_state() {
    let mut c = Cell::Dead;
    c.toggle();
    assert_eq!(c, Cell::Alive);
    c.toggle();
    assert_eq!(c, Cell::Dead);
}

#[test]
fn render_draws_one_line_per_row() {
    let u = universe_with(3, 2, &[(0, 1), (1, 0), (1, 2)]);
    assert_eq!(u.render(), "\u{25fb}\u{25fc}\u{25fb}\n\u{25fc}\u{25fb}\u{25fc}\n");
}

#[test]
fn default_seed_marks_evens_and_sevens() {
    let cells = convida::seed::default(16);
    let alive: Vec<usize> = (0..16).filter(|i| cells[*i] == Cell::Alive).collect();
    assert_eq!(alive, vec![0, 2, 4, 6, 7, 8, 10, 12, 14]);
}

#[test]
fn glider_seed_has_five_cells_at_origin() {
    let cells = glider(20, 4);
    let alive: Vec<usize> = (0..20).filter(|i| cells[*i] == Cell::Alive).collect();
    assert_eq!(alive, vec![1, 6, 8, 9, 10]);
}

#[test]
fn random_seed_follows_coins() {
    assert_eq!(random(3, &[true, false, true, true]), vec![Cell::Alive, Cell::Dead, Cell::Alive]);
}

#[test]
fn create_cells_dispatches_on_seed() {
    assert_eq!(create_cells(Seed::Default, 9, 3, &[]), convida::seed::default(9));
    assert_eq!(create_cells(Seed::Glider, 9, 3, &[]), glider(9, 3));
    assert_eq!(create_cells(Seed::Random, 2, 1, &[false, true]), vec![Cell::Dead, Cell::Alive]);
}
