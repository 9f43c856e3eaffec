use chips::{
    compute_changes, moore_neighborhood_wrapping, simulate_step, Automata, Bits, ConwaysLife,
    LifeLike, Pattern,
};
use rand::Rng;

fn full_step(world: &[bool], size: (usize, usize)) -> Vec<bool> {
    (0..world.len())
        .map(|i| {
            let hood = moore_neighborhood_wrapping((i % size.0, i / size.0), size);
            let alive = hood
                .iter()
                .filter(|(x, y)| world[x + y * size.0])
                .count();
            ConwaysLife::simulate_with_logic(world[i], alive)
        })
        .collect()
}

fn bits_from(cells: &[bool]) -> Bits {
    let mut bits = Bits::new();
    for &c in cells {
        bits.push(c);
    }
    bits
}

fn run_generations<A: Automata>(rule: &A, size: (usize, usize), generations: usize) {
    let mut rng = rand::thread_rng();
    let n = size.0 * size.1;
    let start: Vec<bool> = (0..n).map(|_| rng.gen()).collect();
    let mut fresh = bits_from(&start);
    let mut stale = Bits::repeat(false, n);
    let mut changes = Bits::repeat(true, n);
    // First generation: every cell marked as changed.
    rule.update(&fresh, &mut stale, &changes, size);
    let mut expected = full_step(&start, size);
    assert_eq!(stale.to_vec(), expected);
    std::mem::swap(&mut fresh, &mut stale);
    for _ in 0..generations {
        simulate_step(rule, &fresh, &mut stale, &mut changes, size);
        expected = full_step(&expected, size);
        assert_eq!(stale.to_vec(), expected);
        std::mem::swap(&mut fresh, &mut stale);
    }
}

#[test]
fn incremental_matches_full_lifelike() {
    let rule = LifeLike::new("B3/S23").unwrap();
    for size in [(1, 1), (2, 3), (3, 3), (8, 6), (17, 11)] {
        for _ in 0..5 {
            run_generations(&rule, size, 8);
        }
    }
}

#[test]
fn incremental_matches_full_lookup() {
    let rule = ConwaysLife::new();
    for size in [(1, 4), (4, 4), (9, 7), (20, 13)] {
        for _ in 0..5 {
            run_generations(&rule, size, 8);
        }
    }
}

#[test]
fn blinker_oscillates() {
    let rule = ConwaysLife::new();
    let size = (5, 5);
    let blinker = Pattern::from_plaintext(&["OOO"]).unwrap();
    let mut fresh = Bits::repeat(false, 25);
    blinker.place(&mut fresh, size, (1, 2)).unwrap();
    let mut stale = Bits::repeat(false, 25);
    let mut changes = Bits::repeat(true, 25);
    rule.update(&fresh, &mut stale, &changes, size);
    let vertical: Vec<bool> = (0..25).map(|i| i % 5 == 2 && (1..4).contains(&(i / 5))).collect();
    assert_eq!(stale.to_vec(), vertical);
    std::mem::swap(&mut fresh, &mut stale);
    simulate_step(&rule, &fresh, &mut stale, &mut changes, size);
    let horizontal: Vec<bool> = (0..25).map(|i| i / 5 == 2 && (1..4).contains(&(i % 5))).collect();
    assert_eq!(stale.to_vec(), horizontal);
}

#[test]
fn untouched_cells_keep_target() {
    // No changes at all: the engine leaves the target as it was.
    let rule = LifeLike::new("B3/S23").unwrap();
    let world = bits_from(&[true; 9]);
    let mut target = bits_from(&[false, true, false, true, false, true, false, true, false]);
    let changes = Bits::repeat(false, 9);
    rule.update(&world, &mut target, &changes, (3, 3));
    assert_eq!(
        target.to_vec(),
        vec![false, true, false, true, false, true, false, true, false]
    );
}

#[test]
fn changes_are_xor() {
    let a = bits_from(&[true, false, true, false]);
    let b = bits_from(&[true, true, false, false]);
    let mut changes = Bits::repeat(true, 4);
    compute_changes(&a, &b, &mut changes);
    assert_eq!(changes.to_vec(), vec![false, true, true, false]);
}
