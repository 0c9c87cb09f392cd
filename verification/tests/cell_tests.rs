use cell_sim::cell::Cell;
use cell_sim::field::Field;
use cell_sim::genome::{GENOME_CAPACITY, UNIT};
use cell_sim::scoring::score;

fn cell(energy: u16, weights: Vec<u32>) -> Cell {
    Cell::with_genome(energy, weights).unwrap()
}

#[test]
fn new_cell_is_alive_and_full() {
    let c = Cell::new();
    assert!(!c.died());
    assert_eq!(c.energy(), 100);
    assert_eq!(c.energy(), Field::MAX_ENERGY);
    assert!(c.weights().is_empty());
}

#[test]
fn with_genome_takes_valid_parts() {
    let c = cell(37, vec![0, 500_000, UNIT]);
    assert!(!c.died());
    assert_eq!(c.energy(), 37);
    assert_eq!(c.weights(), &vec![0, 500_000, UNIT]);
    assert!(Cell::with_genome(0, Vec::new()).is_some());
    assert!(Cell::with_genome(100, vec![UNIT; GENOME_CAPACITY]).is_some());
}

#[test]
fn with_genome_refuses_too_much_energy() {
    assert!(Cell::with_genome(101, Vec::new()).is_none());
    assert!(Cell::with_genome(u16::MAX, Vec::new()).is_none());
}

#[test]
fn with_genome_refuses_a_weight_above_one() {
    assert!(Cell::with_genome(10, vec![0, UNIT + 1]).is_none());
    assert!(Cell::with_genome(10, vec![u32::MAX]).is_none());
}

#[test]
fn with_genome_refuses_a_genome_over_capacity() {
    assert!(Cell::with_genome(10, vec![0; GENOME_CAPACITY + 1]).is_none());
}

#[test]
fn take_energy_removes_the_amount() {
    let mut c = cell(50, Vec::new());
    assert_eq!(c.take_energy(20), 20);
    assert_eq!(c.energy(), 30);
    assert_eq!(c.take_energy(0), 0);
    assert_eq!(c.energy(), 30);
}

#[test]
fn take_energy_stops_at_zero() {
    let mut c = cell(7, Vec::new());
    assert_eq!(c.take_energy(10), 7);
    assert_eq!(c.energy(), 0);
    assert_eq!(c.take_energy(10), 0);
    assert_eq!(c.energy(), 0);
}

#[test]
fn take_energy_of_exactly_all_leaves_zero() {
    let mut c = cell(10, Vec::new());
    assert_eq!(c.take_energy(10), 10);
    assert_eq!(c.energy(), 0);
    assert!(!c.died());
}

#[test]
fn take_energy_returns_less_only_when_short() {
    for energy in 0u16..=100 {
        for amount in [0u16, 1, 2, 10, 50, 100, 101, u16::MAX] {
            let mut c = cell(energy, Vec::new());
            let removed = c.take_energy(amount);
            assert_eq!(removed < amount, energy < amount);
            assert_eq!(removed + c.energy(), energy);
        }
    }
}

#[test]
fn give_energy_adds_the_amount() {
    let mut c = cell(50, Vec::new());
    c.give_energy(20);
    assert_eq!(c.energy(), 70);
    c.give_energy(0);
    assert_eq!(c.energy(), 70);
}

#[test]
fn give_energy_stops_at_the_cap() {
    let mut c = cell(95, Vec::new());
    c.give_energy(20);
    assert_eq!(c.energy(), 100);
    c.give_energy(1);
    assert_eq!(c.energy(), 100);
    let mut d = cell(0, Vec::new());
    d.give_energy(u16::MAX);
    assert_eq!(d.energy(), 100);
}

#[test]
fn give_energy_never_exceeds_the_cap() {
    for energy in 0u16..=100 {
        for amount in [0u16, 1, 5, 10, 99, 100, 101, u16::MAX] {
            let mut c = cell(energy, Vec::new());
            c.give_energy(amount);
            assert!(c.energy() <= Field::MAX_ENERGY);
            assert!(c.energy() >= energy);
            let expected = (energy as u32 + amount as u32).min(100) as u16;
            assert_eq!(c.energy(), expected);
        }
    }
}

#[test]
fn die_is_permanent_and_keeps_the_rest() {
    let mut c = cell(12, vec![1, 2, 3]);
    c.die();
    assert!(c.died());
    assert_eq!(c.energy(), 12);
    assert_eq!(c.weights(), &vec![1, 2, 3]);
    c.die();
    assert!(c.died());
    c.give_energy(5);
    assert!(c.died());
}

#[test]
fn divide_halves_the_energy() {
    let mut parent = cell(80, vec![100_000; 129]);
    let child = parent.divide();
    assert_eq!(parent.energy(), 40);
    assert_eq!(child.energy(), 40);
    assert!(!child.died());
    assert_eq!(parent.energy() + child.energy(), 80);
}

#[test]
fn divide_rounds_an_odd_energy_down() {
    let mut parent = cell(99, Vec::new());
    let child = parent.divide();
    assert_eq!(parent.energy(), 49);
    assert_eq!(child.energy(), 49);
    let mut last = cell(1, Vec::new());
    let none = last.divide();
    assert_eq!(last.energy(), 0);
    assert_eq!(none.energy(), 0);
}

#[test]
fn divide_keeps_the_parent_genome() {
    let genome: Vec<u32> = (0..129).map(|i| i * 5_000).collect();
    let mut parent = cell(100, genome.clone());
    let _child = parent.divide();
    assert_eq!(parent.weights(), &genome);
    assert!(!parent.died());
}

#[test]
fn divide_gives_a_mutated_copy() {
    let genome: Vec<u32> = vec![0, 100_000, 500_000, 900_000, UNIT];
    for _ in 0..200 {
        let mut parent = cell(100, genome.clone());
        let child = parent.divide();
        assert_eq!(child.weights().len(), genome.len());
        for i in 0..genome.len() {
            let w = child.weights()[i];
            assert!(w <= UNIT);
            let gap = if w >= genome[i] { w - genome[i] } else { genome[i] - w };
            assert!(gap <= Field::MUTATION_SCALE);
        }
    }
}

#[test]
fn divide_of_a_tombstone_gives_a_live_child() {
    let mut parent = cell(10, Vec::new());
    parent.die();
    let child = parent.divide();
    assert!(parent.died());
    assert!(!child.died());
    assert_eq!(child.energy(), 5);
}

#[test]
fn get_died_is_one_for_alive_and_zero_for_died() {
    let mut c = Cell::new();
    assert_eq!(c.get_died(), UNIT);
    c.die();
    assert_eq!(c.get_died(), 0);
}

#[test]
fn get_energy_is_the_fraction_of_the_cap() {
    assert_eq!(cell(0, Vec::new()).get_energy(), 0);
    assert_eq!(cell(1, Vec::new()).get_energy(), 10_000);
    assert_eq!(cell(50, Vec::new()).get_energy(), 500_000);
    assert_eq!(cell(99, Vec::new()).get_energy(), 990_000);
    assert_eq!(cell(100, Vec::new()).get_energy(), UNIT);
}

#[test]
fn get_dna_is_the_checksum_of_the_genome() {
    assert_eq!(Cell::new().get_dna(), 0);
    assert_eq!(cell(5, vec![UNIT, 0]).get_dna(), 200_000);
    assert_eq!(cell(5, vec![100_000, 200_000, 300_000]).get_dna(), 250_000);
}

#[test]
fn update_grows_the_genome_once() {
    let mut c = Cell::new();
    let input = vec![UNIT; 17];
    let first = c.update(input.clone(), 9);
    assert_eq!(first.len(), 9);
    assert_eq!(c.weights().len(), 129);
    assert!(c.weights().iter().all(|&w| w <= UNIT));
    let grown = c.weights().clone();
    let second = c.update(input.clone(), 9);
    assert_eq!(c.weights(), &grown);
    assert_eq!(second, first);
    assert_eq!(first, score(&input, &grown, 9));
    assert_eq!(c.energy(), 100);
    assert!(!c.died());
}

#[test]
fn update_keeps_the_weights_it_has() {
    let mut c = cell(60, vec![123_456; 10]);
    let output = c.update(vec![UNIT; 17], 9);
    assert_eq!(c.weights().len(), 129);
    assert_eq!(&c.weights()[..10], &[123_456; 10]);
    assert_eq!(output[0], 123_456);
    assert_eq!(c.energy(), 60);
}

#[test]
fn update_with_a_full_genome_is_the_score() {
    let genome: Vec<u32> = (0..129).map(|i| (i * 7_700) % (UNIT + 1)).collect();
    let mut c = cell(100, genome.clone());
    let input: Vec<u32> = (0..17).map(|i| i * 50_000).collect();
    let output = c.update(input.clone(), 9);
    assert_eq!(c.weights(), &genome);
    assert_eq!(output, score(&input, &genome, 9));
}

#[test]
fn update_with_nothing_to_score_leaves_the_genome() {
    let mut c = Cell::new();
    assert_eq!(c.update(Vec::new(), 9), vec![0; 9]);
    assert!(c.weights().is_empty());
    assert_eq!(c.update(vec![UNIT; 17], 0), Vec::<u32>::new());
    assert!(c.weights().is_empty());
    assert_eq!(c.update(vec![UNIT; 17], 1), vec![0; 1].iter().map(|_| c.weights()[0]).collect::<Vec<u32>>());
    assert_eq!(c.weights().len(), 1);
}

#[test]
fn divide_with_hands_the_genome_to_the_child() {
    let mut parent = cell(81, vec![1, 2, 3]);
    let child = parent.divide_with(vec![UNIT, 0]);
    assert_eq!(parent.energy(), 40);
    assert_eq!(parent.weights(), &vec![1, 2, 3]);
    assert_eq!(child.energy(), 40);
    assert!(!child.died());
    assert_eq!(child.weights(), &vec![UNIT, 0]);
}

#[test]
fn settle_marks_a_cell_without_energy_as_died() {
    let mut spent = cell(0, Vec::new());
    assert!(!spent.died());
    spent.settle();
    assert!(spent.died());
    assert_eq!(spent.energy(), 0);
    let mut fine = cell(1, vec![7]);
    fine.settle();
    assert!(!fine.died());
    assert_eq!(fine.energy(), 1);
    assert_eq!(fine.weights(), &vec![7]);
}

#[test]
fn take_energy_leaves_death_to_settle() {
    let mut c = cell(3, Vec::new());
    assert_eq!(c.take_energy(3), 3);
    assert!(!c.died());
    c.settle();
    assert!(c.died());
}
