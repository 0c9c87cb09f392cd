use cell_sim::cell::Cell;
use cell_sim::coord::{key_x, key_y};
use cell_sim::field::Field;
use cell_sim::genome::UNIT;

/// A full genome that makes a cell without differing neighbours choose
/// the action at index `action` and the direction at index `towards`.
/// Only the last reading, which is positive after the metabolic cost,
/// meets a weight other than zero: output `j` reads it at position
/// `16 * j`.
fn policy(action: usize, towards: usize) -> Vec<u32> {
    let mut weights = vec![0; 129];
    if action > 0 {
        weights[16 * action] = UNIT;
    }
    if towards > 0 {
        weights[16 * (5 + towards)] = UNIT;
    }
    weights
}

const ENERGIZE: usize = 0;
const DIVIDE: usize = 1;
const EAT: usize = 2;
const MOVE: usize = 3;
const CHARGE: usize = 4;

const UP: usize = 0;
const LEFT: usize = 1;
const RIGHT: usize = 2;
const DOWN: usize = 3;

fn agent(energy: u16, action: usize, towards: usize) -> Cell {
    Cell::with_genome(energy, policy(action, towards)).unwrap()
}

fn energy_at(field: &Field, x: i64, y: i64) -> Option<u16> {
    field.get_cell(x, y).map(|c| c.energy())
}

fn total_energy(field: &Field) -> u32 {
    field.get_data().values().map(|c| c.energy() as u32).sum()
}

#[test]
fn turn_of_an_empty_slot_does_nothing() {
    let mut field = Field::empty(2, 2);
    field.set_cell(1, 1, agent(50, CHARGE, UP));
    field.take_turn(0, 0);
    assert_eq!(field.get_data().len(), 1);
    assert_eq!(energy_at(&field, 1, 1), Some(50));
}

#[test]
fn turn_of_a_tombstone_does_nothing() {
    let mut field = Field::empty(2, 2);
    let mut dead = agent(50, CHARGE, UP);
    dead.die();
    field.set_cell(0, 0, dead);
    field.take_turn(0, 0);
    assert_eq!(energy_at(&field, 0, 0), Some(50));
    assert!(field.get_cell(0, 0).unwrap().died());
}

#[test]
fn turn_that_uses_up_the_energy_kills() {
    let mut field = Field::empty(2, 2);
    field.set_cell(0, 0, Cell::with_genome(1, Vec::new()).unwrap());
    field.take_turn(0, 0);
    let c = field.get_cell(0, 0).unwrap();
    assert!(c.died());
    assert_eq!(c.energy(), 0);
    // It died before it could decide: the genome was not grown.
    assert!(c.weights().is_empty());
    assert_eq!(field.get_data().len(), 1);
}

#[test]
fn turn_of_a_cell_without_energy_kills() {
    let mut field = Field::empty(2, 2);
    field.set_cell(0, 0, agent(0, CHARGE, UP));
    field.take_turn(0, 0);
    let c = field.get_cell(0, 0).unwrap();
    assert!(c.died());
    assert_eq!(c.energy(), 0);
}

#[test]
fn turn_with_two_units_left_survives() {
    let mut field = Field::empty(2, 2);
    field.set_cell(0, 0, agent(2, CHARGE, UP));
    field.take_turn(0, 0);
    let c = field.get_cell(0, 0).unwrap();
    assert!(!c.died());
    assert_eq!(c.energy(), 6);
}

#[test]
fn first_turn_grows_the_genome() {
    let mut field = Field::empty(1, 1);
    field.set_cell(0, 0, Cell::new());
    field.take_turn(0, 0);
    let c = field.get_cell(0, 0).unwrap();
    assert_eq!(c.weights().len(), 129);
    assert!(c.weights().iter().all(|&w| w <= UNIT));
    assert!(!c.died());
    // Alone on the grid only Charge has an effect.
    assert!(c.energy() == 99 || c.energy() == 100);
    let grown = c.weights().clone();
    field.take_turn(0, 0);
    assert_eq!(field.get_cell(0, 0).unwrap().weights(), &grown);
}

#[test]
fn single_slot_grid_only_pays_the_cost() {
    for action in [ENERGIZE, DIVIDE, EAT, MOVE] {
        for towards in [UP, LEFT, RIGHT, DOWN] {
            let mut field = Field::empty(1, 1);
            field.set_cell(0, 0, agent(Field::MAX_ENERGY, action, towards));
            field.update();
            assert_eq!(field.get_data().len(), 1);
            let c = field.get_cell(0, 0).unwrap();
            assert_eq!(c.energy(), Field::MAX_ENERGY - Field::ENERGY_LOSS);
            assert_eq!(c.energy(), 99);
            assert!(!c.died());
            assert_eq!(c.weights(), &policy(action, towards));
        }
    }
}

#[test]
fn single_slot_grid_can_charge() {
    let mut field = Field::empty(1, 1);
    field.set_cell(0, 0, agent(100, CHARGE, UP));
    field.update();
    assert_eq!(energy_at(&field, 0, 0), Some(100));
    field.set_cell(0, 0, agent(50, CHARGE, UP));
    field.update();
    assert_eq!(energy_at(&field, 0, 0), Some(54));
}

#[test]
fn single_slot_grid_runs_down_and_dies() {
    let mut field = Field::empty(1, 1);
    field.set_cell(0, 0, agent(3, MOVE, LEFT));
    field.update();
    assert_eq!(energy_at(&field, 0, 0), Some(2));
    field.update();
    assert_eq!(energy_at(&field, 0, 0), Some(1));
    assert!(!field.get_cell(0, 0).unwrap().died());
    field.update();
    assert_eq!(energy_at(&field, 0, 0), Some(0));
    assert!(field.get_cell(0, 0).unwrap().died());
    field.update();
    assert_eq!(energy_at(&field, 0, 0), Some(0));
    assert_eq!(field.get_data().len(), 1);
}

#[test]
fn turn_moves_in_each_direction() {
    let targets = [(UP, 1, 2), (LEFT, 0, 1), (RIGHT, 2, 1), (DOWN, 1, 0)];
    for (towards, x, y) in targets {
        let mut field = Field::empty(3, 3);
        field.set_cell(1, 1, agent(50, MOVE, towards));
        field.take_turn(1, 1);
        assert!(field.get_cell(1, 1).is_none());
        assert_eq!(energy_at(&field, x, y), Some(47));
        assert_eq!(field.get_data().len(), 1);
    }
}

#[test]
fn turn_moves_around_the_edge() {
    let mut field = Field::empty(3, 3);
    field.set_cell(0, 0, agent(50, MOVE, LEFT));
    field.take_turn(0, 0);
    assert_eq!(energy_at(&field, 2, 0), Some(47));
    assert!(field.get_cell(0, 0).is_none());
    let mut field = Field::empty(3, 3);
    field.set_cell(0, 0, agent(50, MOVE, DOWN));
    field.take_turn(0, 0);
    assert_eq!(energy_at(&field, 0, 2), Some(47));
    assert!(field.get_cell(0, 0).is_none());
    let mut field = Field::empty(3, 3);
    field.set_cell(2, 2, agent(50, MOVE, RIGHT));
    field.take_turn(2, 2);
    assert_eq!(energy_at(&field, 0, 2), Some(47));
    assert!(field.get_cell(2, 2).is_none());
    let mut field = Field::empty(3, 3);
    field.set_cell(2, 2, agent(50, MOVE, UP));
    field.take_turn(2, 2);
    assert_eq!(energy_at(&field, 2, 0), Some(47));
    assert!(field.get_cell(2, 2).is_none());
}

#[test]
fn turn_eats_the_neighbour() {
    let mut field = Field::empty(3, 3);
    field.set_cell(0, 0, agent(50, EAT, RIGHT));
    field.set_cell(1, 0, agent(30, EAT, RIGHT));
    field.take_turn(0, 0);
    assert!(field.get_cell(0, 0).is_none());
    assert_eq!(energy_at(&field, 1, 0), Some(77));
    assert_eq!(field.get_data().len(), 1);
}

#[test]
fn turn_divides_into_the_free_slot() {
    let mut field = Field::empty(3, 3);
    field.set_cell(1, 1, agent(81, DIVIDE, RIGHT));
    field.take_turn(1, 1);
    assert_eq!(energy_at(&field, 1, 1), Some(40));
    assert_eq!(energy_at(&field, 2, 1), Some(40));
    assert_eq!(field.get_data().len(), 2);
    let parent = policy(DIVIDE, RIGHT);
    assert_eq!(field.get_cell(1, 1).unwrap().weights(), &parent);
    let child = field.get_cell(2, 1).unwrap();
    assert!(!child.died());
    assert_eq!(child.weights().len(), 129);
    for i in 0..129 {
        let w = child.weights()[i];
        assert!(w <= UNIT);
        let gap = if w >= parent[i] { w - parent[i] } else { parent[i] - w };
        assert!(gap <= Field::MUTATION_SCALE);
    }
}

#[test]
fn turn_energizes_the_neighbour() {
    let mut field = Field::empty(3, 3);
    field.set_cell(1, 1, agent(50, ENERGIZE, DOWN));
    field.set_cell(1, 0, agent(20, ENERGIZE, DOWN));
    field.take_turn(1, 1);
    assert_eq!(energy_at(&field, 1, 1), Some(37));
    assert_eq!(energy_at(&field, 1, 0), Some(30));
}

#[test]
fn turn_charges() {
    let mut field = Field::empty(3, 3);
    field.set_cell(1, 1, agent(50, CHARGE, LEFT));
    field.take_turn(1, 1);
    assert_eq!(energy_at(&field, 1, 1), Some(54));
}

#[test]
fn tick_visits_a_cell_again_where_it_moved_ahead() {
    // Columns are scanned from left to right: a cell that moves right is
    // met again in the next column, and so on around the ring.
    let mut field = Field::empty(4, 1);
    field.set_cell(0, 0, agent(50, MOVE, RIGHT));
    field.update();
    assert_eq!(field.get_data().len(), 1);
    assert_eq!(energy_at(&field, 0, 0), Some(38));
    // Rows are scanned from bottom to top within a column.
    let mut tall = Field::empty(1, 4);
    tall.set_cell(0, 0, agent(50, MOVE, UP));
    tall.update();
    assert_eq!(tall.get_data().len(), 1);
    assert_eq!(energy_at(&tall, 0, 0), Some(38));
}

#[test]
fn tick_does_not_visit_a_cell_again_where_it_moved_back() {
    let mut field = Field::empty(4, 1);
    field.set_cell(1, 0, agent(50, MOVE, LEFT));
    field.update();
    assert_eq!(field.get_data().len(), 1);
    assert_eq!(energy_at(&field, 0, 0), Some(47));
    let mut tall = Field::empty(1, 4);
    tall.set_cell(0, 2, agent(50, MOVE, DOWN));
    tall.update();
    assert_eq!(energy_at(&tall, 0, 1), Some(47));
}

#[test]
fn tick_lets_later_cells_see_earlier_moves() {
    // The cell at (0, 0) moves right into (1, 0) before the cell at
    // (2, 0) looks left: the latter finds its target taken.
    let mut field = Field::empty(4, 1);
    field.set_cell(0, 0, agent(50, CHARGE, UP));
    field.set_cell(2, 0, agent(50, MOVE, LEFT));
    field.update();
    assert_eq!(energy_at(&field, 0, 0), Some(54));
    assert_eq!(energy_at(&field, 1, 0), Some(47));
    assert!(field.get_cell(2, 0).is_none());
    let mut blocked = Field::empty(4, 1);
    blocked.set_cell(0, 0, agent(50, MOVE, RIGHT));
    blocked.set_cell(2, 0, agent(50, MOVE, LEFT));
    blocked.update();
    // (0, 0) moved to (1, 0), was met again there and found (2, 0)
    // taken; then (2, 0) found (1, 0) taken.
    assert_eq!(energy_at(&blocked, 1, 0), Some(46));
    assert_eq!(energy_at(&blocked, 2, 0), Some(49));
    assert_eq!(blocked.get_data().len(), 2);
}

#[test]
fn full_grid_keeps_its_population() {
    let mut field = Field::empty(3, 3);
    for x in 0..3 {
        for y in 0..3 {
            field.set_cell(x, y, agent(100, ENERGIZE, UP));
        }
    }
    field.update();
    assert_eq!(field.get_data().len(), 9);
    for x in 0..3 {
        assert_eq!(energy_at(&field, x, 0), Some(97));
        assert_eq!(energy_at(&field, x, 1), Some(87));
        assert_eq!(energy_at(&field, x, 2), Some(87));
    }
    assert_eq!(total_energy(&field), 813);
    assert!(field.get_data().values().all(|c| !c.died()));
    field.update();
    assert_eq!(field.get_data().len(), 9);
    for x in 0..3 {
        assert_eq!(energy_at(&field, x, 0), Some(94));
        assert_eq!(energy_at(&field, x, 1), Some(84));
        assert_eq!(energy_at(&field, x, 2), Some(84));
    }
}

#[test]
fn full_grid_blocks_moves_and_divisions() {
    for action in [MOVE, DIVIDE] {
        let mut field = Field::empty(3, 3);
        for x in 0..3 {
            for y in 0..3 {
                field.set_cell(x, y, agent(100, action, RIGHT));
            }
        }
        field.update();
        assert_eq!(field.get_data().len(), 9);
        for x in 0..3 {
            for y in 0..3 {
                assert_eq!(energy_at(&field, x, y), Some(99));
                assert_eq!(field.get_cell(x, y).unwrap().weights(), &policy(action, RIGHT));
            }
        }
    }
}

#[test]
fn deaths_leave_tombstones() {
    let mut field = Field::empty(3, 3);
    for x in 0..3 {
        for y in 0..3 {
            field.set_cell(x, y, agent(1, CHARGE, UP));
        }
    }
    field.update();
    assert_eq!(field.get_data().len(), 9);
    assert!(field.get_data().values().all(|c| c.died() && c.energy() == 0));
    field.update();
    assert_eq!(field.get_data().len(), 9);
    assert!(field.get_data().values().all(|c| c.died() && c.energy() == 0));
}

#[test]
fn a_division_adds_one_cell() {
    let mut field = Field::empty(3, 1);
    field.set_cell(0, 0, agent(100, DIVIDE, LEFT));
    field.take_turn(0, 0);
    assert_eq!(field.get_data().len(), 2);
    assert_eq!(energy_at(&field, 0, 0), Some(49));
    assert_eq!(energy_at(&field, 2, 0), Some(49));
}

#[test]
fn random_field_stays_well_formed() {
    let mut field = Field::new(12, 9);
    for _ in 0..25 {
        field.update();
        assert_eq!(field.get_width(), 12);
        assert_eq!(field.get_height(), 9);
        for (key, c) in field.get_data().iter() {
            assert!(key_x(*key) < 12);
            assert!(key_y(*key) < 9);
            assert!(c.energy() <= Field::MAX_ENERGY);
            assert!(c.weights().len() == 0 || c.weights().len() == 129);
            assert!(c.weights().iter().all(|&w| w <= UNIT));
        }
    }
}

#[test]
fn a_tick_adds_at_most_one_cell_per_turn() {
    let mut field = Field::new(10, 10);
    for _ in 0..10 {
        let before = field.get_data().len();
        field.update();
        assert!(field.get_data().len() <= before + 100);
        assert!(field.get_data().len() <= 100);
    }
}

fn settled(field: &Field) -> bool {
    field.get_data().values().all(|c| c.energy() > 0 || c.died())
}

#[test]
fn a_move_that_uses_up_the_energy_leaves_a_tombstone() {
    // The cell pays 1 for the turn and 2 for the move.
    let mut field = Field::empty(1, 2);
    field.set_cell(0, 1, agent(3, MOVE, DOWN));
    field.update();
    assert!(field.get_cell(0, 1).is_none());
    let c = field.get_cell(0, 0).unwrap();
    assert_eq!(c.energy(), 0);
    assert!(c.died());
    assert_eq!(field.get_data().len(), 1);
    // A tombstone does not act and does not block.
    field.set_cell(0, 1, agent(50, MOVE, DOWN));
    field.update();
    assert!(field.get_cell(0, 1).is_none());
    assert_eq!(energy_at(&field, 0, 0), Some(47));
    assert!(!field.get_cell(0, 0).unwrap().died());
}

#[test]
fn a_cell_without_energy_is_no_live_target() {
    // The mover ends at (1, 0) without energy, as a tombstone; the cell
    // at (2, 0) then moves onto it.
    let mut field = Field::empty(4, 1);
    field.set_cell(0, 0, agent(3, MOVE, RIGHT));
    field.set_cell(2, 0, agent(50, MOVE, LEFT));
    field.update();
    assert!(field.get_cell(0, 0).is_none());
    assert!(field.get_cell(2, 0).is_none());
    assert_eq!(energy_at(&field, 1, 0), Some(47));
    assert!(!field.get_cell(1, 0).unwrap().died());
    assert_eq!(field.get_data().len(), 1);
}

#[test]
fn every_tick_leaves_the_field_settled() {
    let mut field = Field::new(12, 9);
    assert!(settled(&field));
    for _ in 0..60 {
        field.update();
        assert!(settled(&field));
    }
    let mut lean = Field::empty(5, 5);
    for x in 0..5 {
        for y in 0..5 {
            lean.set_cell(x, y, agent(1 + (x * 5 + y) as u16 % 7, 1 + (x + y) as usize % 4, UP));
        }
    }
    assert!(settled(&lean));
    for _ in 0..10 {
        lean.update();
        assert!(settled(&lean));
    }
}

#[test]
fn full_grid_without_eating_keeps_every_cell_in_place() {
    for action in [ENERGIZE, DIVIDE, MOVE, CHARGE] {
        for towards in [UP, LEFT, RIGHT, DOWN] {
            let mut field = Field::empty(3, 3);
            for x in 0..3 {
                for y in 0..3 {
                    field.set_cell(x, y, agent(Field::MAX_ENERGY, action, towards));
                }
            }
            field.update();
            assert_eq!(field.get_data().len(), 9);
            for x in 0..3 {
                for y in 0..3 {
                    let c = field.get_cell(x, y).unwrap();
                    assert!(!c.died());
                    assert!(c.energy() >= 87);
                    assert!(c.energy() <= 100);
                }
            }
        }
    }
}

#[test]
fn full_grid_that_charges_ends_at_the_cap() {
    let mut field = Field::empty(3, 3);
    for x in 0..3 {
        for y in 0..3 {
            field.set_cell(x, y, agent(100, CHARGE, UP));
        }
    }
    field.update();
    assert_eq!(field.get_data().len(), 9);
    assert_eq!(total_energy(&field), 900);
}

#[test]
fn full_grid_where_one_cell_eats_loses_one_cell() {
    let mut field = Field::empty(3, 1);
    field.set_cell(0, 0, agent(100, EAT, RIGHT));
    field.set_cell(1, 0, agent(100, EAT, RIGHT));
    field.set_cell(2, 0, agent(100, EAT, RIGHT));
    field.take_turn(0, 0);
    assert_eq!(field.get_data().len(), 2);
    assert!(field.get_cell(0, 0).is_none());
    assert_eq!(energy_at(&field, 1, 0), Some(98));
    assert_eq!(energy_at(&field, 2, 0), Some(100));
}
