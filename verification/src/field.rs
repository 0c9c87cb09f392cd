//! The field: the grid of cells and its per-tick update.

use std::collections::HashMap;
use vstd::arithmetic::div_mod::lemma_fundamental_div_mod_converse;
use vstd::prelude::*;
use vstd::slice::slice_subrange;
use crate::action::{direction, DIRECTION_COUNT};
use crate::cell::{Cell, CellState};
use crate::coord::{is_coord, key_x, key_y, pack, slot_key, wrap, wrap_coord};
use crate::laws::{lemma_action_keeps_settled, lemma_turn_keeps_settled};
use crate::genome::{
    lemma_copy_is_mutation, lemma_mutation_keeps_valid, mutate_genome, mutation_of, valid_genome,
    UNIT,
};
use crate::random::random_ratio;
use crate::scoring::{argmax, lemma_best_index};
use crate::state::{
    chosen_action, chosen_offset, reading, readings, FieldState, OUTPUT_COUNT,
};

pub use crate::action::Action;

verus! {

broadcast use vstd::std_specs::hash::group_hash_axioms;

/// Why a field could not be made.
#[derive(Clone, Copy, PartialEq, Eq, Debug, Structural)]
pub enum FieldError {
    /// The width was zero.
    ZeroWidth,
    /// The height was zero.
    ZeroHeight,
}

/// What each of the given slots holds, as mathematical values.
pub open spec fn slot_views(cells: Seq<Option<&Cell>>) -> Seq<Option<CellState>> {
    Seq::new(
        cells.len(),
        |i: int|
            match cells[i] {
                Some(cell) => Some(cell@),
                None => None,
            },
    )
}

/// The grid of cells. Only occupied slots are stored, each under the
/// key of its coordinates.
pub struct Field {
    width: u32,
    height: u32,
    data: HashMap<u64, Cell>,
}

impl View for Field {
    type V = FieldState;

    closed spec fn view(&self) -> FieldState {
        FieldState {
            width: self.width as int,
            height: self.height as int,
            cells: Map::new(
                |p: (int, int)|
                    is_coord(p.0, p.1) && self.data@.contains_key(slot_key(p.0, p.1) as u64),
                |p: (int, int)| self.data@[slot_key(p.0, p.1) as u64]@,
            ),
        }
    }
}

impl Field {
    /// The most energy a cell can hold.
    pub const MAX_ENERGY: u16 = 100;

    /// The probability, in fixed point, that a weight mutates when a
    /// cell divides.
    pub const MUTATION_CHANCE: u32 = 500_000;

    /// The largest shift, in fixed point, that a mutation applies.
    pub const MUTATION_SCALE: u32 = 300_000;

    /// What a live cell pays at the start of each of its turns.
    pub const ENERGY_LOSS: u16 = 1;

    /// What `Charge` adds to the acting cell.
    pub const CHARGE_AMOUNT: u16 = 5;

    /// The most that `Energize` hands to the target.
    pub const ENERGIZE_AMOUNT: u16 = 10;

    /// What the acting cell pays for `Energize`.
    pub const ENERGIZE_COST: u16 = 2;

    /// What the acting cell pays for `Divide`.
    pub const DIVIDE_COST: u16 = 0;

    /// What the acting cell pays for `Eat`.
    pub const EAT_COST: u16 = 2;

    /// What the acting cell pays for `Move`.
    pub const MOVE_COST: u16 = 2;

    /// Whether the field is well formed: see `FieldState::wf`.
    pub open spec fn wf(&self) -> bool {
        self@.wf()
    }

    /// A field of the given dimensions with no cell on it.
    pub fn empty(width: u32, height: u32) -> (field: Self)
        requires
            width > 0,
            height > 0,
        ensures
            field.wf(),
            field@.width == width,
            field@.height == height,
            field@.cells == Map::<(int, int), CellState>::empty(),
            field@.settled(),
    {
        let field = Self { width, height, data: HashMap::new() };
        proof {
            assert(field@.cells =~= Map::<(int, int), CellState>::empty());
        }
        field
    }

    /// A field of the given dimensions in which each slot holds, with
    /// probability one half, a fresh cell.
    pub fn new(width: u32, height: u32) -> (field: Self)
        requires
            width > 0,
            height > 0,
        ensures
            field.wf(),
            field@.width == width,
            field@.height == height,
            forall|p: (int, int)| #[trigger]
                field@.cells.contains_key(p) ==> field@.cells[p] == CellState::fresh(),
            field@.settled(),
    {
        let mut field = Self::empty(width, height);
        let mut rng = rand::thread_rng();
        let mut x: u32 = 0;
        while x < width
            invariant
                x <= width,
                field.wf(),
                field@.width == width,
                field@.height == height,
                forall|p: (int, int)| #[trigger]
                    field@.cells.contains_key(p) ==> field@.cells[p] == CellState::fresh(),
            decreases width - x,
        {
            let mut y: u32 = 0;
            while y < height
                invariant
                    x < width,
                    y <= height,
                    field.wf(),
                    field@.width == width,
                    field@.height == height,
                    forall|p: (int, int)| #[trigger]
                        field@.cells.contains_key(p) ==> field@.cells[p] == CellState::fresh(),
                decreases height - y,
            {
                let skip = random_ratio(&mut rng, 1, 2);
                field.seed_slot(x, y, skip);
                y = y + 1;
            }
            x = x + 1;
        }
        field
    }

    /// Seeds the slot at `(x, y)`: unless `skip` is set, a fresh cell is
    /// written into it.
    pub fn seed_slot(&mut self, x: u32, y: u32, skip: bool)
        requires
            old(self).wf(),
            old(self)@.in_range((x as int, y as int)),
        ensures
            final(self).wf(),
            final(self)@ == if skip {
                old(self)@
            } else {
                old(self)@.set((x as int, y as int), CellState::fresh())
            },
    {
        if skip {
            return ;
        }
        self.put(x, y, Cell::new());
    }

    /// As `new`, but a zero dimension is reported instead of being ruled
    /// out.
    pub fn try_new(width: u32, height: u32) -> (made: Result<Self, FieldError>)
        ensures
            width == 0 ==> made == Err::<Self, FieldError>(FieldError::ZeroWidth),
            width > 0 && height == 0 ==> made == Err::<Self, FieldError>(FieldError::ZeroHeight),
            width > 0 && height > 0 ==> made is Ok,
            made matches Ok(field) ==> {
                &&& field.wf()
                &&& field@.width == width
                &&& field@.height == height
                &&& forall|p: (int, int)| #[trigger]
                    field@.cells.contains_key(p) ==> field@.cells[p] == CellState::fresh()
                &&& field@.settled()
            },
    {
        if width == 0 {
            Err(FieldError::ZeroWidth)
        } else if height == 0 {
            Err(FieldError::ZeroHeight)
        } else {
            Ok(Self::new(width, height))
        }
    }

    /// The number of columns.
    pub fn get_width(&self) -> (w: u32)
        ensures
            w == self@.width,
    {
        self.width
    }

    /// The number of rows.
    pub fn get_height(&self) -> (h: u32)
        ensures
            h == self@.height,
    {
        self.height
    }

    /// The occupied slots, each under the key of its coordinates (see
    /// `coord::pack`, `coord::key_x` and `coord::key_y`).
    pub fn get_data(&self) -> (data: &HashMap<u64, Cell>)
        ensures
            forall|k: u64| #[trigger]
                data@.contains_key(k) <==> self@.cells.contains_key(
                    (key_x(k) as int, key_y(k) as int),
                ),
            forall|k: u64| #[trigger]
                data@.contains_key(k) ==> data@[k]@ == self@.cells[(
                    key_x(k) as int,
                    key_y(k) as int,
                )],
    {
        &self.data
    }

    /// The canonical column of the offset `x`.
    pub fn map_x(&self, x: i64) -> (r: u32)
        requires
            self.wf(),
        ensures
            r == wrap(x as int, self@.width),
            r < self@.width,
    {
        wrap_coord(x, self.width)
    }

    /// The canonical row of the offset `y`.
    pub fn map_y(&self, y: i64) -> (r: u32)
        requires
            self.wf(),
        ensures
            r == wrap(y as int, self@.height),
            r < self@.height,
    {
        wrap_coord(y, self.height)
    }

    /// Reads the slot at `(x, y)`.
    fn peek(&self, x: u32, y: u32) -> (found: Option<&Cell>)
        ensures
            match found {
                Some(cell) => self@.slot((x as int, y as int)) == Some(cell@),
                None => self@.slot((x as int, y as int)) is None,
            },
    {
        let key: u64 = pack(x, y);
        self.data.get(&key)
    }

    /// Empties the slot at `(x, y)` and hands out what it held.
    fn take(&mut self, x: u32, y: u32) -> (found: Option<Cell>)
        ensures
            final(self)@ == old(self)@.clear((x as int, y as int)),
            match found {
                Some(cell) => old(self)@.slot((x as int, y as int)) == Some(cell@),
                None => old(self)@.slot((x as int, y as int)) is None,
            },
    {
        let key: u64 = pack(x, y);
        let found = self.data.remove(&key);
        proof {
            assert(self@.cells =~= old(self)@.cells.remove((x as int, y as int)));
        }
        found
    }

    /// Writes `cell` into the slot at `(x, y)`.
    fn put(&mut self, x: u32, y: u32, cell: Cell)
        ensures
            final(self)@ == old(self)@.set((x as int, y as int), cell@),
    {
        let key: u64 = pack(x, y);
        self.data.insert(key, cell);
        proof {
            assert(self@.cells =~= old(self)@.cells.insert((x as int, y as int), cell@));
        }
    }

    /// Writes `cell` into the slot that `(x, y)` wraps to, over whatever
    /// was there.
    pub fn set_cell(&mut self, x: i64, y: i64, cell: Cell)
        requires
            old(self).wf(),
            cell.wf(),
        ensures
            final(self).wf(),
            final(self)@ == old(self)@.set(old(self)@.wrapped((x as int, y as int)), cell@),
    {
        let column: u32 = self.map_x(x);
        let row: u32 = self.map_y(y);
        self.put(column, row, cell);
    }

    /// Reads the slot that `(x, y)` wraps to.
    pub fn get_cell(&self, x: i64, y: i64) -> (found: Option<&Cell>)
        requires
            self.wf(),
        ensures
            match found {
                Some(cell) => self@.slot(self@.wrapped((x as int, y as int))) == Some(
                    cell@,
                ) && cell.wf(),
                None => self@.slot(self@.wrapped((x as int, y as int))) is None,
            },
    {
        let column: u32 = self.map_x(x);
        let row: u32 = self.map_y(y);
        self.peek(column, row)
    }

    /// Empties the slot that `(x, y)` wraps to and hands out what it
    /// held.
    pub fn remove_cell(&mut self, x: i64, y: i64) -> (found: Option<Cell>)
        requires
            old(self).wf(),
        ensures
            final(self).wf(),
            final(self)@ == old(self)@.clear(old(self)@.wrapped((x as int, y as int))),
            match found {
                Some(cell) => old(self)@.slot(old(self)@.wrapped((x as int, y as int)))
                    == Some(cell@) && cell.wf(),
                None => old(self)@.slot(old(self)@.wrapped((x as int, y as int))) is None,
            },
    {
        let column: u32 = self.map_x(x);
        let row: u32 = self.map_y(y);
        self.take(column, row)
    }
    /// Builds the sensor vector of `cell` from its neighbour slots: for
    /// each slot the distance between the two kinship checksums and
    /// whether the neighbour is alive (zero for both if the slot is
    /// empty), then one minus the cell's own energy level.
    pub fn cells_to_values(&self, cells: &[Option<&Cell>], cell: &Cell) -> (values: Vec<u32>)
        requires
            cell.wf(),
            forall|i: int|
                0 <= i < cells@.len() ==> ((#[trigger] cells@[i]) matches Some(other)
                    ==> other.wf()),
        ensures
            values@ == readings(cell@, slot_views(cells@)),
    {
        let ghost own = cell@;
        let ghost around = slot_views(cells@);
        let own_dna: u32 = cell.get_dna();
        let mut result: Vec<u32> = Vec::new();
        let mut i: usize = 0;
        while i < cells.len()
            invariant
                i <= cells@.len(),
                cell.wf(),
                own == cell@,
                around == slot_views(cells@),
                own_dna == own.dna(),
                forall|k: int|
                    0 <= k < cells@.len() ==> ((#[trigger] cells@[k]) matches Some(other)
                        ==> other.wf()),
                result@.len() == 2 * i,
                forall|k: int|
                    0 <= k < 2 * i ==> #[trigger] result@[k] == reading(own, around, k) as u32,
            decreases cells@.len() - i,
        {
            let ghost before = result@;
            let (kinship, alive): (u32, u32) = match &cells[i] {
                Some(other) => {
                    let other_dna: u32 = other.get_dna();
                    let gap: u32 = if own_dna >= other_dna {
                        own_dna - other_dna
                    } else {
                        other_dna - own_dna
                    };
                    (gap, other.get_died())
                },
                None => (0, 0),
            };
            result.push(kinship);
            result.push(alive);
            proof {
                assert(around[i as int] == match cells@[i as int] {
                    Some(other) => Some(other@),
                    None => None,
                });
                assert forall|k: int| 0 <= k < 2 * (i + 1) implies #[trigger] result@[k] == reading(
                    own,
                    around,
                    k,
                ) as u32 by {
                    if k < 2 * i {
                        assert(result@[k] == before[k]);
                    }
                }
            }
            i = i + 1;
        }
        let level: u32 = cell.get_energy();
        result.push(UNIT - level);
        proof {
            assert(result@ =~= readings(own, around));
        }
        result
    }

    /// Selects the action and the direction that a score vector asks
    /// for: among the first `Action::LENGTH` scores the best gives the
    /// action kind, and among the four after them the best gives the
    /// direction. The best is the first largest score, or the first
    /// entry if no score is positive.
    pub fn values_to_action(&self, values: Vec<u32>) -> (choice: (isize, isize, Action))
        requires
            values@.len() >= Action::LENGTH + DIRECTION_COUNT,
        ensures
            (choice.0 as int, choice.1 as int) == chosen_offset(values@),
            choice.2 == chosen_action(values@),
    {
        let position_values = slice_subrange(
            values.as_slice(),
            Action::LENGTH,
            Action::LENGTH + DIRECTION_COUNT,
        );
        let action_values = slice_subrange(values.as_slice(), 0, Action::LENGTH);
        proof {
            lemma_best_index(position_values@);
            lemma_best_index(action_values@);
        }
        let (x, y) = direction(argmax(position_values));
        let action = Action::from_index(argmax(action_values)).unwrap();
        (x, y, action)
    }

    /// Builds the sensor vector of the cell at `(x, y)` from the eight
    /// slots around it.
    pub fn sense(&self, x: u32, y: u32) -> (values: Vec<u32>)
        requires
            self.wf(),
            self@.cells.contains_key((x as int, y as int)),
        ensures
            values@ == self@.sensors((x as int, y as int)),
    {
        let column: i64 = x as i64;
        let row: i64 = y as i64;
        let around: [Option<&Cell>; 8] = [
            self.get_cell(column - 1, row + 1),
            self.get_cell(column, row + 1),
            self.get_cell(column + 1, row + 1),
            self.get_cell(column - 1, row),
            self.get_cell(column + 1, row),
            self.get_cell(column - 1, row - 1),
            self.get_cell(column, row - 1),
            self.get_cell(column + 1, row - 1),
        ];
        let own = self.peek(x, y).unwrap();
        proof {
            assert(slot_views(around@) =~= self@.neighbours((x as int, y as int)));
        }
        self.cells_to_values(around.as_slice(), own)
    }

    /// Whether the slot at `(x, y)` holds a cell that has not died.
    fn live_at(&self, x: u32, y: u32) -> (r: bool)
        ensures
            r == self@.is_live((x as int, y as int)),
    {
        match self.peek(x, y) {
            Some(cell) => !cell.died(),
            None => false,
        }
    }

    /// Carries out `action` for the cell at `(x, y)` against the slot at
    /// `(target_x, target_y)`. `child` is the genome for the offspring,
    /// which only `Divide` uses.
    pub fn resolve(
        &mut self,
        x: u32,
        y: u32,
        target_x: u32,
        target_y: u32,
        action: Action,
        child: Vec<u32>,
    )
        requires
            old(self).wf(),
            old(self)@.cells.contains_key((x as int, y as int)),
            old(self)@.in_range((target_x as int, target_y as int)),
            valid_genome(child@),
        ensures
            final(self).wf(),
            final(self)@ == old(self)@.resolve(
                (x as int, y as int),
                (target_x as int, target_y as int),
                action,
                child@,
            ),
            old(self)@.settled() ==> final(self)@.settled(),
    {
        let ghost pre = self@;
        let ghost p = (x as int, y as int);
        let ghost t = (target_x as int, target_y as int);
        let ghost goal = pre.resolve(p, t, action, child@);
        proof {
            if pre.settled() {
                lemma_action_keeps_settled(pre, p, t, action, child@);
            }
        }
        let same: bool = target_x == x && target_y == y;
        match action {
            Action::Charge => {
                let mut cell = self.take(x, y).unwrap();
                cell.give_energy(Self::CHARGE_AMOUNT);
                self.put(x, y, cell);
                proof {
                    assert(self@.cells =~= goal.cells);
                }
            },
            Action::Energize => {
                if !same && self.live_at(target_x, target_y) {
                    let mut cell = self.take(x, y).unwrap();
                    cell.take_energy(Self::ENERGIZE_COST);
                    let amount: u16 = cell.take_energy(Self::ENERGIZE_AMOUNT);
                    cell.settle();
                    self.put(x, y, cell);
                    let mut target = self.take(target_x, target_y).unwrap();
                    target.give_energy(amount);
                    self.put(target_x, target_y, target);
                    proof {
                        assert(self@.cells =~= goal.cells);
                    }
                }
            },
            Action::Divide => {
                if !same && !self.live_at(target_x, target_y) {
                    let mut cell = self.take(x, y).unwrap();
                    cell.take_energy(Self::DIVIDE_COST);
                    let mut new_cell = cell.divide_with(child);
                    cell.settle();
                    new_cell.settle();
                    self.put(x, y, cell);
                    self.put(target_x, target_y, new_cell);
                    proof {
                        assert(self@.cells =~= goal.cells);
                    }
                }
            },
            Action::Eat => {
                if !same {
                    let target = self.take(target_x, target_y);
                    let mut cell = self.take(x, y).unwrap();
                    if let Some(prey) = target {
                        cell.give_energy(prey.energy());
                    }
                    cell.take_energy(Self::EAT_COST);
                    cell.settle();
                    self.put(target_x, target_y, cell);
                    proof {
                        assert(self@.cells =~= goal.cells);
                    }
                }
            },
            Action::Move => {
                if !same && !self.live_at(target_x, target_y) {
                    let mut cell = self.take(x, y).unwrap();
                    cell.take_energy(Self::MOVE_COST);
                    cell.settle();
                    self.put(target_x, target_y, cell);
                    proof {
                        assert(self@.cells =~= goal.cells);
                    }
                }
            },
        }
    }

    /// Carries out `action` for the cell at `(x, y)` against the slot at
    /// `(target_x, target_y)`. Where a division goes ahead, the
    /// offspring's genome is a fresh mutated copy of the acting cell's.
    pub fn apply_action(&mut self, x: u32, y: u32, target_x: u32, target_y: u32, action: Action)
        requires
            old(self).wf(),
            old(self)@.cells.contains_key((x as int, y as int)),
            old(self)@.in_range((target_x as int, target_y as int)),
        ensures
            final(self).wf(),
            exists|child: Seq<u32>|
                {
                    &&& mutation_of(
                        child,
                        old(self)@.cells[(x as int, y as int)].genome,
                        Self::MUTATION_SCALE as int,
                    )
                    &&& final(self)@ == #[trigger] old(self)@.resolve(
                        (x as int, y as int),
                        (target_x as int, target_y as int),
                        action,
                        child,
                    )
                },
            action != Action::Divide ==> final(self)@ == old(self)@.resolve(
                (x as int, y as int),
                (target_x as int, target_y as int),
                action,
                Seq::empty(),
            ),
            old(self)@.settled() ==> final(self)@.settled(),
    {
        let ghost pre = self@;
        let ghost p = (x as int, y as int);
        let ghost t = (target_x as int, target_y as int);
        let ghost kept = pre.cells[p].genome;
        proof {
            lemma_copy_is_mutation(kept, Self::MUTATION_SCALE as int);
        }
        let same: bool = target_x == x && target_y == y;
        let divides: bool = match action {
            Action::Divide => !same && !self.live_at(target_x, target_y),
            _ => false,
        };
        if divides {
            let parent = self.peek(x, y).unwrap();
            let child = mutate_genome(
                parent.weights(),
                Self::MUTATION_CHANCE,
                Self::MUTATION_SCALE,
            );
            let ghost drawn = child@;
            proof {
                lemma_mutation_keeps_valid(drawn, kept, Self::MUTATION_SCALE as int);
            }
            self.resolve(x, y, target_x, target_y, action, child);
            proof {
                assert(self@ == pre.resolve(p, t, action, drawn));
            }
        } else {
            self.resolve(x, y, target_x, target_y, action, Vec::new());
            proof {
                assert(self@ == pre.resolve(p, t, action, kept));
            }
        }
    }

    /// Gives the slot at `(x, y)` its turn.
    pub fn take_turn(&mut self, x: u32, y: u32)
        requires
            old(self).wf(),
            old(self)@.in_range((x as int, y as int)),
        ensures
            final(self).wf(),
            final(self)@.width == old(self)@.width,
            final(self)@.height == old(self)@.height,
            old(self)@.turn_outcome((x as int, y as int), final(self)@),
            old(self)@.settled() ==> final(self)@.settled(),
    {
        let ghost pre = self@;
        let ghost p = (x as int, y as int);
        if !self.live_at(x, y) {
            return ;
        }
        let mut cell = self.take(x, y).unwrap();
        cell.take_energy(Self::ENERGY_LOSS);
        if cell.energy() == 0 {
            cell.die();
            self.put(x, y, cell);
            proof {
                assert(self@.cells =~= pre.set(
                    p,
                    pre.cells[p].taken(Self::ENERGY_LOSS as int).dead(),
                ).cells);
                if pre.settled() {
                    lemma_turn_keeps_settled(pre, p, self@);
                }
            }
            return ;
        }
        self.put(x, y, cell);
        let ghost paid = self@;
        proof {
            assert(paid.cells =~= pre.after_cost(p).cells);
            assert(paid == pre.after_cost(p));
        }
        let input = self.sense(x, y);
        let mut cell = self.take(x, y).unwrap();
        let output = cell.update(input, OUTPUT_COUNT);
        let ghost genome = cell@.genome;
        self.put(x, y, cell);
        let ghost grown = self@;
        proof {
            assert(grown.cells =~= paid.set(p, paid.cells[p].regrown(genome)).cells);
            assert(grown == paid.set(p, paid.cells[p].regrown(genome)));
        }
        let (dx, dy, action) = self.values_to_action(output);
        let target_x: u32 = self.map_x(x as i64 + dx as i64);
        let target_y: u32 = self.map_y(y as i64 + dy as i64);
        self.apply_action(x, y, target_x, target_y, action);
        proof {
            let t = (target_x as int, target_y as int);
            let child = choose|child: Seq<u32>|
                {
                    &&& mutation_of(child, grown.cells[p].genome, Self::MUTATION_SCALE as int)
                    &&& self@ == #[trigger] grown.resolve(p, t, action, child)
                };
            assert(self@ == paid.act(p, genome, child));
            if pre.settled() {
                lemma_turn_keeps_settled(pre, p, self@);
            }
        }
    }

    /// Advances the field by one tick: every slot has its turn, column
    /// by column and within a column row by row, each turn working on
    /// what the turns before it have left.
    pub fn update(&mut self)
        requires
            old(self).wf(),
        ensures
            final(self).wf(),
            final(self)@.width == old(self)@.width,
            final(self)@.height == old(self)@.height,
            old(self)@.tick_outcome(final(self)@),
            old(self)@.settled() ==> final(self)@.settled(),
    {
        let width: u32 = self.width;
        let height: u32 = self.height;
        let ghost start = self@;
        let ghost mut trace: Seq<FieldState> = seq![self@];
        let mut x: u32 = 0;
        while x < width
            invariant
                x <= width,
                self.wf(),
                self@.width == width == start.width,
                self@.height == height == start.height,
                trace.len() == x * height + 1,
                trace[0] == start,
                trace.last() == self@,
                start.settled() ==> self@.settled(),
                forall|k: int|
                    0 <= k < x * height ==> (#[trigger] trace[k]).turn_outcome(
                        start.scan_position(k),
                        trace[k + 1],
                    ),
            decreases width - x,
        {
            let mut y: u32 = 0;
            while y < height
                invariant
                    x < width,
                    y <= height,
                    self.wf(),
                    self@.width == width == start.width,
                    self@.height == height == start.height,
                    trace.len() == x * height + y + 1,
                    trace[0] == start,
                    trace.last() == self@,
                    start.settled() ==> self@.settled(),
                    forall|k: int|
                        0 <= k < x * height + y ==> (#[trigger] trace[k]).turn_outcome(
                            start.scan_position(k),
                            trace[k + 1],
                        ),
                decreases height - y,
            {
                let ghost before = trace;
                self.take_turn(x, y);
                proof {
                    let n = x * height + y;
                    assert(0 <= x * height) by (nonlinear_arith);
                    lemma_fundamental_div_mod_converse(n, height as int, x as int, y as int);
                    trace = before.push(self@);
                    assert forall|k: int| 0 <= k < n + 1 implies (#[trigger] trace[k]).turn_outcome(
                        start.scan_position(k),
                        trace[k + 1],
                    ) by {
                        if k < n {
                            assert(trace[k] == before[k]);
                            assert(trace[k + 1] == before[k + 1]);
                        }
                    }
                }
                y = y + 1;
            }
            proof {
                assert(x * height + height == (x + 1) * height) by (nonlinear_arith);
            }
            x = x + 1;
        }
        proof {
            assert(x * height == start.width * start.height) by (nonlinear_arith)
                requires
                    x == start.width,
                    height == start.height,
            ;
        }
    }
}

} // verus!
