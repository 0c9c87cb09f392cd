//! The field as a mathematical value, and what one turn and one tick do
//! to it.

use vstd::prelude::*;
use crate::action::{direction_offset, Action};
use crate::cell::CellState;
use crate::coord::wrap;
use crate::field::Field;
use crate::genome::{grown_from, mutation_of, UNIT};
use crate::scoring::{best_index, genome_span, scores_of};

verus! {

/// The number of slots a cell senses around itself.
pub const NEIGHBOUR_COUNT: usize = 8;

/// The length of the sensor vector: two readings for each neighbour and
/// one for the cell's own energy.
pub const INPUT_COUNT: usize = 17;

/// The length of the score vector: one score for each action kind,
/// then one for each direction.
pub const OUTPUT_COUNT: usize = 9;

/// The offset of the `k`-th sensed neighbour: the row above from left to
/// right, then left and right, then the row below from left to right.
pub open spec fn neighbour_offset(k: int) -> (int, int) {
    if k == 0 {
        (-1, 1)
    } else if k == 1 {
        (0, 1)
    } else if k == 2 {
        (1, 1)
    } else if k == 3 {
        (-1, 0)
    } else if k == 4 {
        (1, 0)
    } else if k == 5 {
        (-1, -1)
    } else if k == 6 {
        (0, -1)
    } else {
        (1, -1)
    }
}

/// The distance between two numbers.
pub open spec fn distance(a: int, b: int) -> int {
    if a >= b {
        a - b
    } else {
        b - a
    }
}

/// Reading `k` of the sensor vector of the cell `own` with the given
/// neighbour slots. Neighbour `i` gives reading `2 * i`, the distance
/// between the two kinship checksums, and reading `2 * i + 1`, whether
/// the neighbour is alive; an empty slot gives zero for both. The last
/// reading is one minus the cell's own energy level.
pub open spec fn reading(own: CellState, neighbours: Seq<Option<CellState>>, k: int) -> int {
    if k == 2 * neighbours.len() {
        UNIT - own.energy_level()
    } else {
        match neighbours[k / 2] {
            None => 0,
            Some(other) => if k % 2 == 0 {
                distance(own.dna(), other.dna())
            } else {
                other.alive_level()
            },
        }
    }
}

/// The sensor vector of the cell `own` with the given neighbour slots.
pub open spec fn readings(own: CellState, neighbours: Seq<Option<CellState>>) -> Seq<u32> {
    Seq::new(2 * neighbours.len() + 1, |k: int| reading(own, neighbours, k) as u32)
}

/// The action kind that a score vector selects: the best of its first
/// `Action::LENGTH` entries.
pub open spec fn chosen_action(scores: Seq<u32>) -> Action {
    Action::at(best_index(scores.subrange(0, Action::LENGTH as int)))
}

/// The direction that a score vector selects: the best of the four
/// entries after the action scores.
pub open spec fn chosen_offset(scores: Seq<u32>) -> (int, int) {
    direction_offset(
        best_index(scores.subrange(Action::LENGTH as int, Action::LENGTH as int + 4)),
    )
}

/// The field as a mathematical value: its dimensions and the occupied
/// slots. A slot that is no key of `cells` is empty; a slot whose cell
/// has died holds a tombstone.
pub struct FieldState {
    pub width: int,
    pub height: int,
    pub cells: Map<(int, int), CellState>,
}

impl FieldState {
    /// Whether `p` lies on the grid.
    pub open spec fn in_range(self, p: (int, int)) -> bool {
        0 <= p.0 < self.width && 0 <= p.1 < self.height
    }

    /// The dimensions are positive, every occupied slot lies on the
    /// grid, and every cell is well formed.
    pub open spec fn wf(self) -> bool {
        &&& 0 < self.width <= u32::MAX
        &&& 0 < self.height <= u32::MAX
        &&& forall|p: (int, int)| #[trigger]
            self.cells.contains_key(p) ==> self.in_range(p) && self.cells[p].wf()
    }

    /// What the slot at `p` holds.
    pub open spec fn slot(self, p: (int, int)) -> Option<CellState> {
        if self.cells.contains_key(p) {
            Some(self.cells[p])
        } else {
            None
        }
    }

    /// Whether the slot at `p` holds a cell that has not died.
    pub open spec fn is_live(self, p: (int, int)) -> bool {
        self.cells.contains_key(p) && !self.cells[p].died
    }

    /// The field with `cell` written into the slot at `p`.
    pub open spec fn set(self, p: (int, int), cell: CellState) -> FieldState {
        FieldState { cells: self.cells.insert(p, cell), ..self }
    }

    /// The field with the slot at `p` emptied.
    pub open spec fn clear(self, p: (int, int)) -> FieldState {
        FieldState { cells: self.cells.remove(p), ..self }
    }

    /// The slot on the grid that the coordinates `p` stand for on the
    /// torus.
    pub open spec fn wrapped(self, p: (int, int)) -> (int, int) {
        (wrap(p.0, self.width), wrap(p.1, self.height))
    }

    /// The slot reached from `p` by the offset `d`, around the torus.
    pub open spec fn shifted(self, p: (int, int), d: (int, int)) -> (int, int) {
        self.wrapped((p.0 + d.0, p.1 + d.1))
    }

    /// The eight slots around `p`, in sensing order.
    pub open spec fn neighbours(self, p: (int, int)) -> Seq<Option<CellState>> {
        Seq::new(
            NEIGHBOUR_COUNT as nat,
            |k: int| self.slot(self.shifted(p, neighbour_offset(k))),
        )
    }

    /// The sensor vector of the cell at `p`.
    pub open spec fn sensors(self, p: (int, int)) -> Seq<u32> {
        readings(self.cells[p], self.neighbours(p))
    }

    /// Whether every cell is settled: no cell without energy is alive.
    pub open spec fn settled(self) -> bool {
        forall|p: (int, int)| #[trigger] self.cells.contains_key(p) ==> self.cells[p].settled()
    }

    /// The field after the cell at `p` carried out `action` against the
    /// slot at `t`. `child` is the genome of the offspring, which only
    /// `Divide` uses.
    ///
    /// `Charge` needs no target. The other kinds do nothing when the
    /// target is the acting cell's own slot. Beyond that:
    /// `Energize` does nothing unless the target is live; `Divide` and
    /// `Move` do nothing if the target is live; `Eat` always goes ahead.
    ///
    /// A cell that an action leaves without energy dies: the acting
    /// cell after it paid and handed over, and parent and offspring of
    /// a division that had less than two units to share.
    pub open spec fn resolve(
        self,
        p: (int, int),
        t: (int, int),
        action: Action,
        child: Seq<u32>,
    ) -> FieldState {
        let me = self.cells[p];
        match action {
            Action::Charge => self.set(p, me.given(Field::CHARGE_AMOUNT as int)),
            Action::Energize => if t == p || !self.is_live(t) {
                self
            } else {
                let paid = me.taken(Field::ENERGIZE_COST as int);
                let amount = paid.removable(Field::ENERGIZE_AMOUNT as int);
                self.set(p, paid.taken(Field::ENERGIZE_AMOUNT as int).settle()).set(
                    t,
                    self.cells[t].given(amount),
                )
            },
            Action::Divide => if t == p || self.is_live(t) {
                self
            } else {
                let paid = me.taken(Field::DIVIDE_COST as int);
                self.set(p, paid.halved().settle()).set(t, paid.offspring(child).settle())
            },
            Action::Eat => if t == p {
                self
            } else {
                let fed = match self.slot(t) {
                    Some(prey) => me.given(prey.energy),
                    None => me,
                };
                self.clear(p).set(t, fed.taken(Field::EAT_COST as int).settle())
            },
            Action::Move => if t == p || self.is_live(t) {
                self
            } else {
                self.clear(p).set(t, me.taken(Field::MOVE_COST as int).settle())
            },
        }
    }

    /// The field after the cell at `p` paid its metabolic cost.
    pub open spec fn after_cost(self, p: (int, int)) -> FieldState {
        self.set(p, self.cells[p].taken(Field::ENERGY_LOSS as int))
    }

    /// The field after the cell at `p`, which has paid its cost and still
    /// holds energy, sensed, decided and acted. `genome` is its genome
    /// after the decision pass has grown it, and `child` the genome of
    /// its offspring should it divide.
    pub open spec fn act(self, p: (int, int), genome: Seq<u32>, child: Seq<u32>) -> FieldState {
        let scores = scores_of(self.sensors(p), genome, OUTPUT_COUNT as nat);
        let t = self.shifted(p, chosen_offset(scores));
        self.set(p, self.cells[p].regrown(genome)).resolve(
            p,
            t,
            chosen_action(scores),
            child,
        )
    }

    /// The action kind that the cell at `p` decides on when its genome
    /// is `genome`.
    pub open spec fn decision(self, p: (int, int), genome: Seq<u32>) -> Action {
        chosen_action(scores_of(self.sensors(p), genome, OUTPUT_COUNT as nat))
    }

    /// Whether every slot of the grid holds a live cell.
    pub open spec fn crowded(self) -> bool {
        forall|p: (int, int)| self.in_range(p) ==> #[trigger] self.is_live(p)
    }

    /// Whether `post` can be the field after the slot at `p` had its
    /// turn in `self`.
    ///
    /// An empty slot or a tombstone does nothing. A live cell pays
    /// `ENERGY_LOSS`; if that leaves it without energy it dies and stays
    /// as a tombstone. Otherwise its genome grows by random weights to
    /// cover the decision pass, and it acts; if it divides, the
    /// offspring's genome is a mutated copy.
    pub open spec fn turn_outcome(self, p: (int, int), post: FieldState) -> bool {
        if !self.is_live(p) {
            post == self
        } else if self.after_cost(p).cells[p].energy == 0 {
            post == self.set(p, self.cells[p].taken(Field::ENERGY_LOSS as int).dead())
        } else {
            exists|genome: Seq<u32>, child: Seq<u32>|
                {
                    &&& grown_from(
                        genome,
                        self.cells[p].genome,
                        genome_span(INPUT_COUNT as nat, OUTPUT_COUNT as nat),
                    )
                    &&& mutation_of(child, genome, Field::MUTATION_SCALE as int)
                    &&& post == #[trigger] self.after_cost(p).act(p, genome, child)
                }
        }
    }

    /// As `turn_outcome`, for a turn in which the cell, if it comes to
    /// decide, does not decide on `avoided`.
    pub open spec fn turn_outcome_avoiding(
        self,
        p: (int, int),
        avoided: Action,
        post: FieldState,
    ) -> bool {
        if !self.is_live(p) {
            post == self
        } else if self.after_cost(p).cells[p].energy == 0 {
            post == self.set(p, self.cells[p].taken(Field::ENERGY_LOSS as int).dead())
        } else {
            exists|genome: Seq<u32>, child: Seq<u32>|
                {
                    &&& grown_from(
                        genome,
                        self.cells[p].genome,
                        genome_span(INPUT_COUNT as nat, OUTPUT_COUNT as nat),
                    )
                    &&& mutation_of(child, genome, Field::MUTATION_SCALE as int)
                    &&& self.after_cost(p).decision(p, genome) != avoided
                    &&& post == #[trigger] self.after_cost(p).act(p, genome, child)
                }
        }
    }

    /// The slot that is visited `k`-th in a tick: column by column, and
    /// within a column row by row.
    pub open spec fn scan_position(self, k: int) -> (int, int) {
        (k / self.height, k % self.height)
    }

    /// Whether `post` can be the field one tick after `self`: there is
    /// a sequence of fields that starts with `self` and ends with
    /// `post`, in which each field comes from the one before by the
    /// turn of the next slot in scan order. A turn thus sees what the
    /// turns before it in the same tick have done.
    pub open spec fn tick_outcome(self, post: FieldState) -> bool {
        exists|trace: Seq<FieldState>|
            {
                &&& trace.len() == self.width * self.height + 1
                &&& trace[0] == self
                &&& trace.last() == post
                &&& forall|k: int|
                    0 <= k < self.width * self.height ==> (#[trigger] trace[k]).turn_outcome(
                        self.scan_position(k),
                        trace[k + 1],
                    )
            }
    }

    /// As `tick_outcome`, for a tick in which no cell decides on
    /// `avoided`.
    pub open spec fn tick_outcome_avoiding(self, avoided: Action, post: FieldState) -> bool {
        exists|trace: Seq<FieldState>|
            {
                &&& trace.len() == self.width * self.height + 1
                &&& trace[0] == self
                &&& trace.last() == post
                &&& forall|k: int|
                    0 <= k < self.width * self.height ==> (
                    #[trigger] trace[k]).turn_outcome_avoiding(
                        self.scan_position(k),
                        avoided,
                        trace[k + 1],
                    )
            }
    }
}

} // verus!
