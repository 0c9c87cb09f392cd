//! One cell: its energy, its alive/died flag and its genome.

use vstd::prelude::*;
use crate::field::Field;
use crate::genome::{
    dna, dna_of, grow_genome, grown_from, lemma_growth_keeps_valid, lemma_mutation_keeps_valid,
    mutate_genome, mutation_of, valid_genome, GENOME_CAPACITY, UNIT,
};
use crate::scoring::{genome_span, score, scores_of};

verus! {

/// What a cell is, as a mathematical value.
pub struct CellState {
    /// True once the cell has stopped acting for good.
    pub died: bool,
    /// The fuel the cell holds.
    pub energy: int,
    /// The weights of the decision policy.
    pub genome: Seq<u32>,
}

impl CellState {
    /// The energy is within `[0, MAX_ENERGY]` and the genome is valid.
    pub open spec fn wf(self) -> bool {
        &&& 0 <= self.energy <= Field::MAX_ENERGY
        &&& valid_genome(self.genome)
    }

    /// A cell as it is created: alive, at full energy, with no weights
    /// yet.
    pub open spec fn fresh() -> CellState {
        CellState { died: false, energy: Field::MAX_ENERGY as int, genome: Seq::empty() }
    }

    /// How much a request to remove `amount` actually removes.
    pub open spec fn removable(self, amount: int) -> int {
        if self.energy <= amount {
            self.energy
        } else {
            amount
        }
    }

    /// The cell after `amount` was requested from it.
    pub open spec fn taken(self, amount: int) -> CellState {
        CellState { energy: self.energy - self.removable(amount), ..self }
    }

    /// The cell after `amount` was offered to it: the energy rises by
    /// `amount` but not beyond `MAX_ENERGY`; a cell at or above the cap
    /// is left as it is.
    pub open spec fn given(self, amount: int) -> CellState {
        if self.energy >= Field::MAX_ENERGY {
            self
        } else if Field::MAX_ENERGY - self.energy <= amount {
            CellState { energy: Field::MAX_ENERGY as int, ..self }
        } else {
            CellState { energy: self.energy + amount, ..self }
        }
    }

    /// The cell after it died.
    pub open spec fn dead(self) -> CellState {
        CellState { died: true, ..self }
    }

    /// The cell after its energy was looked at: without energy it has
    /// died, otherwise it is as it was.
    pub open spec fn settle(self) -> CellState {
        if self.energy <= 0 {
            self.dead()
        } else {
            self
        }
    }

    /// Whether the cell is settled: a cell without energy has died.
    pub open spec fn settled(self) -> bool {
        self.energy <= 0 ==> self.died
    }

    /// The parent after a division: its energy is halved, rounding
    /// down.
    pub open spec fn halved(self) -> CellState {
        CellState { energy: self.energy / 2, ..self }
    }

    /// The offspring of a division: alive, with the parent's halved
    /// energy and the given genome.
    pub open spec fn offspring(self, genome: Seq<u32>) -> CellState {
        CellState { died: false, energy: self.energy / 2, genome }
    }

    /// The cell with its genome replaced by `genome`.
    pub open spec fn regrown(self, genome: Seq<u32>) -> CellState {
        CellState { genome, ..self }
    }

    /// The energy as a fraction of `MAX_ENERGY`, in fixed point.
    pub open spec fn energy_level(self) -> int {
        self.energy * UNIT / (Field::MAX_ENERGY as int)
    }

    /// The sensor reading for "alive": one if alive, zero if died.
    pub open spec fn alive_level(self) -> int {
        if self.died {
            0
        } else {
            UNIT as int
        }
    }

    /// The kinship checksum of the genome.
    pub open spec fn dna(self) -> int {
        dna_of(self.genome)
    }
}

/// One agent on the grid.
pub struct Cell {
    died: bool,
    energy: u16,
    weights: Vec<u32>,
}

impl View for Cell {
    type V = CellState;

    closed spec fn view(&self) -> CellState {
        CellState { died: self.died, energy: self.energy as int, genome: self.weights@ }
    }
}

impl Cell {
    /// Whether the cell is well formed: see `CellState::wf`.
    pub open spec fn wf(&self) -> bool {
        self@.wf()
    }

    /// A fresh cell: alive, at `MAX_ENERGY`, with an empty genome.
    pub fn new() -> (cell: Self)
        ensures
            cell@ == CellState::fresh(),
            cell.wf(),
    {
        Self { died: false, energy: Field::MAX_ENERGY, weights: Vec::new() }
    }

    /// A live cell with the given energy and genome, if they are valid:
    /// the energy at most `MAX_ENERGY`, at most `GENOME_CAPACITY`
    /// weights, each in `[0, 1]`.
    pub fn with_genome(energy: u16, weights: Vec<u32>) -> (made: Option<Self>)
        ensures
            made is Some <==> energy <= Field::MAX_ENERGY && valid_genome(weights@),
            made matches Some(cell) ==> cell.wf() && cell@ == (CellState {
                died: false,
                energy: energy as int,
                genome: weights@,
            }),
    {
        if energy > Field::MAX_ENERGY || weights.len() > GENOME_CAPACITY {
            return None;
        }
        let mut i: usize = 0;
        while i < weights.len()
            invariant
                i <= weights@.len(),
                forall|k: int| 0 <= k < i ==> #[trigger] weights@[k] <= UNIT,
            decreases weights@.len() - i,
        {
            if weights[i] > UNIT {
                return None;
            }
            i = i + 1;
        }
        Some(Self { died: false, energy, weights })
    }

    /// Whether the cell has died.
    pub fn died(&self) -> (r: bool)
        ensures
            r == self@.died,
    {
        self.died
    }

    /// The energy the cell holds.
    pub fn energy(&self) -> (r: u16)
        ensures
            r == self@.energy,
    {
        self.energy
    }

    /// The weights of the genome.
    pub fn weights(&self) -> (r: &Vec<u32>)
        ensures
            r@ == self@.genome,
    {
        &self.weights
    }

    /// The decision pass. The genome is first grown, with fresh random
    /// weights, to cover every position that scoring `input` against
    /// `output_count` outputs reads; then each output is scored.
    ///
    /// The positions read must fit `GENOME_CAPACITY`, which bounds every
    /// genome (see there).
    pub fn update(&mut self, input: Vec<u32>, output_count: usize) -> (output: Vec<u32>)
        requires
            old(self).wf(),
            genome_span(input@.len(), output_count as nat) <= GENOME_CAPACITY,
        ensures
            final(self).wf(),
            final(self)@.died == old(self)@.died,
            final(self)@.energy == old(self)@.energy,
            grown_from(
                final(self)@.genome,
                old(self)@.genome,
                genome_span(input@.len(), output_count as nat),
            ),
            output@ == scores_of(input@, final(self)@.genome, output_count as nat),
    {
        let span: usize = if input.len() == 0 || output_count == 0 {
            0
        } else {
            (input.len() - 1) * (output_count - 1) + 1
        };
        grow_genome(&mut self.weights, span);
        proof {
            lemma_growth_keeps_valid(self.weights@, old(self).weights@, span as nat);
        }
        score(&input, &self.weights, output_count)
    }

    /// Removes up to `amount` of energy and returns what was removed:
    /// `amount`, or all the cell had if that is less. A cell left without
    /// energy is not marked as died here: see `settle`.
    pub fn take_energy(&mut self, amount: u16) -> (removed: u16)
        ensures
            removed == old(self)@.removable(amount as int),
            final(self)@ == old(self)@.taken(amount as int),
            old(self).wf() ==> final(self).wf(),
    {
        if self.energy <= amount {
            let result: u16 = self.energy;
            self.energy = 0;
            result
        } else {
            self.energy -= amount;
            amount
        }
    }

    /// Adds up to `amount` of energy, stopping at `MAX_ENERGY`.
    pub fn give_energy(&mut self, amount: u16)
        ensures
            final(self)@ == old(self)@.given(amount as int),
            old(self).wf() ==> final(self).wf(),
    {
        if self.energy >= Field::MAX_ENERGY {
            return ;
        }
        let headroom: u16 = Field::MAX_ENERGY - self.energy;
        self.energy += if headroom <= amount {
            headroom
        } else {
            amount
        };
    }

    /// Marks the cell as died.
    pub fn die(&mut self)
        ensures
            final(self)@ == old(self)@.dead(),
    {
        self.died = true
    }

    /// Marks the cell as died if it holds no energy. Taking energy does
    /// not do this by itself: whoever takes energy from a cell settles
    /// it afterwards.
    pub fn settle(&mut self)
        ensures
            final(self)@ == old(self)@.settle(),
            final(self)@.settled(),
            old(self).wf() ==> final(self).wf(),
    {
        if self.energy == 0 {
            self.died = true;
        }
    }

    /// Splits the cell. Its energy is halved, and the offspring starts
    /// alive with the same halved energy and a copy of the genome in
    /// which each weight was mutated with probability `MUTATION_CHANCE`
    /// by at most `MUTATION_SCALE`.
    pub fn divide(&mut self) -> (child: Self)
        requires
            old(self).wf(),
        ensures
            final(self)@ == old(self)@.halved(),
            child@ == old(self)@.offspring(child@.genome),
            mutation_of(child@.genome, old(self)@.genome, Field::MUTATION_SCALE as int),
            final(self).wf(),
            child.wf(),
    {
        let weights = mutate_genome(&self.weights, Field::MUTATION_CHANCE, Field::MUTATION_SCALE);
        proof {
            lemma_mutation_keeps_valid(weights@, self.weights@, Field::MUTATION_SCALE as int);
        }
        self.divide_with(weights)
    }

    /// Splits the cell, giving the offspring the genome `weights`. The
    /// cell's energy is halved, and the offspring starts alive with the
    /// same halved energy.
    pub fn divide_with(&mut self, weights: Vec<u32>) -> (child: Self)
        requires
            old(self).wf(),
            valid_genome(weights@),
        ensures
            final(self)@ == old(self)@.halved(),
            child@ == old(self)@.offspring(weights@),
            final(self).wf(),
            child.wf(),
    {
        self.energy /= 2;
        Self { died: false, energy: self.energy, weights }
    }

    /// The sensor reading for "alive": one if the cell is alive, zero if
    /// it died.
    pub fn get_died(&self) -> (r: u32)
        ensures
            r == self@.alive_level(),
    {
        if self.died {
            0
        } else {
            UNIT
        }
    }

    /// The energy as a fraction of `MAX_ENERGY`.
    pub fn get_energy(&self) -> (r: u32)
        ensures
            r == self@.energy_level(),
    {
        ((self.energy as u64) * (UNIT as u64) / (Field::MAX_ENERGY as u64)) as u32
    }

    /// The kinship checksum of the genome.
    pub fn get_dna(&self) -> (r: u32)
        requires
            self.wf(),
        ensures
            r == self@.dna(),
            r <= UNIT,
    {
        dna(&self.weights)
    }
}

} // verus!
