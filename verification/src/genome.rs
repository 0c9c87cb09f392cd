//! The genome: a sequence of weights in fixed point, its kinship
//! checksum, and how it grows and mutates.

use vstd::prelude::*;
use crate::random::{random_in_range, random_ratio};

verus! {

/// The fixed-point representation of the real number one.
pub const UNIT: u32 = 1_000_000;

/// The largest number of weights a genome may hold.
///
/// The bound is what keeps the kinship checksum within 64 bits. Over
/// `n` weights its weighted sum can reach `UNIT` times the sum of the
/// position weights, which stays below `UNIT * n * 3 * n`; that fits 64
/// bits up to `n` of about 2.4 million. The capacity is the largest
/// power of two below that. The decision pass of a cell reads 129
/// weights.
pub const GENOME_CAPACITY: usize = 2_097_152;

/// A genome is valid when it fits the capacity and every weight lies in
/// `[0, 1]`.
pub open spec fn valid_genome(g: Seq<u32>) -> bool {
    &&& g.len() <= GENOME_CAPACITY
    &&& forall|i: int| 0 <= i < g.len() ==> #[trigger] g[i] <= UNIT
}

/// The weight that position `i` carries in the kinship checksum.
pub open spec fn position_weight(i: int) -> int {
    3 * i + 1
}

/// The sum of each weight times the weight of its position.
pub open spec fn weighted_sum(g: Seq<u32>) -> int
    decreases g.len(),
{
    if g.len() == 0 {
        0
    } else {
        weighted_sum(g.drop_last()) + g.last() * position_weight(g.len() - 1)
    }
}

/// The sum of the position weights of the first `n` positions.
pub open spec fn position_sum(n: nat) -> int
    decreases n,
{
    if n == 0 {
        0
    } else {
        position_sum((n - 1) as nat) + position_weight(n - 1)
    }
}

/// The kinship checksum of a genome: the position-weighted mean of its
/// weights, rounded down. The empty genome has checksum zero.
pub open spec fn dna_of(g: Seq<u32>) -> int {
    if g.len() == 0 {
        0
    } else {
        weighted_sum(g) / position_sum(g.len())
    }
}

proof fn lemma_position_sum_bounds(n: nat)
    ensures
        n <= position_sum(n),
        position_sum(n) <= n * (3 * n + 1),
    decreases n,
{
    if n > 0 {
        lemma_position_sum_bounds((n - 1) as nat);
        assert((n - 1) * (3 * (n - 1) + 1) + 3 * (n - 1) + 1 <= n * (3 * n + 1))
            by (nonlinear_arith)
            requires
                n >= 1,
        ;
    }
}

proof fn lemma_weighted_sum_bounds(g: Seq<u32>)
    requires
        forall|i: int| 0 <= i < g.len() ==> #[trigger] g[i] <= UNIT,
    ensures
        0 <= weighted_sum(g) <= UNIT * position_sum(g.len()),
    decreases g.len(),
{
    if g.len() > 0 {
        let head = g.drop_last();
        lemma_weighted_sum_bounds(head);
        let w = g.last() as int;
        let p = position_weight(g.len() - 1);
        assert(0 <= w * p <= UNIT * p) by (nonlinear_arith)
            requires
                0 <= w <= UNIT,
                p >= 0,
        ;
        assert(UNIT * position_sum(head.len()) + UNIT * p == UNIT * position_sum(g.len()))
            by (nonlinear_arith)
            requires
                position_sum(g.len()) == position_sum(head.len()) + p,
        ;
    }
}

/// The checksum of a valid genome lies in `[0, 1]`.
pub proof fn lemma_dna_in_unit_range(g: Seq<u32>)
    requires
        valid_genome(g),
    ensures
        0 <= dna_of(g) <= UNIT,
{
    if g.len() > 0 {
        lemma_weighted_sum_bounds(g);
        lemma_position_sum_bounds(g.len());
        let t = weighted_sum(g);
        let s = position_sum(g.len());
        assert(0 <= t / s <= UNIT) by (nonlinear_arith)
            requires
                0 <= t <= UNIT * s,
                s > 0,
        ;
    }
}

/// Computes the kinship checksum of a genome.
pub fn dna(weights: &Vec<u32>) -> (r: u32)
    requires
        valid_genome(weights@),
    ensures
        r == dna_of(weights@),
        r <= UNIT,
{
    let n: usize = weights.len();
    if n == 0 {
        return 0;
    }
    // Each position weight is below 3 * GENOME_CAPACITY == 6291456, so
    // the sums stay below 10^6 * 2^21 * 6291456, which fits 64 bits.
    let mut total: u64 = 0;
    let mut span: u64 = 0;
    let mut i: usize = 0;
    while i < n
        invariant
            i <= n,
            n == weights.len(),
            valid_genome(weights@),
            total == weighted_sum(weights@.take(i as int)),
            span == position_sum(i as nat),
            span <= i * 6_291_456,
            total <= UNIT * span,
        decreases n - i,
    {
        let p: u64 = 3 * (i as u64) + 1;
        proof {
            let next = weights@.take(i + 1);
            assert(next.drop_last() =~= weights@.take(i as int));
            assert(next.last() == weights@[i as int]);
            let w = weights@[i as int] as int;
            assert(0 <= w * p <= UNIT * p) by (nonlinear_arith)
                requires
                    0 <= w <= UNIT,
                    p >= 0,
            ;
            assert(UNIT * span + UNIT * p == UNIT * (span + p)) by (nonlinear_arith);
        }
        total = total + (weights[i] as u64) * p;
        span = span + p;
        i = i + 1;
    }
    proof {
        assert(weights@.take(n as int) =~= weights@);
        lemma_dna_in_unit_range(weights@);
        lemma_position_sum_bounds(n as nat);
    }
    (total / span) as u32
}

/// A weight shifted by `offset` and clamped into `[0, 1]`.
pub open spec fn mutated(w: int, offset: int) -> int {
    if w + offset > UNIT {
        UNIT as int
    } else if w + offset < 0 {
        0
    } else {
        w + offset
    }
}

/// Whether `child` can come from `parent` by a shift of at most `scale`
/// in either direction, clamped into `[0, 1]`.
pub open spec fn is_mutation(child: u32, parent: u32, scale: int) -> bool {
    exists|offset: int|
        -scale <= offset <= scale && child == #[trigger] mutated(parent as int, offset)
}

/// Whether `child` is a copy of `parent` in which each weight is either
/// kept or mutated by at most `scale`.
pub open spec fn mutation_of(child: Seq<u32>, parent: Seq<u32>, scale: int) -> bool {
    &&& child.len() == parent.len()
    &&& forall|i: int|
        0 <= i < child.len() ==> (#[trigger] child[i] == parent[i] || is_mutation(
            child[i],
            parent[i],
            scale,
        ))
}

/// A mutated weight lies in `[0, 1]`, whatever the parent's weight and
/// the shift were.
pub proof fn lemma_mutation_in_unit_range(child: u32, parent: u32, scale: int)
    requires
        is_mutation(child, parent, scale),
    ensures
        child <= UNIT,
{
}

/// A copy in which each weight is kept or mutated is a valid genome if
/// the parent is one.
pub proof fn lemma_mutation_keeps_valid(child: Seq<u32>, parent: Seq<u32>, scale: int)
    requires
        valid_genome(parent),
        mutation_of(child, parent, scale),
    ensures
        valid_genome(child),
{
    assert forall|i: int| 0 <= i < child.len() implies #[trigger] child[i] <= UNIT by {
        if child[i] != parent[i] {
            lemma_mutation_in_unit_range(child[i], parent[i], scale);
        }
    }
}

/// An unchanged copy counts as a mutation of its parent.
pub proof fn lemma_copy_is_mutation(parent: Seq<u32>, scale: int)
    ensures
        mutation_of(parent, parent, scale),
{
}

/// Shifts one weight by `offset` and clamps the result into `[0, 1]`.
pub fn mutate_weight(w: u32, offset: i64) -> (r: u32)
    ensures
        r == mutated(w as int, offset as int),
        r <= UNIT,
{
    let shifted: i128 = w as i128 + offset as i128;
    if shifted > UNIT as i128 {
        UNIT
    } else if shifted < 0 {
        0
    } else {
        shifted as u32
    }
}

/// Copies a genome for an offspring. Each weight is mutated with
/// probability `chance` (in fixed point); a mutation adds a uniform
/// random shift from `[-scale, scale]` and clamps the result into
/// `[0, 1]`.
pub fn mutate_genome(weights: &Vec<u32>, chance: u32, scale: u32) -> (child: Vec<u32>)
    requires
        chance <= UNIT,
        scale <= 0x7fff_ffff,
    ensures
        mutation_of(child@, weights@, scale as int),
        chance == 0 ==> child@ == weights@,
        chance == UNIT ==> forall|i: int|
            0 <= i < child@.len() ==> is_mutation(#[trigger] child@[i], weights@[i], scale as int),
{
    let mut rng = rand::thread_rng();
    let mut child: Vec<u32> = Vec::new();
    let mut i: usize = 0;
    while i < weights.len()
        invariant
            i <= weights@.len(),
            chance <= UNIT,
            scale <= 0x7fff_ffff,
            child@.len() == i,
            forall|k: int|
                0 <= k < i ==> (#[trigger] child@[k] == weights@[k] || is_mutation(
                    child@[k],
                    weights@[k],
                    scale as int,
                )),
            chance == 0 ==> child@ == weights@.take(i as int),
            chance == UNIT ==> forall|k: int|
                0 <= k < i ==> is_mutation(#[trigger] child@[k], weights@[k], scale as int),
        decreases weights@.len() - i,
    {
        let w: u32 = weights[i];
        let ghost before = child@;
        if random_ratio(&mut rng, chance, UNIT) {
            let shift: u32 = random_in_range(&mut rng, 0, 2 * scale);
            let offset: i64 = shift as i64 - scale as i64;
            let m: u32 = mutate_weight(w, offset);
            child.push(m);
            proof {
                assert(m == mutated(w as int, offset as int));
                assert(is_mutation(m, w, scale as int));
            }
        } else {
            child.push(w);
        }
        proof {
            assert forall|k: int| 0 <= k < i implies child@[k] == before[k] by {}
            if chance == 0 {
                assert(child@ =~= weights@.take(i + 1));
            }
        }
        i = i + 1;
    }
    proof {
        assert(weights@.take(weights@.len() as int) =~= weights@);
    }
    child
}

/// Whether `grown` is `before` extended to at least `len` weights: what
/// was there is kept, and each added weight lies in `[0, 1]`.
pub open spec fn grown_from(grown: Seq<u32>, before: Seq<u32>, len: nat) -> bool {
    &&& grown.len() == if before.len() >= len {
        before.len()
    } else {
        len
    }
    &&& forall|i: int| 0 <= i < before.len() ==> #[trigger] grown[i] == before[i]
    &&& forall|i: int| before.len() <= i < grown.len() ==> #[trigger] grown[i] <= UNIT
}

/// Growing a valid genome within the capacity gives a valid genome.
pub proof fn lemma_growth_keeps_valid(grown: Seq<u32>, before: Seq<u32>, len: nat)
    requires
        valid_genome(before),
        len <= GENOME_CAPACITY,
        grown_from(grown, before, len),
    ensures
        valid_genome(grown),
{
    assert forall|i: int| 0 <= i < grown.len() implies #[trigger] grown[i] <= UNIT by {
        if i < before.len() {
            assert(grown[i] == before[i]);
        }
    }
}

/// Extends a genome to at least `len` weights. Each added weight is a
/// fresh uniform random value from `[0, 1]`; the weights already there
/// are kept.
pub fn grow_genome(weights: &mut Vec<u32>, len: usize)
    ensures
        grown_from(final(weights)@, old(weights)@, len as nat),
{
    let mut rng = rand::thread_rng();
    while weights.len() < len
        invariant
            weights@.len() >= old(weights)@.len(),
            weights@.len() <= len || weights@.len() == old(weights)@.len(),
            forall|i: int| 0 <= i < old(weights)@.len() ==> #[trigger] weights@[i] == old(weights)@[i],
            forall|i: int| old(weights)@.len() <= i < weights@.len() ==> #[trigger] weights@[i] <= UNIT,
        decreases len - weights@.len(),
    {
        let fresh: u32 = random_in_range(&mut rng, 0, UNIT);
        weights.push(fresh);
    }
}

} // verus!
