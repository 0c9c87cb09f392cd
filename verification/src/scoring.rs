//! The decision policy: one dense scoring pass over the sensor vector,
//! and the choice of the best-scoring candidate.

use vstd::prelude::*;
use crate::genome::{valid_genome, UNIT};

verus! {

/// The number of leading weights that scoring `n` inputs against `m`
/// outputs reads: input `i` and output `j` meet at position `i * j`.
pub open spec fn genome_span(n: nat, m: nat) -> nat {
    if n == 0 || m == 0 {
        0
    } else {
        ((n - 1) * (m - 1) + 1) as nat
    }
}

/// The sum over the first `n` inputs of input `i` times the weight at
/// position `i * j`.
pub open spec fn input_dot(input: Seq<u32>, genome: Seq<u32>, j: int, n: int) -> int
    decreases n,
{
    if n <= 0 {
        0
    } else {
        input_dot(input, genome, j, n - 1) + input[n - 1] * genome[(n - 1) * j]
    }
}

/// The score of output `j`: the mean over the inputs of input times
/// weight, rounded down. With no input every score is zero.
pub open spec fn score_of(input: Seq<u32>, genome: Seq<u32>, j: int) -> int {
    if input.len() == 0 {
        0
    } else {
        input_dot(input, genome, j, input.len() as int) / (UNIT * input.len())
    }
}

/// The scores of outputs `0 .. m`.
pub open spec fn scores_of(input: Seq<u32>, genome: Seq<u32>, m: nat) -> Seq<u32> {
    Seq::new(m, |j: int| score_of(input, genome, j) as u32)
}

/// Position `i * j` lies within the span of `n` inputs and `m` outputs.
pub proof fn lemma_position_in_span(i: int, j: int, n: nat, m: nat)
    requires
        0 <= i < n,
        0 <= j < m,
    ensures
        0 <= i * j < genome_span(n, m),
{
    assert(0 <= i * j <= (n - 1) * (m - 1)) by (nonlinear_arith)
        requires
            0 <= i <= n - 1,
            0 <= j <= m - 1,
    ;
}

proof fn lemma_input_dot_bounds(input: Seq<u32>, genome: Seq<u32>, j: int, n: int, m: nat)
    requires
        0 <= n <= input.len(),
        0 <= j < m,
        genome.len() >= genome_span(input.len(), m),
        forall|i: int| 0 <= i < genome.len() ==> #[trigger] genome[i] <= UNIT,
    ensures
        0 <= input_dot(input, genome, j, n) <= n * 4_294_967_295_000_000,
    decreases n,
{
    if n > 0 {
        lemma_input_dot_bounds(input, genome, j, n - 1, m);
        lemma_position_in_span(n - 1, j, input.len(), m);
        let x = input[n - 1] as int;
        let w = genome[(n - 1) * j] as int;
        assert(0 <= x * w <= 4_294_967_295_000_000) by (nonlinear_arith)
            requires
                0 <= x <= 0xffff_ffff,
                0 <= w <= 1_000_000,
        ;
    }
}

/// Every score fits the width of an input.
pub proof fn lemma_score_bounds(input: Seq<u32>, genome: Seq<u32>, j: int, m: nat)
    requires
        0 <= j < m,
        genome.len() >= genome_span(input.len(), m),
        forall|i: int| 0 <= i < genome.len() ==> #[trigger] genome[i] <= UNIT,
    ensures
        0 <= score_of(input, genome, j) <= 0xffff_ffff,
{
    if input.len() > 0 {
        let n = input.len() as int;
        lemma_input_dot_bounds(input, genome, j, n, m);
        let d = input_dot(input, genome, j, n);
        assert(0 <= d / (UNIT * n) <= 0xffff_ffff) by (nonlinear_arith)
            requires
                0 <= d <= n * 4_294_967_295_000_000,
                n > 0,
                UNIT == 1_000_000,
        ;
    }
}

/// Scores `output_count` outputs from the sensor vector `input` with the
/// weights of `genome`.
pub fn score(input: &Vec<u32>, genome: &Vec<u32>, output_count: usize) -> (out: Vec<u32>)
    requires
        valid_genome(genome@),
        genome@.len() >= genome_span(input@.len(), output_count as nat),
    ensures
        out@ == scores_of(input@, genome@, output_count as nat),
{
    let n: usize = input.len();
    let mut out: Vec<u32> = Vec::new();
    let mut j: usize = 0;
    while j < output_count
        invariant
            j <= output_count,
            n == input@.len(),
            valid_genome(genome@),
            genome@.len() >= genome_span(input@.len(), output_count as nat),
            out@.len() == j,
            forall|k: int| 0 <= k < j ==> out@[k] == score_of(input@, genome@, k) as u32,
        decreases output_count - j,
    {
        let mut acc: u128 = 0;
        let mut i: usize = 0;
        while i < n
            invariant
                i <= n,
                j < output_count,
                n == input@.len(),
                valid_genome(genome@),
                genome@.len() >= genome_span(input@.len(), output_count as nat),
                acc == input_dot(input@, genome@, j as int, i as int),
                acc <= i * 4_294_967_295_000_000,
            decreases n - i,
        {
            proof {
                lemma_position_in_span(i as int, j as int, n as nat, output_count as nat);
                lemma_input_dot_bounds(
                    input@,
                    genome@,
                    j as int,
                    i + 1,
                    output_count as nat,
                );
            }
            let pos: usize = i * j;
            proof {
                let x = input@[i as int] as int;
                let w = genome@[pos as int] as int;
                assert(0 <= x * w <= 4_294_967_295_000_000) by (nonlinear_arith)
                    requires
                        0 <= x <= 0xffff_ffff,
                        0 <= w <= 1_000_000,
                ;
            }
            acc = acc + (input[i] as u128) * (genome[pos] as u128);
            i = i + 1;
        }
        let value: u32 = if n == 0 {
            0
        } else {
            proof {
                lemma_score_bounds(input@, genome@, j as int, output_count as nat);
                assert(UNIT * n <= 1_000_000 * 0xffff_ffff_ffff_ffff) by (nonlinear_arith)
                    requires
                        UNIT == 1_000_000,
                        0 <= n <= 0xffff_ffff_ffff_ffff,
                ;
            }
            let denominator: u128 = (UNIT as u128) * (n as u128);
            (acc / denominator) as u32
        };
        out.push(value);
        j = j + 1;
    }
    proof {
        assert(out@ =~= scores_of(input@, genome@, output_count as nat));
    }
    out
}

/// The largest entry of `s`, or zero when `s` is empty.
pub open spec fn peak(s: Seq<u32>) -> int
    decreases s.len(),
{
    if s.len() == 0 {
        0
    } else if s.last() > peak(s.drop_last()) {
        s.last() as int
    } else {
        peak(s.drop_last())
    }
}

/// The index that a scan from the left settles on when an entry
/// replaces the running best only if it is strictly greater, and the
/// running best starts at zero.
pub open spec fn best_index(s: Seq<u32>) -> int
    decreases s.len(),
{
    if s.len() == 0 {
        0
    } else if s.last() > peak(s.drop_last()) {
        s.len() - 1
    } else {
        best_index(s.drop_last())
    }
}

/// What the chosen index is: index zero when no entry is positive;
/// otherwise the first position that holds the largest entry.
pub proof fn lemma_best_index(s: Seq<u32>)
    ensures
        forall|i: int| 0 <= i < s.len() ==> #[trigger] s[i] <= peak(s),
        peak(s) >= 0,
        peak(s) == 0 ==> best_index(s) == 0,
        s.len() > 0 ==> 0 <= best_index(s) < s.len(),
        peak(s) > 0 ==> s[best_index(s)] == peak(s),
        forall|i: int| 0 <= i < best_index(s) ==> #[trigger] s[i] < peak(s),
    decreases s.len(),
{
    if s.len() > 0 {
        let head = s.drop_last();
        lemma_best_index(head);
        assert forall|i: int| 0 <= i < s.len() implies #[trigger] s[i] <= peak(s) by {
            if i < s.len() - 1 {
                assert(s[i] == head[i]);
            }
        }
        assert forall|i: int| 0 <= i < best_index(s) implies #[trigger] s[i] < peak(s) by {
            assert(s[i] == head[i]);
        }
        if !(s.last() > peak(head)) && peak(s) > 0 {
            assert(s[best_index(head)] == head[best_index(head)]);
        }
    }
}

/// Picks the best-scoring candidate: the first index holding the
/// largest value, or index zero when no value is positive.
pub fn argmax(values: &[u32]) -> (best: usize)
    ensures
        best == best_index(values@),
{
    let mut best: usize = 0;
    let mut value: u32 = 0;
    let mut i: usize = 0;
    while i < values.len()
        invariant
            i <= values.len(),
            best == best_index(values@.take(i as int)),
            value == peak(values@.take(i as int)),
        decreases values.len() - i,
    {
        proof {
            let next = values@.take(i + 1);
            assert(next.drop_last() =~= values@.take(i as int));
            assert(next.last() == values@[i as int]);
        }
        if values[i] > value {
            best = i;
            value = values[i];
        }
        i = i + 1;
    }
    proof {
        assert(values@.take(values.len() as int) =~= values@);
    }
    best
}

} // verus!
