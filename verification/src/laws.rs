//! What holds of the energy economy and of the actions, for every cell
//! and every field.

use vstd::prelude::*;
use vstd::arithmetic::div_mod::{
    lemma_div_pos_is_pos, lemma_fundamental_div_mod, lemma_fundamental_div_mod_converse,
    lemma_mod_pos_bound,
    lemma_multiply_divide_lt,
};
use crate::action::Action;
use crate::cell::CellState;
use crate::coord::lemma_wrap_periodic;
use crate::field::Field;
use crate::genome::{
    grown_from, lemma_growth_keeps_valid, lemma_mutation_keeps_valid, mutation_of, valid_genome,
};
use crate::scoring::{genome_span, scores_of};
use crate::state::{chosen_action, chosen_offset, FieldState, INPUT_COUNT, OUTPUT_COUNT};

verus! {

/// Giving energy never lifts a cell above `MAX_ENERGY` and never lowers
/// it. Taking energy never leaves less than zero; what is removed and
/// what is left add up to what was there; and less than the request is
/// removed exactly when the cell held less than the request.
pub proof fn lemma_energy_stays_in_range(cell: CellState, amount: int)
    requires
        cell.wf(),
        amount >= 0,
    ensures
        cell.energy <= cell.given(amount).energy <= Field::MAX_ENERGY,
        cell.given(amount).energy <= cell.energy + amount,
        0 <= cell.taken(amount).energy <= cell.energy,
        cell.removable(amount) + cell.taken(amount).energy == cell.energy,
        cell.removable(amount) <= amount,
        cell.removable(amount) < amount <==> cell.energy < amount,
        cell.given(amount).wf(),
        cell.taken(amount).wf(),
{
}

/// A request for at least all that a cell holds leaves it with exactly
/// zero energy, and no smaller request does.
pub proof fn lemma_taking_all_leaves_zero(cell: CellState, amount: int)
    requires
        cell.wf(),
        amount >= 0,
    ensures
        cell.taken(amount).energy == 0 <==> amount >= cell.energy,
        cell.taken(cell.energy).energy == 0,
{
}

/// After a division parent and offspring hold the same energy, half of
/// what the parent held, rounded down. Together they hold what the
/// parent held before, less the one unit that halving an odd amount
/// loses.
pub proof fn lemma_division_shares_energy(parent: CellState, child: Seq<u32>)
    requires
        parent.wf(),
    ensures
        parent.offspring(child).energy == parent.halved().energy,
        parent.halved().energy == parent.energy / 2,
        parent.halved().energy + parent.offspring(child).energy == parent.energy - parent.energy
            % 2,
        parent.energy % 2 == 0 ==> parent.halved().energy + parent.offspring(child).energy
            == parent.energy,
        !parent.offspring(child).died,
        parent.offspring(child).genome == child,
{
}

/// `Eat` against another slot always leaves the acting cell's slot
/// empty and the target slot occupied, whatever the target held: the
/// acting cell stands there, fed and charged the cost, and died if that
/// left it without energy.
pub proof fn lemma_eat_relocates(
    field: FieldState,
    p: (int, int),
    t: (int, int),
    child: Seq<u32>,
)
    requires
        field.cells.contains_key(p),
        t != p,
    ensures
        ({
            let after = field.resolve(p, t, Action::Eat, child);
            let fed = match field.slot(t) {
                Some(prey) => field.cells[p].given(prey.energy),
                None => field.cells[p],
            };
            &&& !after.cells.contains_key(p)
            &&& after.cells.contains_key(t)
            &&& after.cells[t] == fed.taken(Field::EAT_COST as int).settle()
            &&& after.cells.dom() == field.cells.dom().remove(p).insert(t)
            &&& forall|q: (int, int)| q != p && q != t ==> after.slot(q) == field.slot(q)
        }),
{
    let after = field.resolve(p, t, Action::Eat, child);
    assert(after.cells.dom() =~= field.cells.dom().remove(p).insert(t));
}

/// `Move` and `Divide` leave the whole field as it is when the target
/// slot holds a live cell.
pub proof fn lemma_live_target_blocks(
    field: FieldState,
    p: (int, int),
    t: (int, int),
    child: Seq<u32>,
)
    requires
        field.is_live(t),
    ensures
        field.resolve(p, t, Action::Move, child) == field,
        field.resolve(p, t, Action::Divide, child) == field,
{
}

/// `Energize` leaves the whole field as it is unless the target slot
/// holds a live cell other than the acting one.
pub proof fn lemma_energize_needs_live_target(
    field: FieldState,
    p: (int, int),
    t: (int, int),
    child: Seq<u32>,
)
    requires
        !field.is_live(t) || t == p,
    ensures
        field.resolve(p, t, Action::Energize, child) == field,
{
}

/// Which slots are occupied after an action: `Charge` and `Energize`
/// change none; `Divide` that goes ahead fills the target; `Move` that
/// goes ahead, and `Eat`, empty the acting cell's slot and fill the
/// target.
pub proof fn lemma_occupied_after_action(
    field: FieldState,
    p: (int, int),
    t: (int, int),
    action: Action,
    child: Seq<u32>,
)
    requires
        field.cells.contains_key(p),
    ensures
        ({
            let before = field.cells.dom();
            let after = field.resolve(p, t, action, child).cells.dom();
            let blocked = t == p || field.is_live(t);
            match action {
                Action::Charge => after == before,
                Action::Energize => after == before,
                Action::Divide => after == if blocked {
                    before
                } else {
                    before.insert(t)
                },
                Action::Move => after == if blocked {
                    before
                } else {
                    before.remove(p).insert(t)
                },
                Action::Eat => after == if t == p {
                    before
                } else {
                    before.remove(p).insert(t)
                },
            }
        }),
{
    let before = field.cells.dom();
    let after = field.resolve(p, t, action, child).cells.dom();
    let blocked = t == p || field.is_live(t);
    match action {
        Action::Charge => {
            assert(after =~= before);
        },
        Action::Energize => {
            assert(after =~= before);
        },
        Action::Divide => {
            if !blocked {
                assert(after =~= before.insert(t));
            }
        },
        Action::Move => {
            if !blocked {
                assert(after =~= before.remove(p).insert(t));
            }
        },
        Action::Eat => {
            if t != p {
                assert(after =~= before.remove(p).insert(t));
            }
        },
    }
}

/// An action keeps a well-formed field well formed, provided the target
/// lies on the grid and the offspring's genome is valid.
pub proof fn lemma_action_keeps_wf(
    field: FieldState,
    p: (int, int),
    t: (int, int),
    action: Action,
    child: Seq<u32>,
)
    requires
        field.wf(),
        field.cells.contains_key(p),
        field.in_range(t),
        valid_genome(child),
    ensures
        field.resolve(p, t, action, child).wf(),
{
    let after = field.resolve(p, t, action, child);
    assert(field.cells.contains_key(p));
    if field.cells.contains_key(t) {
        assert(field.cells[t].wf());
    }
    assert forall|q: (int, int)| #[trigger] after.cells.contains_key(q) implies after.in_range(q)
        && after.cells[q].wf() by {
        if q != p && q != t {
            assert(field.cells.contains_key(q));
        }
    }
}

/// On a grid of one slot every direction leads back to the acting cell,
/// so only `Charge` has an effect: any other action leaves the field as
/// it is.
pub proof fn lemma_single_slot_actions(
    field: FieldState,
    d: (int, int),
    action: Action,
    child: Seq<u32>,
)
    requires
        field.width == 1,
        field.height == 1,
        action != Action::Charge,
    ensures
        field.shifted((0, 0), d) == (0int, 0int),
        field.resolve((0, 0), field.shifted((0, 0), d), action, child) == field,
{
}

/// The turn of the only cell on a grid of one slot, when it holds more
/// energy than its metabolic cost: the cell stays in its slot, alive,
/// and ends with its energy less `ENERGY_LOSS`, unless it chose
/// `Charge`, which then adds `CHARGE_AMOUNT` up to the cap.
pub proof fn lemma_single_slot_turn(field: FieldState, post: FieldState)
    requires
        field.wf(),
        field.width == 1,
        field.height == 1,
        field.is_live((0, 0)),
        field.cells[(0, 0)].energy > Field::ENERGY_LOSS,
        field.turn_outcome((0, 0), post),
    ensures
        post.cells.dom() == field.cells.dom(),
        post.is_live((0, 0)),
        ({
            let paid = field.cells[(0, 0)].taken(Field::ENERGY_LOSS as int);
            ||| post.cells[(0, 0)].energy == paid.energy
            ||| post.cells[(0, 0)].energy == paid.given(Field::CHARGE_AMOUNT as int).energy
        }),
{
    let p = (0int, 0int);
    let paid = field.after_cost(p);
    let (genome, child): (Seq<u32>, Seq<u32>) = choose|genome: Seq<u32>, child: Seq<u32>|
        post == #[trigger] paid.act(p, genome, child);
    let scores = scores_of(paid.sensors(p), genome, OUTPUT_COUNT as nat);
    let action = chosen_action(scores);
    let grown = paid.set(p, paid.cells[p].regrown(genome));
    let t = paid.shifted(p, chosen_offset(scores));
    assert(t == p);
    assert(post == grown.resolve(p, t, action, child));
    assert(field.cells.dom() =~= grown.cells.dom());
    if action == Action::Charge {
        assert(post.cells.dom() =~= grown.cells.dom());
    }
}

/// A turn keeps a well-formed field well formed and its dimensions as
/// they are: afterwards, too, every occupied slot lies on the grid, no
/// cell holds more than `MAX_ENERGY`, and every genome is valid.
pub proof fn lemma_turn_keeps_wf(field: FieldState, p: (int, int), post: FieldState)
    requires
        field.wf(),
        field.in_range(p),
        field.turn_outcome(p, post),
    ensures
        post.wf(),
        post.width == field.width,
        post.height == field.height,
{
    if field.is_live(p) {
        let paid = field.after_cost(p);
        assert(field.cells.contains_key(p));
        assert(paid.wf()) by {
            assert forall|q: (int, int)| #[trigger] paid.cells.contains_key(q) implies paid.in_range(
                q,
            ) && paid.cells[q].wf() by {
                if q != p {
                    assert(field.cells.contains_key(q));
                }
            }
        }
        if paid.cells[p].energy == 0 {
            assert forall|q: (int, int)| #[trigger] post.cells.contains_key(q) implies post.in_range(
                q,
            ) && post.cells[q].wf() by {
                if q != p {
                    assert(field.cells.contains_key(q));
                }
            }
        } else {
            let (genome, child): (Seq<u32>, Seq<u32>) = choose|genome: Seq<u32>, child: Seq<u32>|
                {
                    &&& grown_from(
                        genome,
                        field.cells[p].genome,
                        genome_span(INPUT_COUNT as nat, OUTPUT_COUNT as nat),
                    )
                    &&& mutation_of(child, genome, Field::MUTATION_SCALE as int)
                    &&& post == #[trigger] paid.act(p, genome, child)
                };
            let scores = scores_of(paid.sensors(p), genome, OUTPUT_COUNT as nat);
            let offset = chosen_offset(scores);
            let t = paid.shifted(p, offset);
            let grown = paid.set(p, paid.cells[p].regrown(genome));
            lemma_growth_keeps_valid(
                genome,
                field.cells[p].genome,
                genome_span(INPUT_COUNT as nat, OUTPUT_COUNT as nat),
            );
            lemma_mutation_keeps_valid(child, genome, Field::MUTATION_SCALE as int);
            lemma_wrap_periodic(p.0 + offset.0, field.width);
            lemma_wrap_periodic(p.1 + offset.1, field.height);
            assert(grown.wf()) by {
                assert forall|q: (int, int)| #[trigger]
                    grown.cells.contains_key(q) implies grown.in_range(q) && grown.cells[q].wf() by {
                    if q != p {
                        assert(paid.cells.contains_key(q));
                    }
                }
            }
            lemma_action_keeps_wf(grown, p, t, chosen_action(scores), child);
        }
    }
}

/// A tick keeps a well-formed field well formed and its dimensions as
/// they are.
pub proof fn lemma_tick_keeps_wf(field: FieldState, post: FieldState)
    requires
        field.wf(),
        field.tick_outcome(post),
    ensures
        post.wf(),
        post.width == field.width,
        post.height == field.height,
{
    let trace: Seq<FieldState> = choose|trace: Seq<FieldState>|
        {
            &&& trace.len() == field.width * field.height + 1
            &&& trace[0] == field
            &&& trace.last() == post
            &&& forall|k: int|
                0 <= k < field.width * field.height ==> (#[trigger] trace[k]).turn_outcome(
                    field.scan_position(k),
                    trace[k + 1],
                )
        };
    lemma_trace_keeps_wf(field, trace, field.width * field.height);
}

/// Every field up to position `n` of a trace of turns is well formed
/// and has the dimensions of the first.
proof fn lemma_trace_keeps_wf(field: FieldState, trace: Seq<FieldState>, n: int)
    requires
        field.wf(),
        0 <= n <= field.width * field.height,
        trace.len() == field.width * field.height + 1,
        trace[0] == field,
        forall|k: int|
            0 <= k < field.width * field.height ==> (#[trigger] trace[k]).turn_outcome(
                field.scan_position(k),
                trace[k + 1],
            ),
    ensures
        trace[n].wf(),
        trace[n].width == field.width,
        trace[n].height == field.height,
    decreases n,
{
    if n > 0 {
        let k = n - 1;
        lemma_trace_keeps_wf(field, trace, k);
        assert(field.width * field.height == field.height * field.width) by (nonlinear_arith);
        lemma_multiply_divide_lt(k, field.height, field.width);
        lemma_div_pos_is_pos(k, field.height);
        lemma_mod_pos_bound(k, field.height);
        assert(trace[k].turn_outcome(field.scan_position(k), trace[k + 1]));
        lemma_turn_keeps_wf(trace[k], field.scan_position(k), trace[k + 1]);
    }
}

/// An action keeps a settled field settled: whoever it leaves without
/// energy has died.
pub proof fn lemma_action_keeps_settled(
    field: FieldState,
    p: (int, int),
    t: (int, int),
    action: Action,
    child: Seq<u32>,
)
    requires
        field.settled(),
        field.cells.contains_key(p),
    ensures
        field.resolve(p, t, action, child).settled(),
{
    let after = field.resolve(p, t, action, child);
    if field.cells.contains_key(t) {
        assert(field.cells[t].settled());
    }
    assert forall|q: (int, int)| #[trigger] after.cells.contains_key(q) implies after.cells[q].settled() by {
        if q != p && q != t {
            assert(field.cells.contains_key(q));
        }
    }
}

/// A turn keeps a settled field settled: a cell that the metabolic cost
/// or the cost of its action leaves without energy is a tombstone when
/// the turn ends.
pub proof fn lemma_turn_keeps_settled(field: FieldState, p: (int, int), post: FieldState)
    requires
        field.settled(),
        field.turn_outcome(p, post),
    ensures
        post.settled(),
{
    if field.is_live(p) {
        let paid = field.after_cost(p);
        if paid.cells[p].energy == 0 {
            assert forall|q: (int, int)| #[trigger] post.cells.contains_key(q) implies post.cells[q].settled() by {
                if q != p {
                    assert(field.cells.contains_key(q));
                }
            }
        } else {
            let (genome, child): (Seq<u32>, Seq<u32>) = choose|genome: Seq<u32>, child: Seq<u32>|
                post == #[trigger] paid.act(p, genome, child);
            let scores = scores_of(paid.sensors(p), genome, OUTPUT_COUNT as nat);
            let t = paid.shifted(p, chosen_offset(scores));
            let grown = paid.set(p, paid.cells[p].regrown(genome));
            assert(field.cells[p].settled());
            assert(grown.settled()) by {
                assert forall|q: (int, int)| #[trigger]
                    grown.cells.contains_key(q) implies grown.cells[q].settled() by {
                    if q != p {
                        assert(field.cells.contains_key(q));
                    }
                }
            }
            lemma_action_keeps_settled(grown, p, t, chosen_action(scores), child);
        }
    }
}

/// A tick keeps a settled field settled: if no cell without energy was
/// alive before the tick, none is after it. A cell that the tick left
/// without energy is a tombstone when the tick ends.
pub proof fn lemma_tick_keeps_settled(field: FieldState, post: FieldState)
    requires
        field.wf(),
        field.settled(),
        field.tick_outcome(post),
    ensures
        post.settled(),
{
    assert(field.width * field.height >= 0) by (nonlinear_arith)
        requires
            field.width > 0,
            field.height > 0,
    ;
    let trace: Seq<FieldState> = choose|trace: Seq<FieldState>|
        {
            &&& trace.len() == field.width * field.height + 1
            &&& trace[0] == field
            &&& trace.last() == post
            &&& forall|k: int|
                0 <= k < field.width * field.height ==> (#[trigger] trace[k]).turn_outcome(
                    field.scan_position(k),
                    trace[k + 1],
                )
        };
    lemma_trace_keeps_settled(field, trace, field.width * field.height);
}

/// Every field up to position `n` of a trace of turns is settled.
proof fn lemma_trace_keeps_settled(field: FieldState, trace: Seq<FieldState>, n: int)
    requires
        field.settled(),
        0 <= n < trace.len(),
        trace[0] == field,
        forall|k: int|
            0 <= k < trace.len() - 1 ==> (#[trigger] trace[k]).turn_outcome(
                field.scan_position(k),
                trace[k + 1],
            ),
    ensures
        trace[n].settled(),
    decreases n,
{
    if n > 0 {
        let k = n - 1;
        lemma_trace_keeps_settled(field, trace, k);
        assert(trace[k].turn_outcome(field.scan_position(k), trace[k + 1]));
        lemma_turn_keeps_settled(trace[k], field.scan_position(k), trace[k + 1]);
    }
}

/// A turn in which a kind of action is avoided is a turn like any
/// other: what holds of every outcome of a turn holds of it.
pub proof fn lemma_turn_avoiding_is_outcome(
    field: FieldState,
    p: (int, int),
    avoided: Action,
    post: FieldState,
)
    requires
        field.turn_outcome_avoiding(p, avoided, post),
    ensures
        field.turn_outcome(p, post),
{
    if field.is_live(p) && field.after_cost(p).cells[p].energy != 0 {
        let paid = field.after_cost(p);
        let (genome, child): (Seq<u32>, Seq<u32>) = choose|genome: Seq<u32>, child: Seq<u32>|
            {
                &&& grown_from(
                    genome,
                    field.cells[p].genome,
                    genome_span(INPUT_COUNT as nat, OUTPUT_COUNT as nat),
                )
                &&& mutation_of(child, genome, Field::MUTATION_SCALE as int)
                &&& paid.decision(p, genome) != avoided
                &&& post == #[trigger] paid.act(p, genome, child)
            };
        assert(post == paid.act(p, genome, child));
    }
}

/// A tick in which a kind of action is avoided is a tick like any
/// other: what holds of every outcome of a tick holds of it.
pub proof fn lemma_tick_avoiding_is_outcome(field: FieldState, avoided: Action, post: FieldState)
    requires
        field.tick_outcome_avoiding(avoided, post),
    ensures
        field.tick_outcome(post),
{
    let trace: Seq<FieldState> = choose|trace: Seq<FieldState>|
        {
            &&& trace.len() == field.width * field.height + 1
            &&& trace[0] == field
            &&& trace.last() == post
            &&& forall|k: int|
                0 <= k < field.width * field.height ==> (
                #[trigger] trace[k]).turn_outcome_avoiding(
                    field.scan_position(k),
                    avoided,
                    trace[k + 1],
                )
        };
    assert forall|k: int| 0 <= k < field.width * field.height implies (
    #[trigger] trace[k]).turn_outcome(field.scan_position(k), trace[k + 1]) by {
        assert(trace[k].turn_outcome_avoiding(field.scan_position(k), avoided, trace[k + 1]));
        lemma_turn_avoiding_is_outcome(trace[k], field.scan_position(k), avoided, trace[k + 1]);
    }
}

/// The most energy that a cell can lose in its own turn unless it
/// divides: the metabolic cost, and what `Energize` costs and hands
/// over.
pub open spec fn turn_toll() -> int {
    Field::ENERGY_LOSS + Field::ENERGIZE_COST + Field::ENERGIZE_AMOUNT
}

/// A turn on a crowded grid in which the cell does not eat: every
/// target is live, so no move and no division goes ahead. The same
/// slots stay occupied, no other cell loses energy, and the acting cell
/// loses at most the toll of a turn; if it held more than that, it is
/// still alive.
pub proof fn lemma_crowded_turn(field: FieldState, p: (int, int), post: FieldState)
    requires
        field.wf(),
        field.crowded(),
        field.in_range(p),
        field.turn_outcome_avoiding(p, Action::Eat, post),
    ensures
        post.wf(),
        post.width == field.width,
        post.height == field.height,
        post.cells.dom() == field.cells.dom(),
        post.cells[p].energy >= field.cells[p].energy - turn_toll(),
        field.cells[p].energy > turn_toll() ==> post.crowded(),
        forall|q: (int, int)|
            field.in_range(q) && q != p ==> {
                &&& post.is_live(q)
                &&& (#[trigger] post.cells[q]).energy >= field.cells[q].energy
            },
{
    lemma_turn_avoiding_is_outcome(field, p, Action::Eat, post);
    lemma_turn_keeps_wf(field, p, post);
    assert(field.is_live(p));
    let paid = field.after_cost(p);
    assert forall|q: (int, int)| field.in_range(q) && q != p implies field.is_live(q) by {}
    if paid.cells[p].energy == 0 {
        assert(post.cells.dom() =~= field.cells.dom());
    } else {
        let (genome, child): (Seq<u32>, Seq<u32>) = choose|genome: Seq<u32>, child: Seq<u32>|
            {
                &&& paid.decision(p, genome) != Action::Eat
                &&& post == #[trigger] paid.act(p, genome, child)
            };
        let scores = scores_of(paid.sensors(p), genome, OUTPUT_COUNT as nat);
        let offset = chosen_offset(scores);
        let action = chosen_action(scores);
        let t = paid.shifted(p, offset);
        let grown = paid.set(p, paid.cells[p].regrown(genome));
        lemma_wrap_periodic(p.0 + offset.0, field.width);
        lemma_wrap_periodic(p.1 + offset.1, field.height);
        assert(field.in_range(t));
        assert(field.is_live(t));
        assert(grown.is_live(t));
        assert(post == grown.resolve(p, t, action, child));
        assert(grown.cells.dom() =~= field.cells.dom());
        assert(post.cells.dom() =~= field.cells.dom());
        if t != p {
            assert(field.cells[t].wf());
        }
    }
    assert forall|q: (int, int)| field.in_range(q) && q != p implies post.is_live(q) && (
    #[trigger] post.cells[q]).energy >= field.cells[q].energy by {
        assert(field.is_live(q));
        assert(field.cells[q].wf());
    }
    if field.cells[p].energy > turn_toll() {
        assert forall|q: (int, int)| post.in_range(q) implies #[trigger] post.is_live(q) by {
            if q != p {
                assert(field.is_live(q));
            }
        }
    }
}

/// The place of the slot `q` in the scan order of a field of the given
/// height.
spec fn scan_index(q: (int, int), height: int) -> int {
    q.0 * height + q.1
}

/// A tick on a crowded grid in which no cell eats and every cell starts
/// with at least `low` energy, `low` being more than the toll of a
/// turn: no cell dies, moves or divides. After the tick the same slots
/// are occupied, every one of them by a live cell, and every cell holds
/// at least `low` less the toll and at most `MAX_ENERGY`.
pub proof fn lemma_crowded_tick(field: FieldState, low: int, post: FieldState)
    requires
        field.wf(),
        field.crowded(),
        low > turn_toll(),
        forall|q: (int, int)| field.in_range(q) ==> (#[trigger] field.cells[q]).energy >= low,
        field.tick_outcome_avoiding(Action::Eat, post),
    ensures
        post.wf(),
        post.width == field.width,
        post.height == field.height,
        post.cells.dom() == field.cells.dom(),
        post.crowded(),
        forall|q: (int, int)|
            field.in_range(q) ==> low - turn_toll() <= (#[trigger] post.cells[q]).energy
                <= Field::MAX_ENERGY,
{
    let trace: Seq<FieldState> = choose|trace: Seq<FieldState>|
        {
            &&& trace.len() == field.width * field.height + 1
            &&& trace[0] == field
            &&& trace.last() == post
            &&& forall|k: int|
                0 <= k < field.width * field.height ==> (
                #[trigger] trace[k]).turn_outcome_avoiding(
                    field.scan_position(k),
                    Action::Eat,
                    trace[k + 1],
                )
        };
    let n = field.width * field.height;
    assert(n >= 0) by (nonlinear_arith)
        requires
            n == field.width * field.height,
            field.width > 0,
            field.height > 0,
    ;
    lemma_crowded_trace(field, low, trace, n);
    assert forall|q: (int, int)| field.in_range(q) implies low - turn_toll() <= (
    #[trigger] post.cells[q]).energy <= Field::MAX_ENERGY by {
        assert(scan_index(q, field.height) < n) by (nonlinear_arith)
            requires
                0 <= q.0 <= field.width - 1,
                0 <= q.1 < field.height,
                n == field.width * field.height,
                scan_index(q, field.height) == q.0 * field.height + q.1,
        ;
        assert(post.is_live(q));
        assert(post.cells.contains_key(q));
        assert(post.cells[q].wf());
    }
}

/// What holds of field `n` of the trace of such a tick: the cells that
/// had their turn hold at least `low` less the toll, the others at
/// least `low`.
proof fn lemma_crowded_trace(field: FieldState, low: int, trace: Seq<FieldState>, n: int)
    requires
        field.wf(),
        field.crowded(),
        low > turn_toll(),
        forall|q: (int, int)| field.in_range(q) ==> (#[trigger] field.cells[q]).energy >= low,
        0 <= n <= field.width * field.height,
        trace.len() == field.width * field.height + 1,
        trace[0] == field,
        forall|k: int|
            0 <= k < field.width * field.height ==> (#[trigger] trace[k]).turn_outcome_avoiding(
                field.scan_position(k),
                Action::Eat,
                trace[k + 1],
            ),
    ensures
        trace[n].wf(),
        trace[n].width == field.width,
        trace[n].height == field.height,
        trace[n].cells.dom() == field.cells.dom(),
        trace[n].crowded(),
        forall|q: (int, int)|
            field.in_range(q) ==> (#[trigger] trace[n].cells[q]).energy >= if scan_index(
                q,
                field.height,
            ) < n {
                low - turn_toll()
            } else {
                low
            },
    decreases n,
{
    if n > 0 {
        let k = n - 1;
        lemma_crowded_trace(field, low, trace, k);
        let before = trace[k];
        let after = trace[k + 1];
        let p = field.scan_position(k);
        assert(field.width * field.height == field.height * field.width) by (nonlinear_arith);
        lemma_multiply_divide_lt(k, field.height, field.width);
        lemma_div_pos_is_pos(k, field.height);
        lemma_mod_pos_bound(k, field.height);
        lemma_fundamental_div_mod(k, field.height);
        assert(scan_index(p, field.height) == k) by (nonlinear_arith)
            requires
                k == field.height * (k / field.height) + (k % field.height),
                p == (k / field.height, k % field.height),
                scan_index(p, field.height) == p.0 * field.height + p.1,
        ;
        assert(before.in_range(p));
        assert(before.turn_outcome_avoiding(p, Action::Eat, after));
        assert(before.cells[p].energy >= low);
        lemma_crowded_turn(before, p, after);
        assert forall|q: (int, int)| field.in_range(q) implies (#[trigger] after.cells[q]).energy
            >= if scan_index(q, field.height) < n {
            low - turn_toll()
        } else {
            low
        } by {
            if q != p {
                assert(after.cells[q].energy >= before.cells[q].energy);
                if scan_index(q, field.height) == k {
                    lemma_fundamental_div_mod_converse(k, field.height, q.0, q.1);
                    assert(false);
                }
            }
        }
    }
}

} // verus!
