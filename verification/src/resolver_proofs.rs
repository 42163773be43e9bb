//! What holds of every division of an axis.

use vstd::prelude::*;
use vstd::arithmetic::div_mod::{lemma_div_pos_is_pos, lemma_fundamental_div_mod, lemma_mod_bound};
use crate::constraint::{Constraint, lemma_rounded_bound};
use crate::resolver::{
    all_wf, bases, claimed, fixed_lengths, floor_share, floor_shares, leftover, lengths,
    lemma_floor_shares_within, origin_at, oversubscribed, raw_lengths, remainder, share,
    shrink_budget, shrinkable_lengths, total_weight, usable_length, weighted_before,
    weighted_flags, weights,
};
use crate::sums::{
    sum, lemma_sum_bounds, lemma_sum_nonneg, lemma_sum_of_sums, lemma_sum_take_ends,
    lemma_sum_take_step,
};

verus! {

/// The share of every slot, as a sequence.
pub open spec fn shares(cs: Seq<Constraint>, usable: int) -> Seq<int> {
    Seq::new(cs.len(), |i: int| share(cs, usable, i))
}

/// Whether every slot is a fill of weight one.
pub open spec fn all_unit_fills(cs: Seq<Constraint>) -> bool {
    forall|i: int| 0 <= i < cs.len() ==> #[trigger] cs[i] == Constraint::Fill(1)
}

/// Whether every slot is fixed.
pub open spec fn all_fixed(cs: Seq<Constraint>) -> bool {
    forall|i: int| 0 <= i < cs.len() ==> (#[trigger] cs[i]).is_fixed()
}

/// Whether no slot is a minimum or a maximum.
pub open spec fn no_clamps(cs: Seq<Constraint>) -> bool {
    forall|i: int| 0 <= i < cs.len() ==> !((#[trigger] cs[i]) is Min) && !(cs[i] is Max)
}

/// Every slot starts where the one before it ends, one gap further: the
/// slots are packed in their order and exactly `spacing` apart.
pub proof fn lemma_slots_are_packed(origin: int, spacing: int, lens: Seq<int>, i: int)
    requires
        0 <= i < lens.len(),
    ensures
        origin_at(origin, spacing, lens, 0) == origin,
        origin_at(origin, spacing, lens, i + 1) == origin_at(origin, spacing, lens, i) + lens[i]
            + spacing,
{
    lemma_sum_take_step(lens, i);
    lemma_sum_take_ends(lens);
    assert(spacing * (i + 1) == spacing * i + spacing) by (nonlinear_arith);
}

/// No share is negative.
pub proof fn lemma_share_nonnegative(cs: Seq<Constraint>, usable: int, i: int)
    requires
        0 <= i < cs.len(),
    ensures
        0 <= share(cs, usable, i),
{
    let left = leftover(cs, usable);
    let total = total_weight(cs);
    if total > 0 {
        assert(0 <= left * cs[i].weight()) by (nonlinear_arith)
            requires
                0 <= left,
                0 <= cs[i].weight(),
        ;
        lemma_div_pos_is_pos(left * cs[i].weight(), total);
    }
}

/// No slot has a negative length, before shrinking or after.
pub proof fn lemma_lengths_nonnegative(cs: Seq<Constraint>, usable: int)
    requires
        all_wf(cs),
        0 <= usable,
    ensures
        forall|i: int| 0 <= i < cs.len() ==> 0 <= #[trigger] raw_lengths(cs, usable)[i],
        forall|i: int| 0 <= i < cs.len() ==> 0 <= #[trigger] shrinkable_lengths(cs, usable)[i],
        forall|i: int| 0 <= i < cs.len() ==> 0 <= #[trigger] lengths(cs, usable)[i],
        0 <= sum(shrinkable_lengths(cs, usable)),
{
    let raw = raw_lengths(cs, usable);
    assert forall|i: int| 0 <= i < cs.len() implies 0 <= #[trigger] raw[i] by {
        lemma_share_nonnegative(cs, usable, i);
        assert(cs[i].wf());
        match cs[i] {
            Constraint::Percentage(p) => {
                assert(0 <= usable * p) by (nonlinear_arith)
                    requires
                        0 <= usable,
                        0 <= p,
                ;
                lemma_rounded_bound(usable * p, 100);
            },
            Constraint::Ratio(num, den) => {
                assert(0 <= usable * num) by (nonlinear_arith)
                    requires
                        0 <= usable,
                        0 <= num,
                ;
                lemma_rounded_bound(usable * num, den as int);
            },
            _ => {},
        }
    }
    let soft = shrinkable_lengths(cs, usable);
    assert forall|i: int| 0 <= i < cs.len() implies 0 <= #[trigger] soft[i] by {
        assert(0 <= raw[i]);
    }
    lemma_sum_nonneg(soft);
    let budget = shrink_budget(cs, usable);
    assert forall|i: int| 0 <= i < cs.len() implies 0 <= #[trigger] lengths(cs, usable)[i] by {
        assert(0 <= raw[i]);
        if sum(soft) > 0 {
            assert(0 <= raw[i] * budget) by (nonlinear_arith)
                requires
                    0 <= raw[i],
                    0 <= budget,
            ;
            lemma_div_pos_is_pos(raw[i] * budget, sum(soft));
        }
    }
}

/// Up to any slot, what rounding down has kept back, times the total
/// weight, is less than the total weight for each weighted slot so far.
proof fn lemma_rounding_loss_prefix(cs: Seq<Constraint>, usable: int, k: int)
    requires
        0 <= k <= cs.len(),
        total_weight(cs) > 0,
    ensures
        0 <= weighted_before(cs, k) <= k,
        leftover(cs, usable) * sum(weights(cs).take(k)) - sum(floor_shares(cs, usable).take(k))
            * total_weight(cs) <= weighted_before(cs, k) * (total_weight(cs) - 1),
    decreases k,
{
    let left = leftover(cs, usable);
    let total = total_weight(cs);
    let floors = floor_shares(cs, usable);
    let ws = weights(cs);
    let flags = weighted_flags(cs);
    if k == 0 {
        lemma_sum_take_ends(floors);
        lemma_sum_take_ends(ws);
        lemma_sum_take_ends(flags);
    } else {
        lemma_rounding_loss_prefix(cs, usable, k - 1);
        lemma_sum_take_step(floors, k - 1);
        lemma_sum_take_step(ws, k - 1);
        lemma_sum_take_step(flags, k - 1);
        let w = ws[k - 1];
        let f = floors[k - 1];
        assert(f == left * w / total);
        lemma_fundamental_div_mod(left * w, total);
        lemma_mod_bound(left * w, total);
        let a = sum(floors.take(k - 1));
        let b = sum(ws.take(k - 1));
        let n = weighted_before(cs, k - 1);
        let loss = left * w - total * f;
        assert(0 <= loss <= total - 1);
        if w == 0 {
            assert(left * w == 0) by (nonlinear_arith)
                requires
                    w == 0,
            ;
            assert(f == 0);
            assert(loss == 0) by (nonlinear_arith)
                requires
                    loss == left * w - total * f,
                    left * w == 0,
                    f == 0,
            ;
        }
        let step = flags[k - 1];
        assert(loss <= step * (total - 1)) by (nonlinear_arith)
            requires
                0 <= loss <= total - 1,
                step == 1 || (step == 0 && loss == 0),
        ;
        assert(left * (b + w) - (a + f) * total <= (n + step) * (total - 1)) by (nonlinear_arith)
            requires
                left * b - a * total <= n * (total - 1),
                loss == left * w - total * f,
                loss <= step * (total - 1),
        ;
    }
}

/// Rounding down keeps back fewer units than there are weighted slots (or
/// none, if there is none): each of the units has a slot to go to.
pub proof fn lemma_remainder_has_takers(cs: Seq<Constraint>, usable: int)
    requires
        total_weight(cs) > 0,
    ensures
        0 <= remainder(cs, usable) <= weighted_before(cs, cs.len() as int),
{
    let left = leftover(cs, usable);
    let total = total_weight(cs);
    let n = weighted_before(cs, cs.len() as int);
    let f = sum(floor_shares(cs, usable));
    lemma_floor_shares_within(cs, usable);
    lemma_rounding_loss_prefix(cs, usable, cs.len() as int);
    lemma_sum_take_ends(floor_shares(cs, usable));
    lemma_sum_take_ends(weights(cs));
    assert(left - f <= n) by (nonlinear_arith)
        requires
            left * total - f * total <= n * (total - 1),
            total > 0,
            n >= 0,
    ;
}

/// Up to any slot, the extra units handed out are as many as there were
/// weighted slots, but no more than the remainder.
proof fn lemma_extras_prefix(cs: Seq<Constraint>, usable: int, k: int)
    requires
        0 <= k <= cs.len(),
        0 <= remainder(cs, usable),
    ensures
        0 <= weighted_before(cs, k),
        sum(shares(cs, usable).take(k)) == sum(floor_shares(cs, usable).take(k)) + if weighted_before(
            cs,
            k,
        ) < remainder(cs, usable) {
            weighted_before(cs, k)
        } else {
            remainder(cs, usable)
        },
    decreases k,
{
    let floors = floor_shares(cs, usable);
    let flags = weighted_flags(cs);
    let all = shares(cs, usable);
    if k == 0 {
        lemma_sum_take_ends(floors);
        lemma_sum_take_ends(flags);
        lemma_sum_take_ends(all);
    } else {
        lemma_extras_prefix(cs, usable, k - 1);
        lemma_sum_take_step(floors, k - 1);
        lemma_sum_take_step(flags, k - 1);
        lemma_sum_take_step(all, k - 1);
    }
}

/// Where some slot has a positive weight, the shares add up to the
/// leftover: all of it is handed out.
pub proof fn lemma_shares_exhaust_leftover(cs: Seq<Constraint>, usable: int)
    requires
        total_weight(cs) > 0,
    ensures
        sum(shares(cs, usable)) == leftover(cs, usable),
{
    lemma_remainder_has_takers(cs, usable);
    lemma_extras_prefix(cs, usable, cs.len() as int);
    lemma_sum_take_ends(shares(cs, usable));
    lemma_sum_take_ends(floor_shares(cs, usable));
}

/// Where no slot is a minimum or a maximum and some slot has a positive
/// weight, the unshrunk lengths add up to the usable length or to what
/// the rigid slots claim, whichever is larger: flexible slots fill exactly
/// what the rigid ones leave.
pub proof fn lemma_fills_take_what_is_left(cs: Seq<Constraint>, usable: int)
    requires
        no_clamps(cs),
        total_weight(cs) > 0,
    ensures
        sum(raw_lengths(cs, usable)) == claimed(cs, usable) + leftover(cs, usable),
{
    lemma_shares_exhaust_leftover(cs, usable);
    let raw = raw_lengths(cs, usable);
    let rigid = bases(cs, usable);
    let flexible = shares(cs, usable);
    assert forall|i: int| 0 <= i < cs.len() implies raw[i] == rigid[i] + flexible[i] by {
        let left = leftover(cs, usable);
        assert(!(cs[i] is Min) && !(cs[i] is Max));
        if cs[i].weight() == 0 {
            assert(left * cs[i].weight() == 0) by (nonlinear_arith)
                requires
                    cs[i].weight() == 0,
            ;
        }
    }
    lemma_sum_of_sums(rigid, flexible, raw);
}

/// Up to any slot, the shrunk lengths times the whole that may be shrunk
/// are at most the budget times the part that may be shrunk so far.
proof fn lemma_shrunk_prefix(cs: Seq<Constraint>, usable: int, shrunk: Seq<int>, k: int)
    requires
        0 <= k <= cs.len(),
        sum(shrinkable_lengths(cs, usable)) > 0,
        shrunk.len() == cs.len(),
        forall|i: int|
            0 <= i < cs.len() ==> shrunk[i] == shrinkable_lengths(cs, usable)[i] * shrink_budget(
                cs,
                usable,
            ) / sum(shrinkable_lengths(cs, usable)),
    ensures
        sum(shrunk.take(k)) * sum(shrinkable_lengths(cs, usable)) <= shrink_budget(cs, usable)
            * sum(shrinkable_lengths(cs, usable).take(k)),
    decreases k,
{
    let soft = shrinkable_lengths(cs, usable);
    let whole = sum(soft);
    let budget = shrink_budget(cs, usable);
    if k == 0 {
        lemma_sum_take_ends(soft);
        lemma_sum_take_ends(shrunk);
    } else {
        lemma_shrunk_prefix(cs, usable, shrunk, k - 1);
        lemma_sum_take_step(soft, k - 1);
        lemma_sum_take_step(shrunk, k - 1);
        let x = soft[k - 1];
        let y = shrunk[k - 1];
        lemma_fundamental_div_mod(x * budget, whole);
        lemma_mod_bound(x * budget, whole);
        let a = sum(shrunk.take(k - 1));
        let b = sum(soft.take(k - 1));
        assert((a + y) * whole <= budget * (b + x)) by (nonlinear_arith)
            requires
                a * whole <= budget * b,
                whole * y <= x * budget,
        ;
    }
}

/// Unless the fixed slots alone exceed the usable length, the slots
/// together do not exceed it.
pub proof fn lemma_lengths_within_usable(cs: Seq<Constraint>, usable: int)
    requires
        0 <= usable,
        sum(fixed_lengths(cs)) <= usable,
    ensures
        sum(lengths(cs, usable)) <= usable,
{
    let lens = lengths(cs, usable);
    let raw = raw_lengths(cs, usable);
    if !oversubscribed(cs, usable) {
        assert(lens =~= raw);
    } else {
        let soft = shrinkable_lengths(cs, usable);
        let fixed = fixed_lengths(cs);
        let whole = sum(soft);
        let budget = shrink_budget(cs, usable);
        if whole > 0 {
            let shrunk = Seq::new(cs.len(), |i: int| soft[i] * budget / whole);
            lemma_shrunk_prefix(cs, usable, shrunk, cs.len() as int);
            lemma_sum_take_ends(shrunk);
            lemma_sum_take_ends(soft);
            assert(sum(shrunk) <= budget) by (nonlinear_arith)
                requires
                    sum(shrunk) * whole <= budget * whole,
                    whole > 0,
            ;
            assert forall|i: int| 0 <= i < cs.len() implies lens[i] == fixed[i] + shrunk[i] by {
                if cs[i].is_fixed() {
                    assert(soft[i] == 0);
                    assert(soft[i] * budget == 0) by (nonlinear_arith)
                        requires
                            soft[i] == 0,
                    ;
                } else {
                    assert(soft[i] == raw[i]);
                }
            }
            lemma_sum_of_sums(fixed, shrunk, lens);
        } else {
            assert(lens =~= fixed);
        }
    }
}

/// Where every slot is fixed and the lengths with the gaps between them
/// fit in `total`, every slot has exactly its fixed length, the slots
/// follow one another in their order exactly `spacing` apart, and the last
/// one ends within `total`.
pub proof fn lemma_fixed_slots_are_exact(origin: int, total: int, spacing: int, cs: Seq<Constraint>)
    requires
        0 <= spacing,
        all_fixed(cs),
        sum(fixed_lengths(cs)) + spacing * (cs.len() - 1) <= total,
    ensures
        ({
            let lens = lengths(cs, usable_length(total, spacing, cs.len() as int));
            &&& forall|i: int| 0 <= i < cs.len() ==> #[trigger] lens[i] == cs[i].fixed_length()
            &&& origin_at(origin, spacing, lens, 0) == origin
            &&& forall|i: int|
                0 <= i < cs.len() - 1 ==> #[trigger] origin_at(origin, spacing, lens, i + 1)
                    == origin_at(origin, spacing, lens, i) + lens[i] + spacing
            &&& cs.len() > 0 ==> origin_at(origin, spacing, lens, cs.len() - 1) + lens[cs.len()
                - 1] <= origin + total
        }),
{
    if cs.len() == 0 {
        lemma_sum_take_ends(lengths(cs, usable_length(total, spacing, 0)));
        return ;
    }
    let count = cs.len() as int;
    let usable = usable_length(total, spacing, count);
    let lens = lengths(cs, usable);
    let fixed = fixed_lengths(cs);
    let raw = raw_lengths(cs, usable);
    assert forall|i: int| 0 <= i < count implies 0 <= #[trigger] fixed[i] by {}
    lemma_sum_nonneg(fixed);
    assert(usable == total - spacing * (count - 1)) by {
        assert(0 <= spacing * (count - 1)) by (nonlinear_arith)
            requires
                0 <= spacing,
                0 <= count - 1,
        ;
    }
    assert(raw =~= fixed) by {
        assert forall|i: int| 0 <= i < count implies raw[i] == fixed[i] by {
            assert(cs[i].is_fixed());
        }
    }
    assert(!oversubscribed(cs, usable));
    assert(lens =~= fixed);
    assert forall|i: int| 0 <= i < count - 1 implies #[trigger] origin_at(
        origin,
        spacing,
        lens,
        i + 1,
    ) == origin_at(origin, spacing, lens, i) + lens[i] + spacing by {
        lemma_slots_are_packed(origin, spacing, lens, i);
    }
    lemma_slots_are_packed(origin, spacing, lens, count - 1);
    lemma_sum_take_ends(lens);
    lemma_sum_take_step(lens, count - 1);
}

/// Where every slot is a fill of weight one, the slots divide the usable
/// length among them with nothing left, and no two of them differ in
/// length by more than one.
pub proof fn lemma_unit_fills_are_even(total: int, spacing: int, cs: Seq<Constraint>)
    requires
        0 <= total,
        0 <= spacing,
        all_unit_fills(cs),
        cs.len() > 0,
    ensures
        ({
            let usable = usable_length(total, spacing, cs.len() as int);
            let lens = lengths(cs, usable);
            &&& sum(lens) == usable
            &&& forall|i: int, j: int|
                0 <= i < cs.len() && 0 <= j < cs.len() ==> -1 <= #[trigger] lens[i]
                    - #[trigger] lens[j] <= 1
            &&& forall|i: int, j: int|
                0 <= i <= j < cs.len() ==> #[trigger] lens[i] >= #[trigger] lens[j]
        }),
{
    let count = cs.len() as int;
    let usable = usable_length(total, spacing, count);
    let lens = lengths(cs, usable);
    let raw = raw_lengths(cs, usable);
    let ws = weights(cs);
    let rigid = bases(cs, usable);
    assert forall|i: int| 0 <= i < count implies #[trigger] ws[i] == 1 by {
        assert(cs[i] == Constraint::Fill(1));
    }
    lemma_sum_bounds(ws, 1, 1);
    assert(total_weight(cs) == count);
    assert forall|i: int| 0 <= i < count implies 0 <= #[trigger] rigid[i] <= 0 by {
        assert(cs[i] == Constraint::Fill(1));
    }
    lemma_sum_bounds(rigid, 0, 0);
    assert(claimed(cs, usable) == 0);
    assert(leftover(cs, usable) == usable);
    assert(no_clamps(cs)) by {
        assert forall|i: int| 0 <= i < count implies !((#[trigger] cs[i]) is Min) && !(cs[i]
            is Max) by {
            assert(cs[i] == Constraint::Fill(1));
        }
    }
    lemma_fills_take_what_is_left(cs, usable);
    assert(!oversubscribed(cs, usable));
    assert(lens =~= raw);
    lemma_remainder_has_takers(cs, usable);
    let floor = usable / count;
    assert forall|i: int| 0 <= i < count implies floor <= #[trigger] lens[i] <= floor + 1 by {
        assert(cs[i] == Constraint::Fill(1));
        assert(floor_share(cs[i], usable, count) == usable * 1 / count);
    }
    assert forall|i: int, j: int| 0 <= i <= j < count implies #[trigger] lens[i]
        >= #[trigger] lens[j] by {
        assert(cs[i] == Constraint::Fill(1));
        assert(cs[j] == Constraint::Fill(1));
        lemma_weighted_before_monotone(cs, i, j);
    }
}

/// The number of weighted slots before a slot does not decrease along the
/// list.
pub proof fn lemma_weighted_before_monotone(cs: Seq<Constraint>, i: int, j: int)
    requires
        0 <= i <= j <= cs.len(),
    ensures
        weighted_before(cs, i) <= weighted_before(cs, j),
{
    let flags = weighted_flags(cs);
    assert forall|k: int| 0 <= k < flags.len() implies 0 <= #[trigger] flags[k] by {}
    crate::sums::lemma_sum_take_monotone(flags, i, j);
}

/// A slot ends, and leaves its gap, before any later slot starts: the
/// slots are in their order and do not overlap.
pub proof fn lemma_slots_do_not_overlap(
    origin: int,
    spacing: int,
    cs: Seq<Constraint>,
    usable: int,
    i: int,
    j: int,
)
    requires
        all_wf(cs),
        0 <= usable,
        0 <= spacing,
        0 <= i < j < cs.len(),
    ensures
        origin_at(origin, spacing, lengths(cs, usable), i) + lengths(cs, usable)[i] + spacing
            <= origin_at(origin, spacing, lengths(cs, usable), j),
{
    let lens = lengths(cs, usable);
    lemma_lengths_nonnegative(cs, usable);
    lemma_sum_take_step(lens, i);
    crate::sums::lemma_sum_take_monotone(lens, i + 1, j);
    assert(spacing * i + spacing <= spacing * j) by (nonlinear_arith)
        requires
            0 <= spacing,
            i + 1 <= j,
    ;
}

/// Unless the fixed slots alone exceed the usable length, or the gaps
/// alone exceed the total, the last slot ends within the total: the slots
/// and the gaps between them never exceed it together.
pub proof fn lemma_slots_within_total(origin: int, total: int, spacing: int, cs: Seq<Constraint>)
    requires
        cs.len() > 0,
        spacing * (cs.len() - 1) <= total,
        sum(fixed_lengths(cs)) <= usable_length(total, spacing, cs.len() as int),
    ensures
        ({
            let lens = lengths(cs, usable_length(total, spacing, cs.len() as int));
            origin_at(origin, spacing, lens, cs.len() - 1) + lens[cs.len() - 1] <= origin + total
        }),
{
    let count = cs.len() as int;
    let usable = usable_length(total, spacing, count);
    let lens = lengths(cs, usable);
    lemma_lengths_within_usable(cs, usable);
    lemma_sum_take_step(lens, count - 1);
    lemma_sum_take_ends(lens);
}

} // verus!
