//! Division of one axis among an ordered list of constraints.
//!
//! The division runs in two passes. Rigid slots (fixed, percentage, ratio)
//! claim their base length from the usable length. What is left over is
//! shared among the flexible slots in proportion to their weights, the
//! units lost to rounding going to the earliest weighted slots. If the
//! lengths then exceed the usable length, every slot but the fixed ones is
//! shrunk in proportion.

use vstd::prelude::*;
use crate::constraint::{Constraint, BASE_LIMIT};
use crate::sums::{
    sum, lemma_sum_take_step, lemma_sum_take_ends, lemma_sum_bounds, lemma_element_le_sum,
};

verus! {

/// One slot of a resolved axis.
#[derive(Clone, Copy, Debug, PartialEq, Eq, Structural)]
pub struct Extent {
    pub origin: u64,
    pub length: u16,
}

/// The farthest that one slot and the gap behind it can move the origin of
/// the next slot.
pub const SLOT_SPAN: u64 = 131_070;

/// The length that remains for the slots once the gaps between them are
/// taken out, never below zero.
pub open spec fn usable_length(total: int, spacing: int, count: int) -> int {
    let gaps = if count > 0 {
        spacing * (count - 1)
    } else {
        0
    };
    if total > gaps {
        total - gaps
    } else {
        0
    }
}

/// The base length of every slot.
pub open spec fn bases(cs: Seq<Constraint>, usable: int) -> Seq<int> {
    Seq::new(cs.len(), |i: int| cs[i].base(usable))
}

/// The length that the rigid slots claim together.
pub open spec fn claimed(cs: Seq<Constraint>, usable: int) -> int {
    sum(bases(cs, usable))
}

/// What the rigid slots leave of the usable length, never below zero.
pub open spec fn leftover(cs: Seq<Constraint>, usable: int) -> int {
    let c = claimed(cs, usable);
    if usable > c {
        usable - c
    } else {
        0
    }
}

/// The weight of every slot.
pub open spec fn weights(cs: Seq<Constraint>) -> Seq<int> {
    Seq::new(cs.len(), |i: int| cs[i].weight())
}

/// The weights of all slots together.
pub open spec fn total_weight(cs: Seq<Constraint>) -> int {
    sum(weights(cs))
}

/// The share of `leftover` that a slot has by its weight, rounded down.
pub open spec fn floor_share(c: Constraint, leftover: int, total_weight: int) -> int {
    if total_weight > 0 {
        leftover * c.weight() / total_weight
    } else {
        0
    }
}

/// The rounded-down share of every slot.
pub open spec fn floor_shares(cs: Seq<Constraint>, usable: int) -> Seq<int> {
    Seq::new(
        cs.len(),
        |i: int| floor_share(cs[i], leftover(cs, usable), total_weight(cs)),
    )
}

/// The units of the leftover that rounding down has not handed out.
pub open spec fn remainder(cs: Seq<Constraint>, usable: int) -> int {
    leftover(cs, usable) - sum(floor_shares(cs, usable))
}

/// One for every slot with a positive weight, zero for the others.
pub open spec fn weighted_flags(cs: Seq<Constraint>) -> Seq<int> {
    Seq::new(cs.len(), |i: int| if cs[i].weight() > 0 { 1int } else { 0int })
}

/// The number of slots before slot `i` that have a positive weight.
pub open spec fn weighted_before(cs: Seq<Constraint>, i: int) -> int {
    sum(weighted_flags(cs).take(i))
}

/// The share of the leftover that slot `i` receives: its rounded-down
/// share, and one unit more if it is among the first weighted slots, as
/// many of them as there are units left.
pub open spec fn share(cs: Seq<Constraint>, usable: int, i: int) -> int {
    floor_share(cs[i], leftover(cs, usable), total_weight(cs)) + if cs[i].weight() > 0
        && weighted_before(cs, i) < remainder(cs, usable) {
        1int
    } else {
        0int
    }
}

/// The length of every slot before any shrinking.
pub open spec fn raw_lengths(cs: Seq<Constraint>, usable: int) -> Seq<int> {
    Seq::new(cs.len(), |i: int| cs[i].settle(usable, share(cs, usable, i)))
}

/// The length of every fixed slot, zero for the others.
pub open spec fn fixed_lengths(cs: Seq<Constraint>) -> Seq<int> {
    Seq::new(cs.len(), |i: int| cs[i].fixed_length())
}

/// The unshrunk length of every slot that may be shrunk, zero for the
/// fixed ones.
pub open spec fn shrinkable_lengths(cs: Seq<Constraint>, usable: int) -> Seq<int> {
    Seq::new(
        cs.len(),
        |i: int| if cs[i].is_fixed() { 0int } else { raw_lengths(cs, usable)[i] },
    )
}

/// Whether the slots ask for more than the usable length.
pub open spec fn oversubscribed(cs: Seq<Constraint>, usable: int) -> bool {
    sum(raw_lengths(cs, usable)) > usable
}

/// What the fixed slots leave of the usable length, never below zero.
pub open spec fn shrink_budget(cs: Seq<Constraint>, usable: int) -> int {
    let fixed = sum(fixed_lengths(cs));
    if usable > fixed {
        usable - fixed
    } else {
        0
    }
}

/// The final length of slot `i`.
///
/// Without over-subscription this is the unshrunk length. With it, a fixed
/// slot keeps its length and every other slot gets its proportional part
/// of the shrink budget, rounded down.
pub open spec fn length_at(cs: Seq<Constraint>, usable: int, i: int) -> int {
    let raw = raw_lengths(cs, usable)[i];
    if !oversubscribed(cs, usable) || cs[i].is_fixed() {
        raw
    } else {
        let shrinkable = sum(shrinkable_lengths(cs, usable));
        if shrinkable > 0 {
            raw * shrink_budget(cs, usable) / shrinkable
        } else {
            0
        }
    }
}

/// The final length of every slot.
pub open spec fn lengths(cs: Seq<Constraint>, usable: int) -> Seq<int> {
    Seq::new(cs.len(), |i: int| length_at(cs, usable, i))
}

/// Where slot `i` starts: behind the slots before it and one gap for each
/// of them.
pub open spec fn origin_at(origin: int, spacing: int, lens: Seq<int>, i: int) -> int {
    origin + sum(lens.take(i)) + spacing * i
}

/// Whether `extents` is the division of `total` cells from `origin` among
/// `cs` with gaps of `spacing`.
pub open spec fn is_resolution(
    extents: Seq<Extent>,
    origin: int,
    total: int,
    spacing: int,
    cs: Seq<Constraint>,
) -> bool {
    let lens = lengths(cs, usable_length(total, spacing, cs.len() as int));
    &&& extents.len() == cs.len()
    &&& forall|i: int|
        0 <= i < cs.len() ==> {
            &&& (#[trigger] extents[i]).length == lens[i]
            &&& extents[i].origin == origin_at(origin, spacing, lens, i)
        }
}

/// Whether every constraint of `cs` is well-formed.
pub open spec fn all_wf(cs: Seq<Constraint>) -> bool {
    forall|i: int| 0 <= i < cs.len() ==> (#[trigger] cs[i]).wf()
}

/// Computes [`usable_length`].
pub fn usable_of(total: u16, spacing: u16, count: usize) -> (r: u16)
    ensures
        r == usable_length(total as int, spacing as int, count as int),
{
    if count == 0 {
        return total;
    }
    assert(spacing as int * (count - 1) <= 65535 * 0xffff_ffff_ffff_ffff) by (nonlinear_arith)
        requires
            0 <= spacing <= 65535,
            0 <= count - 1 <= 0xffff_ffff_ffff_ffff,
    ;
    let gaps: u128 = spacing as u128 * (count - 1) as u128;
    if total as u128 > gaps {
        (total as u128 - gaps) as u16
    } else {
        0
    }
}

/// Computes [`claimed`].
fn sum_bases(cs: &[Constraint], usable: u16) -> (r: u128)
    requires
        all_wf(cs@),
    ensures
        r == claimed(cs@, usable as int),
{
    let ghost seq = bases(cs@, usable as int);
    let mut acc: u128 = 0;
    let mut i: usize = 0;
    proof {
        lemma_sum_take_ends(seq);
    }
    while i < cs.len()
        invariant
            all_wf(cs@),
            seq == bases(cs@, usable as int),
            0 <= i <= cs.len(),
            acc == sum(seq.take(i as int)),
            acc <= i * BASE_LIMIT,
        decreases cs.len() - i,
    {
        let b = cs[i].base_length(usable);
        proof {
            lemma_sum_take_step(seq, i as int);
            assert((i + 1) * BASE_LIMIT == i * BASE_LIMIT + BASE_LIMIT) by (nonlinear_arith);
            assert(i * BASE_LIMIT <= 0xffff_ffff_ffff_ffff * 562_949_953_421_312)
                by (nonlinear_arith)
                requires
                    i <= 0xffff_ffff_ffff_ffff,
                    BASE_LIMIT == 562_949_953_421_312,
            ;
        }
        acc = acc + b as u128;
        i = i + 1;
    }
    proof {
        lemma_sum_take_ends(seq);
    }
    acc
}

/// Computes [`total_weight`].
fn sum_weights(cs: &[Constraint]) -> (r: u128)
    ensures
        r == total_weight(cs@),
{
    let ghost seq = weights(cs@);
    let mut acc: u128 = 0;
    let mut i: usize = 0;
    proof {
        lemma_sum_take_ends(seq);
    }
    while i < cs.len()
        invariant
            seq == weights(cs@),
            0 <= i <= cs.len(),
            acc == sum(seq.take(i as int)),
            acc <= i * 65535,
        decreases cs.len() - i,
    {
        let w = cs[i].flex_weight();
        proof {
            lemma_sum_take_step(seq, i as int);
        }
        acc = acc + w as u128;
        i = i + 1;
    }
    proof {
        lemma_sum_take_ends(seq);
    }
    acc
}

/// Computes the sum of [`fixed_lengths`].
fn sum_fixed(cs: &[Constraint]) -> (r: u128)
    ensures
        r == sum(fixed_lengths(cs@)),
{
    let ghost seq = fixed_lengths(cs@);
    let mut acc: u128 = 0;
    let mut i: usize = 0;
    proof {
        lemma_sum_take_ends(seq);
    }
    while i < cs.len()
        invariant
            seq == fixed_lengths(cs@),
            0 <= i <= cs.len(),
            acc == sum(seq.take(i as int)),
            acc <= i * 65535,
        decreases cs.len() - i,
    {
        let n: u16 = match cs[i] {
            Constraint::Fixed(n) => n,
            _ => 0,
        };
        proof {
            lemma_sum_take_step(seq, i as int);
        }
        acc = acc + n as u128;
        i = i + 1;
    }
    proof {
        lemma_sum_take_ends(seq);
    }
    acc
}

/// Computes [`floor_share`] for one slot.
fn floor_share_of(c: &Constraint, leftover: u16, total_weight: u128) -> (r: u64)
    ensures
        r == floor_share(*c, leftover as int, total_weight as int),
        r <= 0xffff_ffff,
{
    if total_weight > 0 {
        let w = c.flex_weight();
        assert(leftover as int * w as int <= 65535 * 65535) by (nonlinear_arith)
            requires
                0 <= leftover <= 65535,
                0 <= w <= 65535,
        ;
        let scaled: u128 = leftover as u128 * w as u128;
        proof {
            vstd::arithmetic::div_mod::lemma_div_is_ordered_by_denominator(
                scaled as int,
                1,
                total_weight as int,
            );
            vstd::arithmetic::div_mod::lemma_div_pos_is_pos(scaled as int, total_weight as int);
        }
        (scaled / total_weight) as u64
    } else {
        0
    }
}

/// Computes the sum of [`floor_shares`].
fn sum_floor_shares(cs: &[Constraint], usable: u16, left: u16, total: u128) -> (r: u128)
    requires
        left == leftover(cs@, usable as int),
        total == total_weight(cs@),
    ensures
        r == sum(floor_shares(cs@, usable as int)),
{
    let ghost seq = floor_shares(cs@, usable as int);
    let mut acc: u128 = 0;
    let mut i: usize = 0;
    proof {
        lemma_sum_take_ends(seq);
    }
    while i < cs.len()
        invariant
            left == leftover(cs@, usable as int),
            total == total_weight(cs@),
            seq == floor_shares(cs@, usable as int),
            0 <= i <= cs.len(),
            acc == sum(seq.take(i as int)),
            acc <= i * 0xffff_ffff,
        decreases cs.len() - i,
    {
        let f = floor_share_of(&cs[i], left, total);
        proof {
            lemma_sum_take_step(seq, i as int);
        }
        acc = acc + f as u128;
        i = i + 1;
    }
    proof {
        lemma_sum_take_ends(seq);
    }
    acc
}

/// Computes [`raw_lengths`].
fn raw_lengths_of(cs: &[Constraint], usable: u16, left: u16, total: u128, rest: u128) -> (r: Vec<
    u64,
>)
    requires
        all_wf(cs@),
        left == leftover(cs@, usable as int),
        total == total_weight(cs@),
        rest == remainder(cs@, usable as int),
    ensures
        r@.len() == cs@.len(),
        forall|i: int| 0 <= i < cs@.len() ==> #[trigger] r@[i] == raw_lengths(cs@, usable as int)[i],
        forall|i: int| 0 <= i < cs@.len() ==> #[trigger] r@[i] <= BASE_LIMIT,
{
    let ghost flags = weighted_flags(cs@);
    let mut raw: Vec<u64> = Vec::new();
    let mut seen: usize = 0;
    let mut i: usize = 0;
    proof {
        lemma_sum_take_ends(flags);
    }
    while i < cs.len()
        invariant
            all_wf(cs@),
            left == leftover(cs@, usable as int),
            total == total_weight(cs@),
            rest == remainder(cs@, usable as int),
            flags == weighted_flags(cs@),
            0 <= i <= cs.len(),
            seen == weighted_before(cs@, i as int),
            seen <= i,
            raw@.len() == i,
            forall|j: int| 0 <= j < i ==> #[trigger] raw@[j] == raw_lengths(cs@, usable as int)[j],
            forall|j: int| 0 <= j < i ==> #[trigger] raw@[j] <= BASE_LIMIT,
        decreases cs.len() - i,
    {
        let c = cs[i];
        let w = c.flex_weight();
        let extra: u64 = if w > 0 && (seen as u128) < rest {
            1
        } else {
            0
        };
        let part: u64 = floor_share_of(&c, left, total) + extra;
        assert(part == share(cs@, usable as int, i as int));
        let len: u64 = match c {
            Constraint::Fill(_) => part,
            Constraint::Min(n) => if part < n as u64 {
                n as u64
            } else {
                part
            },
            Constraint::Max(n) => if part > n as u64 {
                n as u64
            } else {
                part
            },
            _ => c.base_length(usable),
        };
        proof {
            lemma_sum_take_step(flags, i as int);
        }
        if w > 0 {
            seen = seen + 1;
        }
        raw.push(len);
        i = i + 1;
    }
    raw
}

/// Adds up the unshrunk lengths: all of them, and those of the slots that
/// may be shrunk.
fn sum_raw(cs: &[Constraint], usable: u16, raw: &Vec<u64>) -> (r: (u128, u128))
    requires
        raw@.len() == cs@.len(),
        forall|i: int| 0 <= i < cs@.len() ==> #[trigger] raw@[i] == raw_lengths(cs@, usable as int)[i],
    ensures
        r.0 == sum(raw_lengths(cs@, usable as int)),
        r.1 == sum(shrinkable_lengths(cs@, usable as int)),
{
    let ghost all = raw_lengths(cs@, usable as int);
    let ghost soft = shrinkable_lengths(cs@, usable as int);
    let mut total: u128 = 0;
    let mut shrinkable: u128 = 0;
    let mut i: usize = 0;
    proof {
        lemma_sum_take_ends(all);
        lemma_sum_take_ends(soft);
    }
    while i < cs.len()
        invariant
            raw@.len() == cs@.len(),
            forall|j: int|
                0 <= j < cs@.len() ==> #[trigger] raw@[j] == raw_lengths(cs@, usable as int)[j],
            all == raw_lengths(cs@, usable as int),
            soft == shrinkable_lengths(cs@, usable as int),
            0 <= i <= cs.len(),
            total == sum(all.take(i as int)),
            shrinkable == sum(soft.take(i as int)),
            total <= i * 0xffff_ffff_ffff_ffff,
            shrinkable <= i * 0xffff_ffff_ffff_ffff,
        decreases cs.len() - i,
    {
        let len = raw[i];
        proof {
            lemma_sum_take_step(all, i as int);
            lemma_sum_take_step(soft, i as int);
            assert(i * 0xffff_ffff_ffff_ffff <= 0xffff_ffff_ffff_ffff * 0xffff_ffff_ffff_ffff)
                by (nonlinear_arith)
                requires
                    0 <= i <= 0xffff_ffff_ffff_ffff,
            ;
            assert((i + 1) * 0xffff_ffff_ffff_ffff == i * 0xffff_ffff_ffff_ffff
                + 0xffff_ffff_ffff_ffff) by (nonlinear_arith);
        }
        total = total + len as u128;
        match cs[i] {
            Constraint::Fixed(_) => {},
            _ => {
                shrinkable = shrinkable + len as u128;
            },
        }
        i = i + 1;
    }
    proof {
        lemma_sum_take_ends(all);
        lemma_sum_take_ends(soft);
    }
    (total, shrinkable)
}

/// Divides `total` cells, starting at `origin`, among `constraints` in
/// their order, with `spacing` cells between neighbours.
///
/// Every constraint must be well-formed, and the origin must leave room
/// for the slots: no slot, with the gap behind it, moves the next origin
/// by more than [`SLOT_SPAN`].
pub fn resolve(origin: u64, total: u16, spacing: u16, constraints: &[Constraint]) -> (extents: Vec<
    Extent,
>)
    requires
        can_resolve(origin, constraints@),
    ensures
        is_resolution(extents@, origin as int, total as int, spacing as int, constraints@),
        forall|i: int|
            0 <= i < extents@.len() ==> (#[trigger] extents@[i]).origin <= origin + i * SLOT_SPAN,
{
    let count = constraints.len();
    let mut extents: Vec<Extent> = Vec::new();
    if count == 0 {
        return extents;
    }
    let usable = usable_of(total, spacing, count);
    let ghost cs = constraints@;
    let ghost u = usable as int;
    let taken = sum_bases(constraints, usable);
    let left: u16 = if usable as u128 > taken {
        (usable as u128 - taken) as u16
    } else {
        0
    };
    let weight = sum_weights(constraints);
    let floors = sum_floor_shares(constraints, usable, left, weight);
    proof {
        lemma_floor_shares_within(cs, u);
    }
    let rest: u128 = left as u128 - floors;
    let raw = raw_lengths_of(constraints, usable, left, weight, rest);
    let (asked, shrinkable) = sum_raw(constraints, usable, &raw);
    let fixed = sum_fixed(constraints);
    let over = asked > usable as u128;
    let budget: u16 = if usable as u128 > fixed {
        (usable as u128 - fixed) as u16
    } else {
        0
    };
    let ghost lens = lengths(cs, u);
    let mut position: u64 = origin;
    let mut i: usize = 0;
    proof {
        lemma_sum_take_ends(lens);
    }
    while i < count
        invariant
            count == constraints@.len(),
            cs == constraints@,
            u == usable as int,
            u == usable_length(total as int, spacing as int, count as int),
            origin + count * SLOT_SPAN <= u64::MAX,
            raw@.len() == count,
            forall|j: int| 0 <= j < count ==> #[trigger] raw@[j] == raw_lengths(cs, u)[j],
            forall|j: int| 0 <= j < count ==> #[trigger] raw@[j] <= BASE_LIMIT,
            asked == sum(raw_lengths(cs, u)),
            shrinkable == sum(shrinkable_lengths(cs, u)),
            over == oversubscribed(cs, u),
            budget == shrink_budget(cs, u),
            lens == lengths(cs, u),
            0 <= i <= count,
            position == origin_at(origin as int, spacing as int, lens, i as int),
            position <= origin + i * SLOT_SPAN,
            extents@.len() == i,
            forall|j: int|
                0 <= j < i ==> {
                    &&& (#[trigger] extents@[j]).length == lens[j]
                    &&& extents@[j].origin == origin_at(origin as int, spacing as int, lens, j)
                    &&& extents@[j].origin <= origin + j * SLOT_SPAN
                },
        decreases count - i,
    {
        let c = constraints[i];
        let r = raw[i];
        let fixed_slot = match c {
            Constraint::Fixed(_) => true,
            _ => false,
        };
        let length: u16 = if !over || fixed_slot {
            proof {
                if !over {
                    assert forall|k: int| 0 <= k < raw_lengths(cs, u).len() implies 0
                        <= #[trigger] raw_lengths(cs, u)[k] by {
                        assert(raw@[k] == raw_lengths(cs, u)[k]);
                    }
                    lemma_element_le_sum(raw_lengths(cs, u), i as int);
                }
            }
            r as u16
        } else if shrinkable > 0 {
            proof {
                assert forall|k: int| 0 <= k < shrinkable_lengths(cs, u).len() implies 0
                    <= #[trigger] shrinkable_lengths(cs, u)[k] by {
                    assert(raw@[k] == raw_lengths(cs, u)[k]);
                }
                lemma_element_le_sum(shrinkable_lengths(cs, u), i as int);
                lemma_scaled_within(r as int, budget as int, shrinkable as int);
            }
            assert(r as int * budget as int <= 562_949_953_421_312 * 65535) by (nonlinear_arith)
                requires
                    0 <= r <= 562_949_953_421_312,
                    0 <= budget <= 65535,
            ;
            (r as u128 * budget as u128 / shrinkable) as u16
        } else {
            0
        };
        assert(length == lens[i as int]);
        extents.push(Extent { origin: position, length });
        proof {
            lemma_sum_take_step(lens, i as int);
            assert(spacing * (i + 1) == spacing * i + spacing) by (nonlinear_arith);
            assert((i + 1) * SLOT_SPAN == i * SLOT_SPAN + SLOT_SPAN) by (nonlinear_arith);
            assert((i + 1) * SLOT_SPAN <= count * SLOT_SPAN) by (nonlinear_arith)
                requires
                    i + 1 <= count,
            ;
        }
        position = position + length as u64 + spacing as u64;
        i = i + 1;
    }
    extents
}

/// Whether `constraints` can be resolved from `origin`: what [`resolve`]
/// asks of them.
pub open spec fn can_resolve(origin: u64, cs: Seq<Constraint>) -> bool {
    all_wf(cs) && origin + cs.len() * SLOT_SPAN <= u64::MAX
}

/// Tests whether every constraint is well-formed.
pub fn check_all_wf(constraints: &[Constraint]) -> (r: bool)
    ensures
        r == all_wf(constraints@),
{
    let mut i: usize = 0;
    while i < constraints.len()
        invariant
            0 <= i <= constraints.len(),
            forall|j: int| 0 <= j < i ==> (#[trigger] constraints@[j]).wf(),
        decreases constraints.len() - i,
    {
        if !constraints[i].is_wf() {
            return false;
        }
        i = i + 1;
    }
    true
}

/// Divides as [`resolve`] does, if the constraints are well-formed and
/// the origin leaves room for the slots.
pub fn try_resolve(origin: u64, total: u16, spacing: u16, constraints: &[Constraint]) -> (r: Option<
    Vec<Extent>,
>)
    ensures
        match r {
            Some(extents) => can_resolve(origin, constraints@) && is_resolution(
                extents@,
                origin as int,
                total as int,
                spacing as int,
                constraints@,
            ),
            None => !can_resolve(origin, constraints@),
        },
{
    if !check_all_wf(constraints) {
        return None;
    }
    let count = constraints.len();
    assert(count * SLOT_SPAN <= 0xffff_ffff_ffff_ffff * 131_070) by (nonlinear_arith)
        requires
            0 <= count <= 0xffff_ffff_ffff_ffff,
            SLOT_SPAN == 131_070,
    ;
    let reach: u128 = origin as u128 + count as u128 * SLOT_SPAN as u128;
    if reach > u64::MAX as u128 {
        return None;
    }
    Some(resolve(origin, total, spacing, constraints))
}

/// Whether the fixed slots alone ask for more than the usable length.
/// Then, and only then, the slots may reach past the total.
pub open spec fn fixed_overflow(total: int, spacing: int, cs: Seq<Constraint>) -> bool {
    cs.len() > 0 && sum(fixed_lengths(cs)) > usable_length(total, spacing, cs.len() as int)
}

/// Computes [`fixed_overflow`].
pub fn overflows(total: u16, spacing: u16, constraints: &[Constraint]) -> (r: bool)
    ensures
        r == fixed_overflow(total as int, spacing as int, constraints@),
{
    if constraints.len() == 0 {
        return false;
    }
    let usable = usable_of(total, spacing, constraints.len());
    sum_fixed(constraints) > usable as u128
}

/// Scaling a part of a whole by a factor and dividing by the whole gives
/// at most the factor.
pub proof fn lemma_scaled_within(part: int, factor: int, whole: int)
    requires
        0 <= part <= whole,
        0 <= factor,
        0 < whole,
    ensures
        0 <= part * factor / whole <= factor,
{
    assert(0 <= part * factor <= whole * factor) by (nonlinear_arith)
        requires
            0 <= part <= whole,
            0 <= factor,
    ;
    vstd::arithmetic::div_mod::lemma_div_pos_is_pos(part * factor, whole);
    vstd::arithmetic::div_mod::lemma_div_is_ordered(part * factor, whole * factor, whole);
    vstd::arithmetic::div_mod::lemma_div_multiples_vanish(factor, whole);
    assert(whole * factor == factor * whole) by (nonlinear_arith);
}

/// Rounding the shares down never hands out more than the leftover.
pub proof fn lemma_floor_shares_within(cs: Seq<Constraint>, usable: int)
    ensures
        0 <= sum(floor_shares(cs, usable)) <= leftover(cs, usable),
{
    let left = leftover(cs, usable);
    let total = total_weight(cs);
    let floors = floor_shares(cs, usable);
    let ws = weights(cs);
    assert forall|k: int| 0 <= k < ws.len() implies 0 <= #[trigger] ws[k] by {}
    if total > 0 {
        lemma_floor_prefix(cs, usable, cs.len() as int);
        lemma_sum_take_ends(floors);
        lemma_sum_take_ends(ws);
        let f = sum(floors);
        assert(f <= left) by (nonlinear_arith)
            requires
                f * total <= left * total,
                total > 0,
        ;
        assert(0 <= f);
    } else {
        assert forall|k: int| 0 <= k < floors.len() implies 0 <= #[trigger] floors[k] <= 0 by {}
        lemma_sum_bounds(floors, 0, 0);
    }
}

/// Up to any slot, the rounded-down shares times the total weight are at
/// most the leftover times the weights so far, and are not negative.
proof fn lemma_floor_prefix(cs: Seq<Constraint>, usable: int, k: int)
    requires
        0 <= k <= cs.len(),
        total_weight(cs) > 0,
    ensures
        0 <= sum(floor_shares(cs, usable).take(k)),
        sum(floor_shares(cs, usable).take(k)) * total_weight(cs) <= leftover(cs, usable) * sum(
            weights(cs).take(k),
        ),
    decreases k,
{
    let left = leftover(cs, usable);
    let total = total_weight(cs);
    let floors = floor_shares(cs, usable);
    let ws = weights(cs);
    if k == 0 {
        lemma_sum_take_ends(floors);
        lemma_sum_take_ends(ws);
    } else {
        lemma_floor_prefix(cs, usable, k - 1);
        lemma_sum_take_step(floors, k - 1);
        lemma_sum_take_step(ws, k - 1);
        let w = ws[k - 1];
        let f = floors[k - 1];
        assert(f == left * w / total);
        assert(0 <= left * w) by (nonlinear_arith)
            requires
                0 <= left,
                0 <= w,
        ;
        vstd::arithmetic::div_mod::lemma_fundamental_div_mod(left * w, total);
        vstd::arithmetic::div_mod::lemma_mod_bound(left * w, total);
        vstd::arithmetic::div_mod::lemma_div_pos_is_pos(left * w, total);
        let a = sum(floors.take(k - 1));
        let b = sum(ws.take(k - 1));
        assert((a + f) * total <= left * (b + w)) by (nonlinear_arith)
            requires
                a * total <= left * b,
                total * f <= left * w,
        ;
    }
}

} // verus!
