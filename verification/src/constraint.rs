//! Sizing rules for one slot along an axis.

use vstd::prelude::*;
use vstd::arithmetic::div_mod::{lemma_div_is_ordered_by_denominator, lemma_div_pos_is_pos};

verus! {

/// How one slot claims length when an extent is divided among siblings.
#[derive(Clone, Copy, Debug, PartialEq, Eq, Structural)]
pub enum Constraint {
    /// Exactly this many cells. Never shrunk.
    Fixed(u16),
    /// This many hundredths of the usable length, at most one hundred.
    Percentage(u16),
    /// Numerator over denominator of the usable length; the denominator is
    /// positive.
    Ratio(u32, u32),
    /// A share of the leftover with weight one, raised to at least this
    /// length before any shrinking.
    Min(u16),
    /// A share of the leftover with weight one, lowered to at most this
    /// length.
    Max(u16),
    /// A share of the leftover in proportion to this weight.
    Fill(u16),
}

/// A bound on the base length that a well-formed constraint can claim.
pub const BASE_LIMIT: u64 = 562_949_953_421_312;

/// `n / d` rounded to the nearest integer, halves upwards.
pub open spec fn round_div(n: int, d: int) -> int {
    (2 * n + d) / (2 * d)
}

impl Constraint {
    /// The invariant of the data model: a percentage is at most one hundred
    /// and the denominator of a ratio is positive.
    pub open spec fn wf(self) -> bool {
        match self {
            Constraint::Percentage(p) => p <= 100,
            Constraint::Ratio(_, den) => den > 0,
            _ => true,
        }
    }

    /// Whether the slot has a fixed length.
    pub open spec fn is_fixed(self) -> bool {
        self is Fixed
    }

    /// Whether the slot's length is computed from the usable length alone,
    /// without regard to its siblings.
    pub open spec fn is_rigid(self) -> bool {
        self is Fixed || self is Percentage || self is Ratio
    }

    /// The weight with which the slot takes part in the division of the
    /// leftover: zero for a rigid slot.
    pub open spec fn weight(self) -> int {
        match self {
            Constraint::Fill(w) => w as int,
            Constraint::Min(_) | Constraint::Max(_) => 1,
            _ => 0,
        }
    }

    /// The length that a rigid slot claims from `usable`; zero for the
    /// others.
    pub open spec fn base(self, usable: int) -> int {
        match self {
            Constraint::Fixed(n) => n as int,
            Constraint::Percentage(p) => round_div(usable * p, 100),
            Constraint::Ratio(num, den) => round_div(usable * num, den as int),
            _ => 0,
        }
    }

    /// The length of a fixed slot; zero for the others.
    pub open spec fn fixed_length(self) -> int {
        match self {
            Constraint::Fixed(n) => n as int,
            _ => 0,
        }
    }

    /// The length of a slot given its share of the leftover: the base of a
    /// rigid slot, the share of a fill, the share clamped for a minimum or
    /// a maximum.
    pub open spec fn settle(self, usable: int, share: int) -> int {
        match self {
            Constraint::Fill(_) => share,
            Constraint::Min(n) => if share < n { n as int } else { share },
            Constraint::Max(n) => if share > n { n as int } else { share },
            _ => self.base(usable),
        }
    }

    /// Tests the invariant of the data model.
    pub fn is_wf(&self) -> (r: bool)
        ensures
            r == self.wf(),
    {
        match self {
            Constraint::Percentage(p) => *p <= 100,
            Constraint::Ratio(_, den) => *den > 0,
            _ => true,
        }
    }

    /// Computes [`Constraint::weight`].
    pub fn flex_weight(&self) -> (r: u16)
        ensures
            r == self.weight(),
    {
        match self {
            Constraint::Fill(w) => *w,
            Constraint::Min(_) | Constraint::Max(_) => 1,
            _ => 0,
        }
    }

    /// Computes [`Constraint::base`].
    pub fn base_length(&self, usable: u16) -> (r: u64)
        requires
            self.wf(),
        ensures
            r == self.base(usable as int),
            r <= BASE_LIMIT,
    {
        match self {
            Constraint::Fixed(n) => *n as u64,
            Constraint::Percentage(p) => {
                assert(usable as int * *p as int <= 65535 * 100) by (nonlinear_arith)
                    requires
                        0 <= usable <= 65535,
                        0 <= *p <= 100,
                ;
                let scaled: u64 = 2 * (usable as u64 * *p as u64) + 100;
                proof {
                    lemma_rounded_bound(usable as int * *p as int, 100);
                }
                scaled / 200
            },
            Constraint::Ratio(num, den) => {
                assert(usable as int * *num as int <= 65535 * 4294967295) by (nonlinear_arith)
                    requires
                        0 <= usable <= 65535,
                        0 <= *num <= 4294967295,
                ;
                let scaled: u64 = 2 * (usable as u64 * *num as u64) + *den as u64;
                proof {
                    lemma_rounded_bound(usable as int * *num as int, *den as int);
                }
                scaled / (2 * *den as u64)
            },
            _ => 0,
        }
    }
}

impl Default for Constraint {
    /// A fill of weight one.
    fn default() -> (r: Constraint)
        ensures
            r == Constraint::Fill(1),
    {
        Constraint::Fill(1)
    }
}

/// A rounded quotient of a non-negative number is non-negative and at most
/// twice the number plus the divisor.
pub proof fn lemma_rounded_bound(n: int, d: int)
    requires
        0 <= n,
        0 < d,
    ensures
        0 <= round_div(n, d) <= 2 * n + d,
{
    lemma_div_pos_is_pos(2 * n + d, 2 * d);
    lemma_div_is_ordered_by_denominator(2 * n + d, 1, 2 * d);
}

} // verus!
