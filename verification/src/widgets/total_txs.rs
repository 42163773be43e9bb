//! The count of all transactions, written with its digits in groups.

use vstd::prelude::*;
use num_format::{Locale, ToFormattedString};

verus! {

/// The decimal digit of a number below ten.
pub open spec fn digit(d: nat) -> char {
    seq!['0', '1', '2', '3', '4', '5', '6', '7', '8', '9'][d as int]
}

/// The decimal digits of a number, without leading zeros.
pub open spec fn decimal(n: nat) -> Seq<char>
    decreases n,
{
    if n < 10 {
        seq![digit(n)]
    } else {
        decimal(n / 10).push(digit(n % 10))
    }
}

/// The three decimal digits of a number below a thousand, with leading
/// zeros.
pub open spec fn three_digits(n: nat) -> Seq<char> {
    seq![digit(n / 100), digit(n / 10 % 10), digit(n % 10)]
}

/// The decimal digits of a number in groups of three from the right, with
/// a comma between two groups.
pub open spec fn grouped(n: nat) -> Seq<char>
    decreases n,
{
    if n < 1000 {
        decimal(n)
    } else {
        grouped(n / 1000) + seq![','] + three_digits(n % 1000)
    }
}

/// `ToFormattedString::to_formatted_string` of `num-format`, for the
/// locale `en`: the number in decimal digits, in groups of three that a
/// comma separates, as that crate documents its standard grouping and
/// gives the separator of that locale.
#[verifier::external_body]
fn en_formatted(value: u64) -> (r: String)
    ensures
        r@ == grouped(value as nat),
{
    value.to_formatted_string(&Locale::en)
}

/// The card that shows the count of all transactions.
pub struct TotalTxs {
    pub value: u64,
}

impl TotalTxs {
    /// The card for that count.
    pub fn new(value: u64) -> (r: TotalTxs)
        ensures
            r.value == value,
    {
        TotalTxs { value }
    }

    /// The count as the card shows it: in groups of three digits.
    pub fn text(&self) -> (r: String)
        ensures
            r@ == grouped(self.value as nat),
    {
        en_formatted(self.value)
    }
}

/// A number below a thousand is written without any comma: as its plain
/// decimal digits.
pub proof fn lemma_small_numbers_are_plain(n: nat)
    requires
        n < 1000,
    ensures
        grouped(n) == decimal(n),
{
}

} // verus!
