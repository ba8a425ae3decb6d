//! General properties of the split, stated and proved once for all inputs.
//!
//! Each law speaks of the entries of a successful split through
//! `correct_split`, the same predicate that `calculates` establishes, so what
//! is proved here holds of every value the calculation can return.

use crate::split::{
    base_share, correct_split, exact_division, items_total, leftover, lemma_leftover_is_remainder,
    lemma_share_bounds, share_at, LineItem, Recipient,
};
use vstd::arithmetic::div_mod::lemma_div_multiples_vanish;
use vstd::prelude::*;

verus! {

/// The sum of the amounts in a split's entries.
pub open spec fn sum_amounts(entries: Seq<(Seq<char>, int)>) -> int
    decreases entries.len(),
{
    if entries.len() == 0 {
        0
    } else {
        sum_amounts(entries.drop_last()) + entries.last().1
    }
}

proof fn lemma_sum_share_prefix(total: int, n: int, entries: Seq<(Seq<char>, int)>, k: int)
    requires
        n >= 1,
        0 <= leftover(total, n) < n,
        entries.len() == n,
        forall|i: int| 0 <= i < n ==> (#[trigger] entries[i]).1 == share_at(total, n, i),
        0 <= k <= n,
    ensures
        sum_amounts(entries.take(k)) == base_share(total, n) * k + if k <= leftover(total, n) {
            k
        } else {
            leftover(total, n)
        },
    decreases k,
{
    if k == 0 {
        assert(entries.take(0) =~= Seq::<(Seq<char>, int)>::empty());
    } else {
        lemma_sum_share_prefix(total, n, entries, k - 1);
        assert(entries.take(k).drop_last() =~= entries.take(k - 1));
        assert(entries.take(k).last() == entries[k - 1]);
        assert(base_share(total, n) * k == base_share(total, n) * (k - 1) + base_share(total, n))
            by (nonlinear_arith);
    }
}

/// Law: the amounts of a split sum to the items' total.
///
/// This holds whenever the total is nonnegative, and also for a negative
/// total that divides evenly; a negative total with a remainder is assigned
/// the bare base share throughout, which falls short of the total.
pub proof fn lemma_amounts_sum_to_total(
    items: Seq<LineItem>,
    recipients: Seq<Recipient>,
    entries: Seq<(Seq<char>, int)>,
)
    requires
        items.len() > 0,
        recipients.len() > 0,
        correct_split(items, recipients, entries),
        items_total(items) >= 0 || exact_division(items_total(items), recipients.len() as int),
    ensures
        sum_amounts(entries) == items_total(items),
{
    let total: int = items_total(items);
    let n: int = recipients.len() as int;
    lemma_share_bounds(total, n);
    lemma_sum_share_prefix(total, n, entries, n);
    assert(entries.take(n) =~= entries);
}

/// Law: any two amounts of a split differ by at most one unit.
pub proof fn lemma_amounts_within_one(
    items: Seq<LineItem>,
    recipients: Seq<Recipient>,
    entries: Seq<(Seq<char>, int)>,
    i: int,
    j: int,
)
    requires
        correct_split(items, recipients, entries),
        0 <= i < entries.len(),
        0 <= j < entries.len(),
    ensures
        -1 <= entries[i].1 - entries[j].1 <= 1,
{
}

/// Law: when the total divides evenly among the recipients, every amount
/// equals the quotient of the total by the recipient count.
pub proof fn lemma_exact_division_equal_amounts(
    items: Seq<LineItem>,
    recipients: Seq<Recipient>,
    entries: Seq<(Seq<char>, int)>,
    i: int,
)
    requires
        recipients.len() > 0,
        correct_split(items, recipients, entries),
        exact_division(items_total(items), recipients.len() as int),
        0 <= i < entries.len(),
    ensures
        entries[i].1 == items_total(items) / (recipients.len() as int),
{
    let total: int = items_total(items);
    let n: int = recipients.len() as int;
    let base: int = base_share(total, n);
    assert(n * base == base * n) by (nonlinear_arith);
    lemma_div_multiples_vanish(base, n);
    assert(total == n * base);
    assert(total / n == base);
}

/// Law: when a nonnegative total does not divide evenly, the remainder
/// `total % count` goes one unit each to exactly the first `total % count`
/// recipients in input order, and every other recipient gets the base share
/// `total / count`.
pub proof fn lemma_remainder_goes_to_first_recipients(
    items: Seq<LineItem>,
    recipients: Seq<Recipient>,
    entries: Seq<(Seq<char>, int)>,
)
    requires
        recipients.len() > 0,
        correct_split(items, recipients, entries),
        items_total(items) >= 0,
        !exact_division(items_total(items), recipients.len() as int),
    ensures
        0 < items_total(items) % (recipients.len() as int) < recipients.len() as int,
        leftover(items_total(items), recipients.len() as int) == items_total(items) % (
        recipients.len() as int),
        base_share(items_total(items), recipients.len() as int) == items_total(items) / (
        recipients.len() as int),
        forall|i: int|
            0 <= i < items_total(items) % (recipients.len() as int) ==> (#[trigger] entries[i]).1
                == items_total(items) / (recipients.len() as int) + 1,
        forall|i: int|
            items_total(items) % (recipients.len() as int) <= i < entries.len() ==> (
            #[trigger] entries[i]).1 == items_total(items) / (recipients.len() as int),
{
    let total: int = items_total(items);
    let n: int = recipients.len() as int;
    lemma_share_bounds(total, n);
    lemma_leftover_is_remainder(total, n);
}

} // verus!
