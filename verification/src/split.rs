//! The expense-splitting calculation and its data model.
//!
//! A `LineItem` contributes `quantity * unit_price` to the shared total; the
//! total is divided among the recipients, each getting the truncated quotient
//! (the base share), and the leftover units go one each to the first
//! recipients in list order.

use vstd::arithmetic::div_mod::{
    lemma_div_nonincreasing, lemma_div_pos_is_pos, lemma_fundamental_div_mod,
    lemma_mod_division_less_than_divisor,
};
use vstd::prelude::*;

verus! {

/// Whether a mathematical integer is representable as an `i32`.
pub open spec fn fits_i32(v: int) -> bool {
    i32::MIN as int <= v <= i32::MAX as int
}

/// A purchased entry: the name is descriptive only, the contribution to the
/// shared total is `quantity * unit_price`.
pub struct LineItem {
    pub name: String,
    pub quantity: i32,
    pub unit_price: i32,
}

/// An entity, identified by an address, among whom the total is divided.
pub struct Recipient {
    pub address: String,
}

/// What one line item adds to the shared total.
pub open spec fn item_contribution(item: LineItem) -> int {
    item.quantity * item.unit_price
}

/// The sum of the contributions of a list of items.
pub open spec fn items_total(items: Seq<LineItem>) -> int
    decreases items.len(),
{
    if items.len() == 0 {
        0
    } else {
        items_total(items.drop_last()) + item_contribution(items.last())
    }
}

/// The quotient of `total / n` truncated toward zero, as the division of the
/// executable integer types computes it.
pub open spec fn base_share(total: int, n: int) -> int
    recommends
        n >= 1,
{
    if total >= 0 {
        total / n
    } else {
        -((-total) / n)
    }
}

/// What remains of the total once every recipient is assigned the base share.
pub open spec fn leftover(total: int, n: int) -> int
    recommends
        n >= 1,
{
    total - base_share(total, n) * n
}

/// Whether `total` divides evenly among `n` recipients.
pub open spec fn exact_division(total: int, n: int) -> bool
    recommends
        n >= 1,
{
    leftover(total, n) == 0
}

/// The amount assigned to the recipient at position `i`: the first `leftover`
/// recipients get one unit above the base share, the rest get the base share.
pub open spec fn share_at(total: int, n: int, i: int) -> int
    recommends
        n >= 1,
        0 <= i < n,
{
    if i < leftover(total, n) {
        base_share(total, n) + 1
    } else {
        base_share(total, n)
    }
}

/// The leftover equals the remainder that the truncating `%` of the
/// executable integer types computes.
pub proof fn lemma_leftover_is_remainder(total: int, n: int)
    requires
        n >= 1,
    ensures
        leftover(total, n) == if total >= 0 {
            total % n
        } else {
            -((-total) % n)
        },
{
    if total >= 0 {
        lemma_fundamental_div_mod(total, n);
        assert(n * (total / n) == (total / n) * n) by (nonlinear_arith);
    } else {
        let q: int = (-total) / n;
        lemma_fundamental_div_mod(-total, n);
        assert(n * q == q * n) by (nonlinear_arith);
        assert((-q) * n == -(q * n)) by (nonlinear_arith);
    }
}

/// Bounds of the base share and of the leftover, enough to show that both fit
/// in `i32` whenever the total does.
pub proof fn lemma_share_bounds(total: int, n: int)
    requires
        n >= 1,
    ensures
        total >= 0 ==> 0 <= base_share(total, n) <= total,
        total < 0 ==> total <= base_share(total, n) <= 0,
        total >= 0 ==> 0 <= leftover(total, n) < n,
        total < 0 ==> -n < leftover(total, n) <= 0,
        total >= 0 ==> 0 <= base_share(total, n) * n <= total,
        total < 0 ==> total <= base_share(total, n) * n <= 0,
{
    lemma_leftover_is_remainder(total, n);
    if total >= 0 {
        lemma_div_pos_is_pos(total, n);
        lemma_div_nonincreasing(total, n);
        lemma_mod_division_less_than_divisor(total, n);
        lemma_fundamental_div_mod(total, n);
        assert(n * (total / n) == (total / n) * n) by (nonlinear_arith);
        assert((total / n) * n >= 0) by (nonlinear_arith)
            requires
                total / n >= 0,
                n >= 1,
        ;
    } else {
        let q: int = (-total) / n;
        lemma_div_pos_is_pos(-total, n);
        lemma_div_nonincreasing(-total, n);
        lemma_mod_division_less_than_divisor(-total, n);
        lemma_fundamental_div_mod(-total, n);
        assert(n * q == q * n) by (nonlinear_arith);
        assert((-q) * n == -(q * n)) by (nonlinear_arith);
        assert(q * n >= 0) by (nonlinear_arith)
            requires
                q >= 0,
                n >= 1,
        ;
    }
}

/// When the division leaves a remainder to hand out, the base share is
/// strictly below the total, so one unit more still fits in `i32`.
pub proof fn lemma_share_plus_one_fits(total: int, n: int)
    requires
        n >= 1,
        leftover(total, n) >= 1,
        total <= i32::MAX as int,
    ensures
        base_share(total, n) + 1 <= total <= i32::MAX as int,
{
    lemma_share_bounds(total, n);
    assert(total >= 0) by {
        if total < 0 {
            assert(leftover(total, n) <= 0);
        }
    }
    assert(base_share(total, n) <= base_share(total, n) * n) by (nonlinear_arith)
        requires
            n >= 1,
            base_share(total, n) >= 0,
    ;
}

/// The one failure mode of the calculation: an empty item list or an empty
/// recipient list.
#[derive(Clone, Copy, Debug, PartialEq, Eq, Structural)]
pub enum SplitError {
    EmptyInput,
}

impl SplitError {
    /// The human-readable description of the failure.
    pub fn message(&self) -> (r: String)
        ensures
            r@ == "List of emails or items is empty!"@,
    {
        "List of emails or items is empty!".to_owned()
    }
}

/// One recipient's entry in a split: the address and the amount owed.
pub struct Share {
    pub address: String,
    pub amount: i32,
}

impl View for Share {
    type V = (Seq<char>, int);

    open spec fn view(&self) -> (Seq<char>, int) {
        (self.address@, self.amount as int)
    }
}

/// The outcome of a split: one entry per recipient, in the recipients' input
/// order, each mapping an address to the integer amount owed.
pub struct SplitResult {
    shares: Vec<Share>,
}

/// The amount owed under the first entry carrying `address`, if any.
pub open spec fn lookup(entries: Seq<(Seq<char>, int)>, address: Seq<char>) -> Option<int>
    decreases entries.len(),
{
    if entries.len() == 0 {
        None
    } else if entries.first().0 == address {
        Some(entries.first().1)
    } else {
        lookup(entries.drop_first(), address)
    }
}

proof fn lemma_lookup_found(entries: Seq<(Seq<char>, int)>, address: Seq<char>, j: int)
    requires
        0 <= j < entries.len(),
        entries[j].0 == address,
        forall|k: int| 0 <= k < j ==> entries[k].0 != address,
    ensures
        lookup(entries, address) == Some(entries[j].1),
    decreases j,
{
    if j > 0 {
        lemma_lookup_found(entries.drop_first(), address, j - 1);
    }
}

proof fn lemma_lookup_missing(entries: Seq<(Seq<char>, int)>, address: Seq<char>)
    requires
        forall|k: int| 0 <= k < entries.len() ==> entries[k].0 != address,
    ensures
        lookup(entries, address) is None,
    decreases entries.len(),
{
    if entries.len() > 0 {
        lemma_lookup_missing(entries.drop_first(), address);
    }
}

impl View for SplitResult {
    type V = Seq<(Seq<char>, int)>;

    closed spec fn view(&self) -> Seq<(Seq<char>, int)> {
        self.shares@.map_values(|s: Share| s@)
    }
}

impl SplitResult {
    /// How many recipients the split covers.
    pub fn len(&self) -> (n: usize)
        ensures
            n == self@.len(),
    {
        self.shares.len()
    }

    /// The entry at position `i` in recipient input order.
    pub fn entry_at(&self, i: usize) -> (r: (String, i32))
        requires
            i < self@.len(),
        ensures
            (r.0@, r.1 as int) == self@[i as int],
    {
        let share = &self.shares[i];
        (share.address.clone(), share.amount)
    }

    /// The amount owed under `address`: the amount of the first entry with
    /// that address, or `None` when no entry carries it.
    pub fn get(&self, address: &str) -> (r: Option<i32>)
        ensures
            match r {
                Some(v) => lookup(self@, address@) == Some(v as int),
                None => lookup(self@, address@) is None,
            },
    {
        let target: String = address.to_owned();
        let mut j: usize = 0;
        while j < self.shares.len()
            invariant
                j <= self.shares.len(),
                target@ == address@,
                forall|k: int| 0 <= k < j ==> self@[k].0 != address@,
            decreases self.shares.len() - j,
        {
            if self.shares[j].address == target {
                proof {
                    lemma_lookup_found(self@, address@, j as int);
                }
                return Some(self.shares[j].amount);
            }
            j = j + 1;
        }
        proof {
            lemma_lookup_missing(self@, address@);
        }
        None
    }
}

/// What the calculation promises of a successful outcome: one entry per
/// recipient in input order, each carrying the recipient's address and the
/// recipient's share of the items' total.
pub open spec fn correct_split(
    items: Seq<LineItem>,
    recipients: Seq<Recipient>,
    entries: Seq<(Seq<char>, int)>,
) -> bool {
    &&& entries.len() == recipients.len()
    &&& forall|i: int|
        0 <= i < recipients.len() ==> (#[trigger] entries[i]).0 == recipients[i].address@
    &&& forall|i: int|
        0 <= i < recipients.len() ==> (#[trigger] entries[i]).1 == share_at(
            items_total(items),
            recipients.len() as int,
            i,
        )
}

/// Splits the items' total among the recipients.
///
/// Fails exactly when either list is empty.  On success every recipient gets
/// the truncated quotient of the total, and the leftover units go one each to
/// the first recipients in input order.  The bounds asked of the caller only
/// keep every intermediate sum and product representable as an `i32`.
#[verifier::loop_isolation(false)]
pub fn calculates(items: &Vec<LineItem>, emails: &Vec<Recipient>) -> (r: Result<
    SplitResult,
    SplitError,
>)
    requires
        emails@.len() <= i32::MAX as int,
        forall|k: int| 0 <= k < items@.len() ==> fits_i32(item_contribution(#[trigger] items@[k])),
        forall|k: int| 0 <= k <= items@.len() ==> fits_i32(items_total(#[trigger] items@.take(k))),
    ensures
        match r {
            Ok(split) => items@.len() > 0 && emails@.len() > 0 && correct_split(
                items@,
                emails@,
                split@,
            ),
            Err(e) => (items@.len() == 0 || emails@.len() == 0) && e == SplitError::EmptyInput,
        },
{
    if emails.len() == 0 || items.len() == 0 {
        return Err(SplitError::EmptyInput);
    }
    let ghost n: int = emails@.len() as int;

    let mut list_total: i32 = 0;
    let mut idx: usize = 0;
    while idx < items.len()
        invariant
            idx <= items@.len(),
            list_total as int == items_total(items@.take(idx as int)),
            forall|k: int|
                0 <= k < items@.len() ==> fits_i32(item_contribution(#[trigger] items@[k])),
            forall|k: int|
                0 <= k <= items@.len() ==> fits_i32(items_total(#[trigger] items@.take(k))),
        decreases items@.len() - idx,
    {
        let item = &items[idx];
        proof {
            assert(items@.take(idx + 1).drop_last() =~= items@.take(idx as int));
            assert(items@.take(idx + 1).last() == items@[idx as int]);
        }
        list_total = list_total + item.quantity * item.unit_price;
        idx = idx + 1;
    }
    proof {
        assert(items@.take(items@.len() as int) =~= items@);
    }
    let ghost total: int = items_total(items@);

    let amount_of_people: i32 = emails.len() as i32;
    proof {
        lemma_share_bounds(total, n);
    }
    let personal_value: i32 = list_total / amount_of_people;
    assert(personal_value as int == base_share(total, n));

    let mut result: Vec<Share> = Vec::new();
    let mut i: usize = 0;
    if is_not_exact_division(&list_total, &amount_of_people) {
        let mut rest: i32 = list_total - personal_value * amount_of_people;
        assert(rest as int == leftover(total, n));
        while i < emails.len()
            invariant
                i <= emails@.len(),
                result@.len() == i as int,
                rest as int == if leftover(total, n) - i >= 0 {
                    leftover(total, n) - i
                } else if leftover(total, n) >= 0 {
                    0
                } else {
                    leftover(total, n)
                },
                forall|j: int|
                    0 <= j < i ==> (#[trigger] result@[j])@ == (
                        emails@[j].address@,
                        share_at(total, n, j),
                    ),
            decreases emails@.len() - i,
        {
            let address = emails[i].address.clone();
            if rest >= 1 {
                proof {
                    lemma_share_plus_one_fits(total, n);
                }
                result.push(Share { address, amount: personal_value + 1 });
                rest = rest - 1;
            } else {
                result.push(Share { address, amount: personal_value });
            }
            i = i + 1;
        }
    } else {
        while i < emails.len()
            invariant
                i <= emails@.len(),
                result@.len() == i as int,
                forall|j: int|
                    0 <= j < i ==> (#[trigger] result@[j])@ == (
                        emails@[j].address@,
                        share_at(total, n, j),
                    ),
            decreases emails@.len() - i,
        {
            let address = emails[i].address.clone();
            result.push(Share { address, amount: personal_value });
            i = i + 1;
        }
    }
    Ok(SplitResult { shares: result })
}

/// True when the division is not exact: dividing `list_total` among
/// `amount_of_people` leaves a nonzero remainder.
pub fn is_not_exact_division(list_total: &i32, amount_of_people: &i32) -> (r: bool)
    requires
        *amount_of_people > 0,
    ensures
        r == !exact_division(*list_total as int, *amount_of_people as int),
{
    proof {
        lemma_leftover_is_remainder(*list_total as int, *amount_of_people as int);
        lemma_share_bounds(*list_total as int, *amount_of_people as int);
    }
    *list_total % *amount_of_people != 0
}

} // verus!
