//! Concrete scenarios of the calculation, checked by the verifier.
//!
//! Each function builds a fixed input, runs the calculation, and asserts the
//! expected outcome; the assertions are discharged statically from the
//! contracts of `calculates` and `is_not_exact_division`.

use crate::split::{
    calculates, fits_i32, is_not_exact_division, item_contribution, items_total, LineItem,
    Recipient,
};
use vstd::pervasive::unreached;
use vstd::prelude::*;

verus! {

/// Dividing 100 among 3 leaves a remainder.
pub fn test_is_not_exact_division_should_return_true() {
    let r = is_not_exact_division(&100, &3);
    assert(r);
}

/// Dividing 100 among 2 leaves no remainder.
pub fn test_is_not_exact_division_should_return_false() {
    let r = is_not_exact_division(&100, &2);
    assert(!r);
}

proof fn lemma_three_item_totals(items: Seq<LineItem>, a: int, b: int, c: int)
    requires
        items.len() == 3,
        item_contribution(items[0]) == a,
        item_contribution(items[1]) == b,
        item_contribution(items[2]) == c,
        fits_i32(a) && fits_i32(a + b) && fits_i32(a + b + c),
        0 <= a && 0 <= b && 0 <= c,
    ensures
        items_total(items) == a + b + c,
        forall|k: int| 0 <= k < items.len() ==> fits_i32(item_contribution(#[trigger] items[k])),
        forall|k: int| 0 <= k <= items.len() ==> fits_i32(items_total(#[trigger] items.take(k))),
{
    assert(items.take(0) =~= Seq::<LineItem>::empty());
    assert(items.take(1).drop_last() =~= items.take(0));
    assert(items.take(1).last() == items[0]);
    assert(items.take(2).drop_last() =~= items.take(1));
    assert(items.take(2).last() == items[1]);
    assert(items.take(3).drop_last() =~= items.take(2));
    assert(items.take(3).last() == items[2]);
    assert(items.take(3) =~= items);
    assert(items_total(items.take(0)) == 0);
    assert(items_total(items.take(1)) == a);
    assert(items_total(items.take(2)) == a + b);
    assert(items_total(items.take(3)) == a + b + c);
    assert forall|k: int| 0 <= k <= items.len() implies fits_i32(
        items_total(#[trigger] items.take(k)),
    ) by {
        if k == 0 {
        } else if k == 1 {
        } else if k == 2 {
        } else {
            assert(k == 3);
        }
    }
    assert forall|k: int| 0 <= k < items.len() implies fits_i32(
        item_contribution(#[trigger] items[k]),
    ) by {
        if k == 0 {
        } else if k == 1 {
        } else {
            assert(k == 2);
        }
    }
}

/// Items totaling 100 split across three recipients: the first pays 34, the
/// other two pay 33 each.
pub fn test_calculates_must_divide_in_34_33_33() {
    let mut items: Vec<LineItem> = Vec::new();
    items.push(LineItem { name: "Item A".to_owned(), quantity: 25, unit_price: 1 });
    items.push(LineItem { name: "Item B".to_owned(), quantity: 25, unit_price: 1 });
    items.push(LineItem { name: "Item C".to_owned(), quantity: 50, unit_price: 1 });
    let mut emails: Vec<Recipient> = Vec::new();
    emails.push(Recipient { address: "hermano@gmail.com".to_owned() });
    emails.push(Recipient { address: "brena@hotmail.com".to_owned() });
    emails.push(Recipient { address: "lucas@gmail.com".to_owned() });
    proof {
        lemma_three_item_totals(items@, 25, 25, 50);
    }
    let split = match calculates(&items, &emails) {
        Ok(split) => split,
        Err(_) => unreached(),
    };
    assert(split@.len() == 3);
    assert(split@[0] == ("hermano@gmail.com"@, 34int));
    assert(split@[1] == ("brena@hotmail.com"@, 33int));
    assert(split@[2] == ("lucas@gmail.com"@, 33int));
}

/// Items totaling 75 split across three recipients: all three pay 25.
pub fn test_calculates_must_divide_in_25_25_25() {
    let mut items: Vec<LineItem> = Vec::new();
    items.push(LineItem { name: "Item A".to_owned(), quantity: 25, unit_price: 1 });
    items.push(LineItem { name: "Item B".to_owned(), quantity: 25, unit_price: 1 });
    items.push(LineItem { name: "Item C".to_owned(), quantity: 25, unit_price: 1 });
    let mut emails: Vec<Recipient> = Vec::new();
    emails.push(Recipient { address: "hermano@gmail.com".to_owned() });
    emails.push(Recipient { address: "brena@hotmail.com".to_owned() });
    emails.push(Recipient { address: "lucas@gmail.com".to_owned() });
    proof {
        assert(items@[0].quantity == 25 && items@[0].unit_price == 1);
        assert(items@[1].quantity == 25 && items@[1].unit_price == 1);
        assert(items@[2].quantity == 25 && items@[2].unit_price == 1);
        lemma_three_item_totals(items@, 25, 25, 25);
    }
    let split = match calculates(&items, &emails) {
        Ok(split) => split,
        Err(_) => unreached(),
    };
    assert(split@.len() == 3);
    assert(split@[0] == ("hermano@gmail.com"@, 25int));
    assert(split@[1] == ("brena@hotmail.com"@, 25int));
    assert(split@[2] == ("lucas@gmail.com"@, 25int));
}

} // verus!
