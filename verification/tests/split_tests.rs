use expense_split::split::{calculates, is_not_exact_division, LineItem, Recipient, SplitError};

fn item(name: &str, quantity: i32, unit_price: i32) -> LineItem {
    LineItem { name: String::from(name), quantity, unit_price }
}

fn recipient(address: &str) -> Recipient {
    Recipient { address: String::from(address) }
}

fn three_recipients() -> Vec<Recipient> {
    vec![
        recipient("hermano@gmail.com"),
        recipient("brena@hotmail.com"),
        recipient("lucas@gmail.com"),
    ]
}

#[test]
fn test_is_not_exact_division_should_return_true() {
    assert_eq!(true, is_not_exact_division(&100, &3));
}

#[test]
fn test_is_not_exact_division_should_return_false() {
    assert_eq!(false, is_not_exact_division(&100, &2));
}

#[test]
fn test_calculates_must_divide_in_34_33_33() {
    let items = vec![item("Item A", 25, 1), item("Item B", 25, 1), item("Item C", 50, 1)];
    let result = match calculates(&items, &three_recipients()) {
        Ok(result) => result,
        Err(e) => panic!("{}", e.message()),
    };
    assert_eq!(Some(34), result.get("hermano@gmail.com"));
    assert_eq!(Some(33), result.get("brena@hotmail.com"));
    assert_eq!(Some(33), result.get("lucas@gmail.com"));
}

#[test]
fn test_calculates_must_divide_in_25_25_25() {
    let items = vec![item("Item A", 25, 1), item("Item B", 25, 1), item("Item C", 25, 1)];
    let result = match calculates(&items, &three_recipients()) {
        Ok(result) => result,
        Err(e) => panic!("{}", e.message()),
    };
    assert_eq!(Some(25), result.get("hermano@gmail.com"));
    assert_eq!(Some(25), result.get("brena@hotmail.com"));
    assert_eq!(Some(25), result.get("lucas@gmail.com"));
}

#[test]
fn empty_item_list_yields_empty_input_error() {
    let items: Vec<LineItem> = Vec::new();
    let result = calculates(&items, &three_recipients());
    assert!(matches!(result, Err(SplitError::EmptyInput)));
}

#[test]
fn empty_recipient_list_yields_empty_input_error() {
    let items = vec![item("Item A", 1, 10)];
    let recipients: Vec<Recipient> = Vec::new();
    let result = calculates(&items, &recipients);
    assert!(matches!(result, Err(SplitError::EmptyInput)));
}

#[test]
fn both_lists_empty_yields_empty_input_error() {
    let items: Vec<LineItem> = Vec::new();
    let recipients: Vec<Recipient> = Vec::new();
    let result = calculates(&items, &recipients);
    assert!(matches!(result, Err(SplitError::EmptyInput)));
}

#[test]
fn empty_input_error_carries_the_message() {
    assert_eq!("List of emails or items is empty!", SplitError::EmptyInput.message());
}

#[test]
fn amounts_sum_to_the_items_total() {
    // 7 units among 3 recipients: 3 + 2 + 2 = 7.
    let items = vec![item("Item A", 7, 1)];
    let result = calculates(&items, &three_recipients()).unwrap();
    let mut sum: i64 = 0;
    for i in 0..result.len() {
        sum += i64::from(result.entry_at(i).1);
    }
    assert_eq!(7, sum);
}

#[test]
fn amounts_differ_by_at_most_one() {
    let items = vec![item("Item A", 17, 3)];
    let recipients = vec![
        recipient("a@example.com"),
        recipient("b@example.com"),
        recipient("c@example.com"),
        recipient("d@example.com"),
    ];
    let result = calculates(&items, &recipients).unwrap();
    let mut lowest = i32::MAX;
    let mut highest = i32::MIN;
    for i in 0..result.len() {
        let amount = result.entry_at(i).1;
        lowest = lowest.min(amount);
        highest = highest.max(amount);
    }
    assert!(highest - lowest <= 1);
}

#[test]
fn remainder_goes_to_the_first_recipients_in_order() {
    // 11 among 3: base 3, remainder 2, so the first two get 4.
    let items = vec![item("Item A", 11, 1)];
    let result = calculates(&items, &three_recipients()).unwrap();
    assert_eq!(3, result.len());
    assert_eq!(("hermano@gmail.com".to_string(), 4), result.entry_at(0));
    assert_eq!(("brena@hotmail.com".to_string(), 4), result.entry_at(1));
    assert_eq!(("lucas@gmail.com".to_string(), 3), result.entry_at(2));
}

#[test]
fn exact_division_gives_every_recipient_the_quotient() {
    let items = vec![item("Item A", 3, 4), item("Item B", 6, 3)];
    let recipients = vec![recipient("a@example.com"), recipient("b@example.com")];
    let result = calculates(&items, &recipients).unwrap();
    assert_eq!(Some(15), result.get("a@example.com"));
    assert_eq!(Some(15), result.get("b@example.com"));
}

#[test]
fn single_recipient_owes_the_whole_total() {
    let items = vec![item("Item A", 2, 9), item("Item B", 1, 5)];
    let recipients = vec![recipient("solo@example.com")];
    let result = calculates(&items, &recipients).unwrap();
    assert_eq!(1, result.len());
    assert_eq!(Some(23), result.get("solo@example.com"));
}

#[test]
fn zero_quantity_items_contribute_nothing() {
    let items = vec![item("Item A", 0, 100), item("Item B", 10, 1)];
    let recipients = vec![recipient("a@example.com"), recipient("b@example.com")];
    let result = calculates(&items, &recipients).unwrap();
    assert_eq!(Some(5), result.get("a@example.com"));
    assert_eq!(Some(5), result.get("b@example.com"));
}

#[test]
fn negative_contributions_are_accepted() {
    // 5 - 2 = 3 among 2 recipients: 2 and 1.
    let items = vec![item("Item A", 5, 1), item("Discount", -2, 1)];
    let recipients = vec![recipient("a@example.com"), recipient("b@example.com")];
    let result = calculates(&items, &recipients).unwrap();
    assert_eq!(Some(2), result.get("a@example.com"));
    assert_eq!(Some(1), result.get("b@example.com"));
}

#[test]
fn get_returns_none_for_an_unknown_address() {
    let items = vec![item("Item A", 9, 1)];
    let result = calculates(&items, &three_recipients()).unwrap();
    assert_eq!(None, result.get("nobody@example.com"));
}

#[test]
fn get_returns_the_first_entry_under_a_duplicated_address() {
    // 5 among 2 entries with the same address: the first entry gets 3.
    let items = vec![item("Item A", 5, 1)];
    let recipients = vec![recipient("twin@example.com"), recipient("twin@example.com")];
    let result = calculates(&items, &recipients).unwrap();
    assert_eq!(2, result.len());
    assert_eq!(Some(3), result.get("twin@example.com"));
    assert_eq!(("twin@example.com".to_string(), 2), result.entry_at(1));
}

#[test]
fn entry_order_follows_recipient_input_order() {
    let items = vec![item("Item A", 100, 1)];
    let result = calculates(&items, &three_recipients()).unwrap();
    assert_eq!(("hermano@gmail.com".to_string(), 34), result.entry_at(0));
    assert_eq!(("brena@hotmail.com".to_string(), 33), result.entry_at(1));
    assert_eq!(("lucas@gmail.com".to_string(), 33), result.entry_at(2));
}
