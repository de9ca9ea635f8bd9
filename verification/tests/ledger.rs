use expense_tracker::error::LedgerError;
use expense_tracker::records::TripMetadata;
use expense_tracker::tracker::ExpenseTracker;

fn accounts(id: usize) -> String {
    ["alice", "bob", "charlie", "danny", "eugene", "fargo"][id].to_string()
}

fn must<T>(r: Result<T, LedgerError>) -> T {
    match r {
        Ok(v) => v,
        Err(e) => panic!("{}", e.message()),
    }
}

fn setup_contract() -> ExpenseTracker {
    ExpenseTracker::new()
}

fn setup_trip() -> ExpenseTracker {
    let mut contract = setup_contract();
    must(contract.add_trip(
        accounts(1),
        TripMetadata {
            trip_id: None,
            trip_name: Some("trip test".to_string()),
            trip_members: Some(vec![accounts(2), accounts(3)]),
        },
    ));
    contract
}

fn setup_expense() -> ExpenseTracker {
    let mut contract = setup_trip();
    must(contract.add_trip_expense(
        accounts(1),
        "1".to_string(),
        Some("expense 1".to_string()),
        accounts(2),
        accounts(3),
        10000000000000000000000,
    ));
    must(contract.add_trip_expense(
        accounts(1),
        "1".to_string(),
        Some("expense 2".to_string()),
        accounts(1),
        accounts(3),
        90000000000000000000000,
    ));
    contract
}

#[test]
fn test_method_new() {
    let contract = ExpenseTracker::new();
    assert_eq!(contract.trip_count() + contract.book_count(), 0);
}

#[test]
fn test_add_trip() {
    let mut contract = setup_contract();
    assert_eq!(contract.trip_count() + contract.book_count(), 0);

    let out = must(contract.add_trip(
        accounts(1),
        TripMetadata {
            trip_id: None,
            trip_name: Some("trip test".to_string()),
            trip_members: None,
        },
    ));
    assert_eq!(out.trip_id.unwrap(), "1");
    assert_eq!(out.trip_members.unwrap(), vec![accounts(1)]);
    assert_eq!(out.trip_name.unwrap(), "trip test");

    let out = must(contract.add_trip(
        accounts(1),
        TripMetadata {
            trip_id: None,
            trip_name: Some("trip test".to_string()),
            trip_members: Some(vec![accounts(2)]),
        },
    ));
    assert_eq!(out.trip_id.unwrap(), "2");
    assert_eq!(out.trip_members.unwrap(), vec![accounts(2), accounts(1)]);

    let out = must(contract.add_trip(
        accounts(1),
        TripMetadata {
            trip_id: Some("100".to_string()),
            trip_name: Some("trip test".to_string()),
            trip_members: None,
        },
    ));
    assert_eq!(out.trip_id.unwrap(), "3");
    assert_eq!(out.trip_members.unwrap(), vec![accounts(1)]);
}

#[test]
#[should_panic(expected = "trip title is required")]
fn test_add_trip_should_fail() {
    let mut contract = setup_contract();
    let _out = must(contract.add_trip(
        accounts(1),
        TripMetadata {
            trip_id: None,
            trip_name: None,
            trip_members: Some(vec![accounts(2)]),
        },
    ));
}

#[test]
fn test_add_trip_members() {
    let mut contract = setup_contract();
    must(contract.add_trip(
        accounts(1),
        TripMetadata {
            trip_id: None,
            trip_name: Some("trip test".to_string()),
            trip_members: Some(vec![accounts(2)]),
        },
    ));

    let out = must(contract.add_trip_members(
        accounts(1),
        "1".to_string(),
        Some(vec![accounts(3)]),
    ));
    assert_eq!(out.trip_id.unwrap(), "1");
    assert_eq!(
        out.trip_members.unwrap(),
        vec![accounts(2), accounts(1), accounts(3)]
    );
    assert_eq!(out.trip_name.unwrap(), "trip test");

    let out = must(contract.add_trip_members(
        accounts(1),
        "1".to_string(),
        Some(vec![accounts(4), accounts(5)]),
    ));
    assert_eq!(
        out.trip_members.unwrap(),
        vec![accounts(2), accounts(1), accounts(3), accounts(4), accounts(5)]
    );
}

#[test]
#[should_panic(expected = "trip_id doesn't exist")]
fn test_add_trip_members_should_fail_1() {
    let mut contract = setup_contract();
    must(contract.add_trip_members(
        accounts(1),
        "1".to_string(),
        Some(vec![accounts(3)]),
    ));
}

#[test]
#[should_panic(expected = "caller id is added in no trips")]
fn test_add_trip_members_should_fail_2() {
    let mut contract = setup_contract();
    must(contract.add_trip(
        accounts(2),
        TripMetadata {
            trip_id: None,
            trip_name: Some("trip test".to_string()),
            trip_members: Some(vec![accounts(2)]),
        },
    ));
    must(contract.add_trip_members(
        accounts(3),
        "1".to_string(),
        Some(vec![accounts(4)]),
    ));
}

#[test]
#[should_panic(expected = "no member ids provided by caller")]
fn test_add_trip_members_should_fail_3() {
    let mut contract = setup_contract();
    must(contract.add_trip(
        accounts(2),
        TripMetadata {
            trip_id: None,
            trip_name: Some("trip test".to_string()),
            trip_members: Some(vec![accounts(2)]),
        },
    ));
    must(contract.add_trip_members(accounts(2), "1".to_string(), None));
}

#[test]
fn test_add_trip_expense() {
    let mut contract = setup_trip();

    let out = must(contract.add_trip_expense(
        accounts(1),
        "1".to_string(),
        Some("expense 1".to_string()),
        accounts(2),
        accounts(3),
        10000000000000000000000,
    ));
    assert_eq!(out.expense_id.unwrap(), "1");
    assert_eq!(out.expense_name.unwrap(), "expense 1");
    assert_eq!(out.loan_amount, 10000000000000000000000);
    assert_eq!(out.lender_id, accounts(3));
    assert_eq!(out.ower_id, accounts(2));

    let out = must(contract.add_trip_expense(
        accounts(1),
        "1".to_string(),
        Some("expense 2".to_string()),
        accounts(2),
        accounts(1),
        50000000000000000000000,
    ));
    assert_eq!(out.expense_id.unwrap(), "2");
    assert_eq!(out.expense_name.unwrap(), "expense 2");
    assert_eq!(out.loan_amount, 50000000000000000000000);
    assert_eq!(out.lender_id, accounts(1));
    assert_eq!(out.ower_id, accounts(2));
}

#[test]
#[should_panic(expected = "trip_id doesn't exist")]
fn test_add_trip_expense_should_fail_1() {
    let mut contract = setup_contract();
    must(contract.add_trip_expense(
        accounts(1),
        "1".to_string(),
        Some("expense 1".to_string()),
        accounts(2),
        accounts(1),
        50000000000000000000000,
    ));
}

#[test]
#[should_panic(expected = "expense title is required")]
fn test_add_trip_expense_should_fail_2() {
    let mut contract = setup_trip();
    must(contract.add_trip_expense(
        accounts(1),
        "1".to_string(),
        None,
        accounts(2),
        accounts(1),
        50000000000000000000000,
    ));
}

#[test]
#[should_panic(expected = "caller id is added in no trips")]
fn test_add_trip_expense_should_fail_3() {
    let mut contract = setup_trip();
    must(contract.add_trip_expense(
        accounts(0),
        "1".to_string(),
        Some("expense 1".to_string()),
        accounts(2),
        accounts(1),
        50000000000000000000000,
    ));
}

#[test]
#[should_panic(expected = "lender and ower cannot be same")]
fn test_add_trip_expense_should_fail_4() {
    let mut contract = setup_trip();
    must(contract.add_trip_expense(
        accounts(1),
        "1".to_string(),
        Some("expense 1".to_string()),
        accounts(2),
        accounts(2),
        50000000000000000000000,
    ));
}

#[test]
fn test_update_delete_trip_expense() {
    let mut contract = setup_expense();

    let out = must(contract.update_trip_expense(
        accounts(3),
        "1".to_string(),
        "1".to_string(),
        Some("expense 1 updated".to_string()),
        accounts(1),
        accounts(2),
        50000000000000000000000,
    ));
    assert_eq!(out.expense_id.unwrap(), "1");
    assert_eq!(out.expense_name.unwrap(), "expense 1 updated");
    assert_eq!(out.loan_amount, 50000000000000000000000);
    assert_eq!(out.lender_id, accounts(2));
    assert_eq!(out.ower_id, accounts(1));

    let out = must(contract.update_trip_expense(
        accounts(3),
        "1".to_string(),
        "2".to_string(),
        None,
        accounts(1),
        accounts(3),
        50000000000000000000000,
    ));
    assert_eq!(out.expense_id.unwrap(), "2");
    assert_eq!(out.expense_name.unwrap(), "expense 2");
    assert_eq!(out.loan_amount, 50000000000000000000000);
    assert_eq!(out.lender_id, accounts(3));
    assert_eq!(out.ower_id, accounts(1));

    let out = must(contract.delete_trip_expense(
        accounts(3),
        "1".to_string(),
        "2".to_string(),
    ));
    assert_eq!(out, true);
}

#[test]
#[should_panic(expected = "trip_id doesn't exist")]
fn test_update_trip_expense_should_fail_1() {
    let mut contract = setup_expense();
    must(contract.update_trip_expense(
        accounts(1),
        "2".to_string(),
        "1".to_string(),
        None,
        accounts(2),
        accounts(3),
        50000000000000000000000,
    ));
}

#[test]
#[should_panic(expected = "lender and ower cannot be same")]
fn test_update_trip_expense_should_fail_2() {
    let mut contract = setup_expense();
    must(contract.update_trip_expense(
        accounts(1),
        "1".to_string(),
        "1".to_string(),
        None,
        accounts(2),
        accounts(2),
        50000000000000000000000,
    ));
}

#[test]
#[should_panic(expected = "trip doesn't have any expenses")]
fn test_update_trip_expense_should_fail_3() {
    let mut contract = setup_trip();
    must(contract.update_trip_expense(
        accounts(1),
        "1".to_string(),
        "1".to_string(),
        None,
        accounts(2),
        accounts(3),
        50000000000000000000000,
    ));
}

#[test]
#[should_panic(expected = "expense_id doesn't exist in trip")]
fn test_update_trip_expense_should_fail_4() {
    let mut contract = setup_expense();
    must(contract.update_trip_expense(
        accounts(1),
        "1".to_string(),
        "10".to_string(),
        None,
        accounts(2),
        accounts(3),
        50000000000000000000000,
    ));
}

#[test]
#[should_panic(expected = "cannot edit expense since caller is not current lender")]
fn test_update_trip_expense_should_fail_5() {
    let mut contract = setup_expense();
    must(contract.update_trip_expense(
        accounts(2),
        "1".to_string(),
        "1".to_string(),
        None,
        accounts(2),
        accounts(3),
        50000000000000000000000,
    ));
}

#[test]
#[should_panic(expected = "cannot delete expense since caller is not lender")]
fn test_delete_trip_expense_should_fail() {
    let mut contract = setup_expense();
    must(contract.delete_trip_expense(
        accounts(2),
        "1".to_string(),
        "1".to_string(),
    ));
}

#[test]
fn test_get_expense_summary_by_trip_id_account_id() {
    let mut contract = setup_trip();

    must(contract.add_trip_expense(
        accounts(1),
        "1".to_string(),
        Some("expense 1".to_string()),
        accounts(2),
        accounts(3),
        100000000000000000000000,
    ));
    must(contract.add_trip_expense(
        accounts(1),
        "1".to_string(),
        Some("expense 2".to_string()),
        accounts(1),
        accounts(3),
        90000000000000000000000,
    ));
    must(contract.add_trip_expense(
        accounts(1),
        "1".to_string(),
        Some("expense 3".to_string()),
        accounts(1),
        accounts(2),
        100000000000000000000000,
    ));
    must(contract.add_trip_expense(
        accounts(1),
        "1".to_string(),
        Some("expense 4".to_string()),
        accounts(3),
        accounts(1),
        900000000000000000000000,
    ));
    must(contract.add_trip_expense(
        accounts(1),
        "1".to_string(),
        Some("expense 5".to_string()),
        accounts(3),
        accounts(2),
        12000000000000000000000,
    ));
    must(contract.add_trip_expense(
        accounts(1),
        "1".to_string(),
        Some("expense 6".to_string()),
        accounts(3),
        accounts(1),
        10000000000000000000000,
    ));

    let out = must(
        contract.get_expense_summary_by_trip_id_account_id("1".to_string(), accounts(3)),
    );
    assert_eq!(out.trip_id.unwrap(), "1");
    assert_eq!(out.trip_name.unwrap(), "trip test");
    assert_eq!(out.expense_acc_key, vec![accounts(2), accounts(1)]);
    assert_eq!(
        out.expense_amt_value,
        vec![88000000000000000000000, -820000000000000000000000]
    );

    let out = must(
        contract.get_expense_summary_by_trip_id_account_id("1".to_string(), accounts(1)),
    );
    assert_eq!(out.expense_acc_key, vec![accounts(2), accounts(3)]);
    assert_eq!(
        out.expense_amt_value,
        vec![-100000000000000000000000, 820000000000000000000000]
    );
}

#[test]
#[should_panic(expected = "trip doesn't have any expenses")]
fn test_get_expense_summary_by_trip_id_account_id_should_fail_1() {
    let contract = setup_trip();
    must(contract.get_expense_summary_by_trip_id_account_id("1".to_string(), accounts(1)));
}

#[test]
#[should_panic(expected = "account id is added in no trips")]
fn test_get_expense_summary_by_trip_id_account_id_should_fail_2() {
    let contract = setup_expense();
    must(contract.get_expense_summary_by_trip_id_account_id("1".to_string(), accounts(4)));
}
