use expense_tracker::error::{ErrorKind, LedgerError, Party};
use expense_tracker::records::{Expense, TripMetadata};
use expense_tracker::tracker::ExpenseTracker;

fn s(text: &str) -> String {
    text.to_string()
}

fn trip(name: &str, members: Option<Vec<&str>>) -> TripMetadata {
    TripMetadata {
        trip_id: None,
        trip_name: Some(s(name)),
        trip_members: members.map(|list| list.into_iter().map(s).collect()),
    }
}

/// A trip "1" of a1, made by a1 with the members a2 and a3.
fn three_friends() -> ExpenseTracker {
    let mut ledger = ExpenseTracker::new();
    ledger
        .add_trip(s("a1"), trip("alps", Some(vec!["a2", "a3"])))
        .unwrap();
    ledger
}

fn lend(ledger: &mut ExpenseTracker, ower: &str, lender: &str, amount: u128) -> Result<Expense, LedgerError> {
    ledger.add_trip_expense(s("a1"), s("1"), Some(s("e")), s(ower), s(lender), amount)
}

fn ids(ledger: &ExpenseTracker) -> Vec<String> {
    ledger.view_trip_expense_ids_by_trip_id(s("1")).unwrap()
}

#[test]
fn expense_ids_count_up_in_call_order() {
    let mut ledger = three_friends();
    for n in 1..=12u32 {
        let e = lend(&mut ledger, "a2", "a3", 1).unwrap();
        assert_eq!(e.expense_id, Some(n.to_string()));
    }
}

#[test]
fn expense_ids_are_counted_per_trip() {
    let mut ledger = three_friends();
    ledger.add_trip(s("a1"), trip("coast", Some(vec!["a2"]))).unwrap();
    lend(&mut ledger, "a2", "a3", 1).unwrap();
    lend(&mut ledger, "a2", "a3", 1).unwrap();
    let e = ledger
        .add_trip_expense(s("a2"), s("2"), Some(s("e")), s("a1"), s("a2"), 7)
        .unwrap();
    assert_eq!(e.expense_id, Some(s("1")));
}

#[test]
fn id_of_a_deleted_last_expense_is_given_again() {
    let mut ledger = three_friends();
    lend(&mut ledger, "a2", "a3", 1).unwrap();
    lend(&mut ledger, "a2", "a3", 2).unwrap();
    assert_eq!(ledger.delete_trip_expense(s("a3"), s("1"), s("2")), Ok(true));
    let e = lend(&mut ledger, "a1", "a2", 3).unwrap();
    assert_eq!(e.expense_id, Some(s("2")));
    assert_eq!(ids(&ledger), vec![s("1"), s("2")]);
}

#[test]
fn id_in_use_refuses_the_next_expense() {
    let mut ledger = three_friends();
    lend(&mut ledger, "a2", "a3", 1).unwrap();
    lend(&mut ledger, "a2", "a3", 2).unwrap();
    assert_eq!(ledger.delete_trip_expense(s("a3"), s("1"), s("1")), Ok(true));
    assert_eq!(lend(&mut ledger, "a1", "a2", 3), Err(LedgerError::ExpenseIdTaken));
    assert_eq!(LedgerError::ExpenseIdTaken.kind(), ErrorKind::InvalidState);
    assert_eq!(ids(&ledger), vec![s("2")]);
}

#[test]
fn smaller_id_goes_before_larger_ones() {
    let mut ledger = three_friends();
    for _ in 0..3 {
        lend(&mut ledger, "a2", "a3", 1).unwrap();
    }
    ledger.delete_trip_expense(s("a3"), s("1"), s("1")).unwrap();
    ledger.delete_trip_expense(s("a3"), s("1"), s("2")).unwrap();
    assert_eq!(ids(&ledger), vec![s("3")]);
    let e = lend(&mut ledger, "a1", "a2", 9).unwrap();
    assert_eq!(e.expense_id, Some(s("2")));
    assert_eq!(ids(&ledger), vec![s("2"), s("3")]);
}

#[test]
fn listing_is_in_numeric_order() {
    let mut ledger = three_friends();
    for _ in 0..11 {
        lend(&mut ledger, "a2", "a3", 1).unwrap();
    }
    let expected: Vec<String> = (1..=11u32).map(|n| n.to_string()).collect();
    assert_eq!(ids(&ledger), expected);
}

#[test]
fn deleted_id_leaves_the_listing() {
    let mut ledger = three_friends();
    for _ in 0..10 {
        lend(&mut ledger, "a2", "a3", 1).unwrap();
    }
    for gone in ["1", "3", "4", "5", "6", "7", "8", "9"] {
        assert_eq!(ledger.delete_trip_expense(s("a3"), s("1"), s(gone)), Ok(true));
        assert!(!ids(&ledger).contains(&s(gone)));
    }
    assert_eq!(ids(&ledger), vec![s("2"), s("10")]);
}

#[test]
fn listing_of_an_emptied_book_is_refused() {
    let mut ledger = three_friends();
    assert_eq!(
        ledger.view_trip_expense_ids_by_trip_id(s("1")),
        Err(LedgerError::NoExpenses)
    );
    lend(&mut ledger, "a2", "a3", 1).unwrap();
    ledger.delete_trip_expense(s("a3"), s("1"), s("1")).unwrap();
    assert_eq!(
        ledger.view_trip_expense_ids_by_trip_id(s("1")),
        Err(LedgerError::NoExpenses)
    );
    assert_eq!(
        ledger.view_trip_expense_by_expense_id(s("1"), s("1")),
        Err(LedgerError::ExpenseNotFound)
    );
    assert_eq!(
        ledger.view_trip_expense_ids_by_trip_id(s("7")),
        Err(LedgerError::TripNotFound)
    );
}

#[test]
fn trip_without_member_list_has_the_caller() {
    let mut ledger = ExpenseTracker::new();
    let t = ledger.add_trip(s("x"), trip("t", None)).unwrap();
    assert_eq!(t.trip_members, Some(vec![s("x")]));
    assert_eq!(t.trip_id, Some(s("1")));
}

#[test]
fn caller_comes_after_the_given_members() {
    let mut ledger = ExpenseTracker::new();
    let t = ledger.add_trip(s("x"), trip("t", Some(vec!["y"]))).unwrap();
    assert_eq!(t.trip_members, Some(vec![s("y"), s("x")]));
    let t = ledger
        .add_trip(s("x"), trip("t", Some(vec!["y", "x", "z"])))
        .unwrap();
    assert_eq!(t.trip_members, Some(vec![s("y"), s("x"), s("z")]));
    let t = ledger.add_trip(s("x"), trip("t", Some(vec![]))).unwrap();
    assert_eq!(t.trip_members, Some(vec![s("x")]));
}

#[test]
fn given_member_list_is_kept_as_it_is() {
    let mut ledger = ExpenseTracker::new();
    let t = ledger
        .add_trip(s("x"), trip("t", Some(vec!["y", "y"])))
        .unwrap();
    assert_eq!(t.trip_members, Some(vec![s("y"), s("y"), s("x")]));
    assert_eq!(ledger.view_trip_id_by_account_id(s("y")), Ok(vec![s("1")]));
    lend_in(&mut ledger, "x", "1", "y", "x", 4);
    let stats = ledger
        .get_expense_summary_by_trip_id_account_id(s("1"), s("x"))
        .unwrap();
    assert_eq!(stats.expense_acc_key, vec![s("y")]);
    assert_eq!(stats.expense_amt_value, vec![4]);
}

fn lend_in(ledger: &mut ExpenseTracker, caller: &str, trip_id: &str, ower: &str, lender: &str, amount: u128) {
    ledger
        .add_trip_expense(s(caller), s(trip_id), Some(s("e")), s(ower), s(lender), amount)
        .unwrap();
}

#[test]
fn trip_needs_a_name() {
    let mut ledger = ExpenseTracker::new();
    let nameless = TripMetadata { trip_id: None, trip_name: None, trip_members: None };
    assert_eq!(ledger.add_trip(s("x"), nameless), Err(LedgerError::TripTitleRequired));
    assert_eq!(ledger.add_trip(s("x"), trip("", None)), Err(LedgerError::TripTitleRequired));
    assert_eq!(LedgerError::TripTitleRequired.kind(), ErrorKind::InvalidInput);
    assert_eq!(ledger.trip_count(), 0);
    assert_eq!(
        ledger.view_trip_id_by_account_id(s("x")),
        Err(LedgerError::InNoTrips(Party::Account))
    );
}

#[test]
fn adding_members_twice_makes_no_duplicates() {
    let mut ledger = three_friends();
    let t = ledger
        .add_trip_members(s("a1"), s("1"), Some(vec![s("a4"), s("a2"), s("a4"), s("a5")]))
        .unwrap();
    let expected = vec![s("a2"), s("a3"), s("a1"), s("a4"), s("a5")];
    assert_eq!(t.trip_members, Some(expected.clone()));
    let t = ledger
        .add_trip_members(s("a4"), s("1"), Some(vec![s("a4"), s("a2"), s("a4"), s("a5")]))
        .unwrap();
    assert_eq!(t.trip_members, Some(expected.clone()));
    let t = ledger
        .add_trip_members(s("a5"), s("1"), Some(vec![s("a5"), s("a6"), s("a1")]))
        .unwrap();
    assert_eq!(
        t.trip_members,
        Some(vec![s("a2"), s("a3"), s("a1"), s("a4"), s("a5"), s("a6")])
    );
    assert_eq!(ledger.view_trip_id_by_account_id(s("a4")), Ok(vec![s("1")]));
    assert_eq!(ledger.view_trip_id_by_account_id(s("a2")), Ok(vec![s("1")]));
}

#[test]
fn adding_members_is_refused() {
    let mut ledger = three_friends();
    ledger.add_trip(s("b1"), trip("coast", None)).unwrap();
    assert_eq!(
        ledger.add_trip_members(s("a1"), s("3"), Some(vec![s("a4")])),
        Err(LedgerError::TripNotFound)
    );
    assert_eq!(
        ledger.add_trip_members(s("zz"), s("1"), Some(vec![s("a4")])),
        Err(LedgerError::InNoTrips(Party::Caller))
    );
    assert_eq!(
        ledger.add_trip_members(s("b1"), s("1"), Some(vec![s("a4")])),
        Err(LedgerError::NotTripMember(Party::Caller))
    );
    assert_eq!(
        ledger.add_trip_members(s("a1"), s("1"), Some(vec![])),
        Err(LedgerError::NoMembersProvided)
    );
    assert_eq!(
        ledger.add_trip_members(s("a1"), s("1"), None),
        Err(LedgerError::NoMembersProvided)
    );
    assert_eq!(LedgerError::InNoTrips(Party::Caller).kind(), ErrorKind::Unauthorized);
    assert_eq!(LedgerError::NotTripMember(Party::Caller).kind(), ErrorKind::Unauthorized);
    assert_eq!(LedgerError::NoMembersProvided.kind(), ErrorKind::InvalidInput);
    assert_eq!(LedgerError::TripNotFound.kind(), ErrorKind::NotFound);
    let t = ledger.view_trip_metadata_by_trip_id(s("1")).unwrap();
    assert_eq!(t.trip_members, Some(vec![s("a2"), s("a3"), s("a1")]));
    assert_eq!(
        ledger.view_trip_id_by_account_id(s("a4")),
        Err(LedgerError::InNoTrips(Party::Account))
    );
}

#[test]
fn trips_of_an_account_come_in_joining_order() {
    let mut ledger = ExpenseTracker::new();
    ledger.add_trip(s("x"), trip("one", None)).unwrap();
    ledger.add_trip(s("y"), trip("two", None)).unwrap();
    ledger.add_trip(s("x"), trip("three", Some(vec!["y"]))).unwrap();
    ledger.add_trip_members(s("x"), s("1"), Some(vec![s("y")])).unwrap();
    assert_eq!(
        ledger.view_trip_id_by_account_id(s("y")),
        Ok(vec![s("2"), s("3"), s("1")])
    );
    assert_eq!(ledger.view_trip_id_by_account_id(s("x")), Ok(vec![s("1"), s("3")]));
}

#[test]
fn trip_ids_must_be_written_plainly() {
    let ledger = three_friends();
    for bad in ["", "0", "01", "+1", " 1", "1 ", "one", "2", "-1", "1.0", "١"] {
        assert_eq!(
            ledger.view_trip_metadata_by_trip_id(s(bad)),
            Err(LedgerError::TripNotFound),
            "{bad:?}"
        );
    }
    let t = ledger.view_trip_metadata_by_trip_id(s("1")).unwrap();
    assert_eq!(t.trip_id, Some(s("1")));
    assert_eq!(t.trip_name, Some(s("alps")));
    let huge = "9".repeat(60);
    assert_eq!(
        ledger.view_trip_metadata_by_trip_id(huge),
        Err(LedgerError::TripNotFound)
    );
}

#[test]
fn recording_an_expense_is_refused() {
    let mut ledger = three_friends();
    ledger.add_trip(s("b1"), trip("coast", None)).unwrap();
    let add = |ledger: &mut ExpenseTracker, caller: &str, trip_id: &str, name: Option<&str>, ower: &str, lender: &str| {
        ledger.add_trip_expense(s(caller), s(trip_id), name.map(s), s(ower), s(lender), 5)
    };
    assert_eq!(
        add(&mut ledger, "zz", "9", None, "a2", "a2"),
        Err(LedgerError::ExpenseTitleRequired)
    );
    assert_eq!(
        add(&mut ledger, "zz", "9", Some("e"), "a2", "a2"),
        Err(LedgerError::TripNotFound)
    );
    assert_eq!(
        add(&mut ledger, "zz", "1", Some("e"), "yy", "xx"),
        Err(LedgerError::InNoTrips(Party::Caller))
    );
    assert_eq!(
        add(&mut ledger, "b1", "1", Some("e"), "yy", "xx"),
        Err(LedgerError::NotTripMember(Party::Caller))
    );
    assert_eq!(
        add(&mut ledger, "a1", "1", Some("e"), "yy", "xx"),
        Err(LedgerError::InNoTrips(Party::Lender))
    );
    assert_eq!(
        add(&mut ledger, "a1", "1", Some("e"), "yy", "b1"),
        Err(LedgerError::NotTripMember(Party::Lender))
    );
    assert_eq!(
        add(&mut ledger, "a1", "1", Some("e"), "yy", "a2"),
        Err(LedgerError::InNoTrips(Party::Ower))
    );
    assert_eq!(
        add(&mut ledger, "a1", "1", Some("e"), "b1", "a2"),
        Err(LedgerError::NotTripMember(Party::Ower))
    );
    assert_eq!(
        add(&mut ledger, "a1", "1", Some("e"), "a2", "a2"),
        Err(LedgerError::SelfLoan)
    );
    assert_eq!(ledger.book_count(), 0);
    let e = add(&mut ledger, "a1", "1", Some(""), "a3", "a2").unwrap();
    assert_eq!(e.expense_name, Some(s("")));
    assert_eq!(ledger.book_count(), 1);
    for party in [Party::Caller, Party::Lender, Party::Ower] {
        assert_eq!(LedgerError::InNoTrips(party).kind(), ErrorKind::Unauthorized);
        assert_eq!(LedgerError::NotTripMember(party).kind(), ErrorKind::Unauthorized);
    }
    assert_eq!(LedgerError::SelfLoan.kind(), ErrorKind::InvalidInput);
    assert_eq!(LedgerError::ExpenseTitleRequired.kind(), ErrorKind::InvalidInput);
}

#[test]
fn only_the_current_lender_changes_an_expense() {
    let mut ledger = three_friends();
    lend(&mut ledger, "a2", "a3", 10).unwrap();
    let edit = |ledger: &mut ExpenseTracker, caller: &str, lender: &str| {
        ledger.update_trip_expense(s(caller), s("1"), s("1"), None, s("a2"), s(lender), 11)
    };
    assert_eq!(edit(&mut ledger, "a1", "a3"), Err(LedgerError::EditByNonLender));
    assert_eq!(edit(&mut ledger, "a2", "a3"), Err(LedgerError::EditByNonLender));
    assert_eq!(LedgerError::EditByNonLender.kind(), ErrorKind::Unauthorized);
    let e = edit(&mut ledger, "a3", "a1").unwrap();
    assert_eq!(e.lender_id, s("a1"));
    assert_eq!(e.loan_amount, 11);
    assert_eq!(edit(&mut ledger, "a3", "a3"), Err(LedgerError::EditByNonLender));
    assert_eq!(
        ledger.delete_trip_expense(s("a3"), s("1"), s("1")),
        Err(LedgerError::DeleteByNonLender)
    );
    assert_eq!(LedgerError::DeleteByNonLender.kind(), ErrorKind::Unauthorized);
    assert!(edit(&mut ledger, "a1", "a3").is_ok());
    assert_eq!(ledger.delete_trip_expense(s("a3"), s("1"), s("1")), Ok(true));
}

#[test]
fn change_replaces_all_but_a_missing_name() {
    let mut ledger = three_friends();
    ledger
        .add_trip_expense(s("a1"), s("1"), Some(s("lunch")), s("a2"), s("a3"), 10)
        .unwrap();
    let e = ledger
        .update_trip_expense(s("a3"), s("1"), s("1"), None, s("a1"), s("a3"), 0)
        .unwrap();
    assert_eq!(
        e,
        Expense {
            expense_id: Some(s("1")),
            expense_name: Some(s("lunch")),
            ower_id: s("a1"),
            lender_id: s("a3"),
            loan_amount: 0,
        }
    );
    assert_eq!(ledger.view_trip_expense_by_expense_id(s("1"), s("1")), Ok(e));
    let e = ledger
        .update_trip_expense(s("a3"), s("1"), s("1"), Some(s("")), s("a2"), s("a3"), 3)
        .unwrap();
    assert_eq!(e.expense_name, Some(s("")));
    assert_eq!(ledger.view_trip_expense_by_expense_id(s("1"), s("1")), Ok(e));
}

#[test]
fn changing_and_deleting_is_refused() {
    let mut ledger = three_friends();
    ledger.add_trip(s("b1"), trip("coast", None)).unwrap();
    let edit = |ledger: &mut ExpenseTracker, caller: &str, trip_id: &str, id: &str, ower: &str, lender: &str| {
        ledger.update_trip_expense(s(caller), s(trip_id), s(id), None, s(ower), s(lender), 1)
    };
    assert_eq!(edit(&mut ledger, "a3", "5", "1", "a2", "a3"), Err(LedgerError::TripNotFound));
    assert_eq!(
        edit(&mut ledger, "b1", "1", "1", "a2", "a3"),
        Err(LedgerError::NotTripMember(Party::Caller))
    );
    assert_eq!(
        edit(&mut ledger, "a3", "1", "1", "a2", "b1"),
        Err(LedgerError::NotTripMember(Party::Lender))
    );
    assert_eq!(
        edit(&mut ledger, "a3", "1", "1", "zz", "a3"),
        Err(LedgerError::InNoTrips(Party::Ower))
    );
    assert_eq!(edit(&mut ledger, "a3", "1", "1", "a3", "a3"), Err(LedgerError::SelfLoan));
    assert_eq!(edit(&mut ledger, "a3", "1", "1", "a2", "a3"), Err(LedgerError::NoExpenses));
    assert_eq!(
        ledger.delete_trip_expense(s("a3"), s("1"), s("1")),
        Err(LedgerError::NoExpenses)
    );
    assert_eq!(
        ledger.view_trip_expense_by_expense_id(s("1"), s("1")),
        Err(LedgerError::NoExpenses)
    );
    lend(&mut ledger, "a2", "a3", 10).unwrap();
    for id in ["2", "01", "", "x", "0"] {
        assert_eq!(
            edit(&mut ledger, "a3", "1", id, "a2", "a3"),
            Err(LedgerError::ExpenseNotFound)
        );
        assert_eq!(
            ledger.delete_trip_expense(s("a3"), s("1"), s(id)),
            Err(LedgerError::ExpenseNotFound)
        );
        assert_eq!(
            ledger.view_trip_expense_by_expense_id(s("1"), s(id)),
            Err(LedgerError::ExpenseNotFound)
        );
    }
    assert_eq!(
        ledger.delete_trip_expense(s("a3"), s("4"), s("1")),
        Err(LedgerError::TripNotFound)
    );
    assert_eq!(
        ledger.delete_trip_expense(s("zz"), s("1"), s("1")),
        Err(LedgerError::InNoTrips(Party::Caller))
    );
    assert_eq!(
        ledger.delete_trip_expense(s("b1"), s("1"), s("1")),
        Err(LedgerError::NotTripMember(Party::Caller))
    );
    assert_eq!(
        ledger.view_trip_expense_by_expense_id(s("3"), s("1")),
        Err(LedgerError::TripNotFound)
    );
    for e in [LedgerError::NoExpenses, LedgerError::ExpenseNotFound] {
        assert_eq!(e.kind(), ErrorKind::NotFound);
    }
    let held = ledger.view_trip_expense_by_expense_id(s("1"), s("1")).unwrap();
    assert_eq!(held.ower_id, s("a2"));
    assert_eq!(held.loan_amount, 10);
}

#[test]
fn summary_end_to_end() {
    let mut ledger = ExpenseTracker::new();
    let t = ledger
        .add_trip(s("A1"), trip("trip", Some(vec!["A2", "A3"])))
        .unwrap();
    assert_eq!(t.trip_members, Some(vec![s("A2"), s("A3"), s("A1")]));
    ledger
        .add_trip_expense(s("A1"), s("1"), Some(s("e1")), s("A2"), s("A3"), 10000000000000000000000)
        .unwrap();
    ledger
        .add_trip_expense(s("A1"), s("1"), Some(s("e2")), s("A1"), s("A3"), 90000000000000000000000)
        .unwrap();
    let stats = ledger
        .get_expense_summary_by_trip_id_account_id(s("1"), s("A3"))
        .unwrap();
    assert_eq!(stats.trip_id, Some(s("1")));
    assert_eq!(stats.trip_name, Some(s("trip")));
    assert_eq!(stats.expense_acc_key, vec![s("A2"), s("A1")]);
    assert_eq!(
        stats.expense_amt_value,
        vec![10000000000000000000000, 90000000000000000000000]
    );
    let stats = ledger
        .get_expense_summary_by_trip_id_account_id(s("1"), s("A1"))
        .unwrap();
    assert_eq!(stats.expense_acc_key, vec![s("A2"), s("A3")]);
    assert_eq!(stats.expense_amt_value, vec![0, -90000000000000000000000]);
}

#[test]
fn summary_is_refused() {
    let mut ledger = three_friends();
    ledger.add_trip(s("b1"), trip("alone", None)).unwrap();
    let sum = |ledger: &ExpenseTracker, trip_id: &str, account: &str| {
        ledger.get_expense_summary_by_trip_id_account_id(s(trip_id), s(account))
    };
    assert_eq!(sum(&ledger, "3", "a1").unwrap_err(), LedgerError::TripNotFound);
    assert_eq!(
        sum(&ledger, "1", "zz").unwrap_err(),
        LedgerError::InNoTrips(Party::Account)
    );
    assert_eq!(LedgerError::InNoTrips(Party::Account).kind(), ErrorKind::NotFound);
    assert_eq!(
        sum(&ledger, "1", "b1").unwrap_err(),
        LedgerError::NotTripMember(Party::Account)
    );
    assert_eq!(
        LedgerError::NotTripMember(Party::Account).kind(),
        ErrorKind::Unauthorized
    );
    assert_eq!(sum(&ledger, "1", "a1").unwrap_err(), LedgerError::NoExpenses);
    assert_eq!(sum(&ledger, "1", "a1").unwrap_err().kind(), ErrorKind::NotFound);
    assert_eq!(sum(&ledger, "2", "b1").unwrap_err(), LedgerError::NoExpenses);
    lend(&mut ledger, "a2", "a3", 1).unwrap();
    ledger.delete_trip_expense(s("a3"), s("1"), s("1")).unwrap();
    assert_eq!(sum(&ledger, "1", "a1").unwrap_err(), LedgerError::NoExpenses);
    assert_eq!(LedgerError::NoCounterpart.kind(), ErrorKind::InvalidState);
}

#[test]
fn balances_that_do_not_fit_are_refused() {
    let top: u128 = 1 << 127;
    let mut ledger = three_friends();
    lend(&mut ledger, "a2", "a3", top).unwrap();
    let sum = |ledger: &ExpenseTracker, account: &str| {
        ledger.get_expense_summary_by_trip_id_account_id(s("1"), s(account))
    };
    assert_eq!(sum(&ledger, "a3").unwrap_err(), LedgerError::BalanceOverflow);
    assert_eq!(LedgerError::BalanceOverflow.kind(), ErrorKind::InvalidState);
    let stats = sum(&ledger, "a2").unwrap();
    assert_eq!(stats.expense_acc_key, vec![s("a3"), s("a1")]);
    assert_eq!(stats.expense_amt_value, vec![i128::MIN, 0]);
    assert_eq!(sum(&ledger, "a1").unwrap().expense_amt_value, vec![0, 0]);
    lend(&mut ledger, "a3", "a2", 1).unwrap();
    assert_eq!(sum(&ledger, "a3").unwrap().expense_amt_value, vec![i128::MAX, 0]);
    assert_eq!(sum(&ledger, "a2").unwrap().expense_amt_value, vec![-i128::MAX, 0]);
}

#[test]
fn large_amounts_are_summed_without_loss() {
    let mut ledger = three_friends();
    for _ in 0..3 {
        lend(&mut ledger, "a2", "a3", u128::MAX).unwrap();
    }
    let sum = |ledger: &ExpenseTracker, account: &str| {
        ledger.get_expense_summary_by_trip_id_account_id(s("1"), s(account))
    };
    assert_eq!(sum(&ledger, "a3").unwrap_err(), LedgerError::BalanceOverflow);
    assert_eq!(sum(&ledger, "a2").unwrap_err(), LedgerError::BalanceOverflow);
    for _ in 0..2 {
        lend(&mut ledger, "a3", "a2", u128::MAX).unwrap();
    }
    lend(&mut ledger, "a3", "a2", u128::MAX - 5).unwrap();
    lend(&mut ledger, "a1", "a3", 7).unwrap();
    assert_eq!(sum(&ledger, "a3").unwrap().expense_amt_value, vec![5, 7]);
    assert_eq!(sum(&ledger, "a2").unwrap().expense_amt_value, vec![-5, 0]);
    lend(&mut ledger, "a3", "a2", u128::MAX).unwrap();
    assert_eq!(sum(&ledger, "a3").unwrap_err(), LedgerError::BalanceOverflow);
    lend(&mut ledger, "a2", "a3", (1 << 127) + 4).unwrap();
    assert_eq!(
        sum(&ledger, "a3").unwrap().expense_amt_value,
        vec![-i128::MAX - 1 + 10, 7]
    );
}

#[test]
fn every_refusal_has_its_sentence() {
    let all = [
        (LedgerError::TripTitleRequired, "trip title is required"),
        (LedgerError::ExpenseTitleRequired, "expense title is required"),
        (LedgerError::NoMembersProvided, "no member ids provided by caller"),
        (LedgerError::SelfLoan, "lender and ower cannot be same"),
        (LedgerError::TripNotFound, "trip_id doesn't exist"),
        (LedgerError::NoExpenses, "trip doesn't have any expenses"),
        (LedgerError::ExpenseNotFound, "expense_id doesn't exist in trip"),
        (LedgerError::InNoTrips(Party::Caller), "caller id is added in no trips"),
        (LedgerError::InNoTrips(Party::Lender), "lender id is added in no trips"),
        (LedgerError::InNoTrips(Party::Ower), "ower id is added in no trips"),
        (LedgerError::InNoTrips(Party::Account), "account id is added in no trips"),
        (LedgerError::NotTripMember(Party::Caller), "caller id not an existing trip member"),
        (LedgerError::NotTripMember(Party::Lender), "lender not an existing trip member"),
        (LedgerError::NotTripMember(Party::Ower), "ower not an existing trip member"),
        (LedgerError::NotTripMember(Party::Account), "account id not an existing trip member"),
        (LedgerError::EditByNonLender, "cannot edit expense since caller is not current lender"),
        (LedgerError::DeleteByNonLender, "cannot delete expense since caller is not lender"),
        (LedgerError::NoCounterpart, "no other account present in trip"),
        (LedgerError::ExpenseIdTaken, "expense_id already exists"),
        (LedgerError::BalanceOverflow, "net balance exceeds 128 bits"),
    ];
    for (e, sentence) in all {
        assert_eq!(e.message(), sentence);
    }
}
