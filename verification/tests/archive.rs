use expense_tracker::archive::LedgerData;
use expense_tracker::book::ExpenseRecord;
use expense_tracker::membership::IndexEntry;
use expense_tracker::records::{TripMetadata, TripRecord};
use expense_tracker::tracker::ExpenseTracker;

fn s(text: &str) -> String {
    text.to_string()
}

fn entry(account: &str, trips: Vec<u128>) -> IndexEntry {
    IndexEntry { account: s(account), trips }
}

fn record(number: u128, ower: &str, lender: &str) -> ExpenseRecord {
    ExpenseRecord { number, name: s("e"), ower: s(ower), lender: s(lender), amount: 5 }
}

/// Two trips: "1" of a and b with the expenses 1 and 3, "2" of b alone.
fn sample() -> LedgerData {
    LedgerData {
        trips: vec![
            TripRecord { name: s("one"), members: vec![s("a"), s("b")] },
            TripRecord { name: s("two"), members: vec![s("b")] },
        ],
        index: vec![entry("b", vec![2, 1]), entry("a", vec![1])],
        books: vec![Some(vec![record(1, "a", "b"), record(3, "b", "a")]), None],
    }
}

fn refused(change: impl FnOnce(&mut LedgerData)) -> bool {
    let mut data = sample();
    change(&mut data);
    let checked = data.check();
    let restored = ExpenseTracker::restore(data).is_some();
    assert_eq!(checked, restored);
    !restored
}

#[test]
fn valid_data_makes_a_ledger() {
    assert!(sample().check());
    let mut ledger = ExpenseTracker::restore(sample()).unwrap();
    assert_eq!(ledger.trip_count(), 2);
    assert_eq!(ledger.book_count(), 1);
    assert_eq!(ledger.view_trip_id_by_account_id(s("b")), Ok(vec![s("2"), s("1")]));
    assert_eq!(
        ledger.view_trip_expense_ids_by_trip_id(s("1")),
        Ok(vec![s("1"), s("3")])
    );
    let e = ledger
        .add_trip_expense(s("a"), s("1"), Some(s("e")), s("a"), s("b"), 1)
        .unwrap_err();
    assert_eq!(e.message(), "expense_id already exists");
    let stats = ledger
        .get_expense_summary_by_trip_id_account_id(s("1"), s("a"))
        .unwrap();
    assert_eq!(stats.expense_acc_key, vec![s("b")]);
    assert_eq!(stats.expense_amt_value, vec![0]);
    assert!(ExpenseTracker::restore(LedgerData { trips: vec![], index: vec![], books: vec![] }).is_some());
}

#[test]
fn ledger_comes_back_from_its_data() {
    let mut ledger = ExpenseTracker::new();
    let make = |name: &str, members: Option<Vec<String>>| TripMetadata {
        trip_id: None,
        trip_name: Some(s(name)),
        trip_members: members,
    };
    ledger.add_trip(s("a"), make("one", Some(vec![s("b"), s("c")]))).unwrap();
    ledger.add_trip(s("c"), make("two", None)).unwrap();
    ledger.add_trip_members(s("c"), s("2"), Some(vec![s("a")])).unwrap();
    for amount in [4u128, 5, 6] {
        ledger
            .add_trip_expense(s("a"), s("1"), Some(s("e")), s("b"), s("c"), amount)
            .unwrap();
    }
    ledger.delete_trip_expense(s("c"), s("1"), s("2")).unwrap();
    let data = ledger.into_data();
    assert!(data.check());
    assert_eq!(data.trips.len(), 2);
    assert_eq!(data.trips[0].members, vec![s("b"), s("c"), s("a")]);
    assert_eq!(data.trips[1].members, vec![s("c"), s("a")]);
    assert_eq!(data.index.len(), 3);
    assert_eq!(data.index[2].account, "a");
    assert_eq!(data.index[2].trips, vec![1, 2]);
    assert_eq!(data.books.len(), 2);
    assert!(data.books[1].is_none());
    let numbers: Vec<u128> = data.books[0].as_ref().unwrap().iter().map(|r| r.number).collect();
    assert_eq!(numbers, vec![1, 3]);
    let ledger = ExpenseTracker::restore(data).unwrap();
    assert_eq!(ledger.view_trip_id_by_account_id(s("a")), Ok(vec![s("1"), s("2")]));
    let stats = ledger
        .get_expense_summary_by_trip_id_account_id(s("1"), s("c"))
        .unwrap();
    assert_eq!(stats.expense_acc_key, vec![s("b"), s("a")]);
    assert_eq!(stats.expense_amt_value, vec![10, 0]);
}

#[test]
fn broken_data_makes_no_ledger() {
    assert!(!refused(|_| {}));
    assert!(refused(|d| d.books.push(None)));
    assert!(refused(|d| {
        d.books.pop();
    }));
    assert!(refused(|d| d.index.push(entry("a", vec![1]))));
    assert!(refused(|d| d.index.push(entry("c", vec![]))));
    assert!(refused(|d| d.index[0].trips.push(2)));
    assert!(refused(|d| d.index[1].trips.push(2)));
    assert!(refused(|d| d.index[1].trips.push(0)));
    assert!(refused(|d| d.index[1].trips.push(3)));
    assert!(refused(|d| d.index.push(entry("c", vec![1]))));
    assert!(refused(|d| d.trips[1].members.push(s("c"))));
    assert!(refused(|d| {
        d.index.pop();
    }));
    assert!(refused(|d| d.index[0].trips = vec![2]));
    assert!(refused(|d| d.books[0] = Some(vec![record(0, "a", "b")])));
    assert!(refused(|d| d.books[0] = Some(vec![record(2, "a", "b"), record(2, "b", "a")])));
    assert!(refused(|d| d.books[0] = Some(vec![record(3, "a", "b"), record(1, "b", "a")])));
    assert!(refused(|d| d.books[0] = Some(vec![record(1, "a", "a")])));
    assert!(refused(|d| d.books[0] = Some(vec![record(1, "a", "c")])));
    assert!(refused(|d| d.books[0] = Some(vec![record(1, "c", "a")])));
    assert!(refused(|d| d.books[1] = Some(vec![record(1, "a", "b")])));
    assert!(!refused(|d| d.books[1] = Some(vec![])));
    assert!(!refused(|d| d.books[0] = None));
    assert!(!refused(|d| d.trips[0].members.push(s("a"))));
    assert!(!refused(|d| d.books[0] = Some(vec![record(u128::MAX, "a", "b")])));
}
