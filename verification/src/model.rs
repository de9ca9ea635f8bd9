//! The ledger as mathematics: what it holds, when it is well formed, and
//! what each operation makes of it. The executable ledger is proved against
//! these definitions.

use vstd::prelude::*;
use crate::decimal::{decimal_value, is_decimal};
use crate::error::{LedgerError, Party};
use crate::text::Text;

verus! {

/// A trip: its name and, in the order in which they joined, its members.
/// The id of a trip is not stored: the `k`-th trip created has the id `k`.
#[verifier::ext_equal]
pub struct TripView {
    pub name: Text,
    pub members: Seq<Text>,
}

/// An expense: `ower` owes `amount` to `lender`. `number` is the number
/// that its id writes.
#[verifier::ext_equal]
pub struct ExpenseView {
    pub number: nat,
    pub name: Text,
    pub ower: Text,
    pub lender: Text,
    pub amount: nat,
}

/// The whole ledger.
///
/// - `trips[k - 1]` is the trip with the id `k`.
/// - `index[a]` lists the numbers of the trips that account `a` is a member
///   of, in the order in which it joined them.
/// - `books[k - 1]` holds the expenses of trip `k`, ascending by number;
///   it is `None` until the trip's first expense is recorded.
#[verifier::ext_equal]
pub struct LedgerView {
    pub trips: Seq<TripView>,
    pub index: Map<Text, Seq<nat>>,
    pub books: Seq<Option<Seq<ExpenseView>>>,
}

/// What a summary holds: the trip, and for each other member the net
/// balance of the account against it.
#[verifier::ext_equal]
pub struct SummaryView {
    pub trip_id: Text,
    pub trip_name: Text,
    pub accounts: Seq<Text>,
    pub balances: Seq<int>,
}

// ---------------------------------------------------------------------
// Member lists
// ---------------------------------------------------------------------

/// The members of a new trip: the list that was given, followed by the
/// caller unless the list names it already; the caller alone where no list
/// was given.
pub open spec fn founding_members(caller: Text, given: Option<Seq<Text>>) -> Seq<Text> {
    match given {
        Some(list) => if list.contains(caller) {
            list
        } else {
            list.push(caller)
        },
        None => seq![caller],
    }
}

/// `members` extended by the accounts of `added` that it lacks, each once,
/// in the order in which `added` first names them.
pub open spec fn merge_members(members: Seq<Text>, added: Seq<Text>) -> Seq<Text>
    decreases added.len(),
{
    if added.len() == 0 {
        members
    } else {
        let merged = merge_members(members, added.drop_last());
        if merged.contains(added.last()) {
            merged
        } else {
            merged.push(added.last())
        }
    }
}

/// The members of a trip other than `account`, each once, in the order in
/// which the member list first names them.
pub open spec fn counterparts(members: Seq<Text>, account: Text) -> Seq<Text>
    decreases members.len(),
{
    if members.len() == 0 {
        Seq::empty()
    } else {
        let others = counterparts(members.drop_last(), account);
        if members.last() == account || others.contains(members.last()) {
            others
        } else {
            others.push(members.last())
        }
    }
}

// ---------------------------------------------------------------------
// The membership index
// ---------------------------------------------------------------------

/// Whether the index notes trip `k` for `account`.
pub open spec fn noted(index: Map<Text, Seq<nat>>, account: Text, k: nat) -> bool {
    index.dom().contains(account) && index[account].contains(k)
}

/// Whether every entry of the index notes a trip, and none twice.
pub open spec fn tidy(index: Map<Text, Seq<nat>>) -> bool {
    forall|a: Text| #[trigger]
        index.dom().contains(a) ==> index[a].len() > 0 && index[a].no_duplicates()
}

/// The index after trip `k` was noted for `account`: appended to the
/// account's entry unless it is there, in a new entry where the account had
/// none.
pub open spec fn enroll_one(index: Map<Text, Seq<nat>>, account: Text, k: nat) -> Map<
    Text,
    Seq<nat>,
> {
    if !index.dom().contains(account) {
        index.insert(account, seq![k])
    } else if index[account].contains(k) {
        index
    } else {
        index.insert(account, index[account].push(k))
    }
}

/// The index after trip `k` was noted for each of `members` in turn.
pub open spec fn enroll_all(index: Map<Text, Seq<nat>>, members: Seq<Text>, k: nat) -> Map<
    Text,
    Seq<nat>,
>
    decreases members.len(),
{
    if members.len() == 0 {
        index
    } else {
        enroll_one(enroll_all(index, members.drop_last(), k), members.last(), k)
    }
}

// ---------------------------------------------------------------------
// Expense books
// ---------------------------------------------------------------------

/// Whether the expenses stand in ascending order of their numbers, none
/// twice.
pub open spec fn ascending(book: Seq<ExpenseView>) -> bool {
    forall|i: int, j: int| 0 <= i < j < book.len() ==> book[i].number < book[j].number
}

/// Whether the book holds an expense with the number `n`.
pub open spec fn book_has(book: Seq<ExpenseView>, n: nat) -> bool {
    exists|i: int| 0 <= i < book.len() && book[i].number == n
}

/// Where in the book the expense with the number `n` stands, if it is
/// there.
pub open spec fn book_place(book: Seq<ExpenseView>, n: nat) -> int {
    choose|i: int| 0 <= i < book.len() && book[i].number == n
}

/// How many expenses at the head of the book have a number below `n`: the
/// place at which an expense with the number `n` keeps an ascending book
/// ascending.
pub open spec fn rank(book: Seq<ExpenseView>, n: nat) -> int
    decreases book.len(),
{
    if book.len() == 0 || book.first().number >= n {
        0
    } else {
        1 + rank(book.drop_first(), n)
    }
}

/// Where the expense with the id `expense_id` stands in the book, if the
/// book holds one.
pub open spec fn expense_place(book: Seq<ExpenseView>, expense_id: Text) -> Option<int> {
    if is_decimal(expense_id) && book_has(book, decimal_value(expense_id)) {
        Some(book_place(book, decimal_value(expense_id)))
    } else {
        None
    }
}

/// The numbers of the expenses of a book, in order.
pub open spec fn book_numbers(book: Seq<ExpenseView>) -> Seq<nat> {
    Seq::new(book.len(), |i: int| book[i].number)
}

/// An expense after a change: it keeps its number; it keeps its name
/// where none is given; ower, lender and amount are the new ones.
pub open spec fn revised(
    e: ExpenseView,
    name: Option<Text>,
    ower: Text,
    lender: Text,
    amount: nat,
) -> ExpenseView {
    ExpenseView {
        number: e.number,
        name: match name {
            Some(n) => n,
            None => e.name,
        },
        ower,
        lender,
        amount,
    }
}

/// How many of the book slots hold a book.
pub open spec fn opened(books: Seq<Option<Seq<ExpenseView>>>) -> nat
    decreases books.len(),
{
    if books.len() == 0 {
        0
    } else if books.last() is Some {
        opened(books.drop_last()) + 1
    } else {
        opened(books.drop_last())
    }
}

/// What one expense adds to the balance of `account` against `other`: the
/// amount where `account` lent it to `other`, its negative where `account`
/// owes it to `other`, nothing otherwise.
pub open spec fn loan_delta(e: ExpenseView, account: Text, other: Text) -> int {
    if e.lender == account && e.ower == other {
        e.amount as int
    } else if e.ower == account && e.lender == other {
        -(e.amount as int)
    } else {
        0
    }
}

/// The net balance of `account` against `other` over a book: what `other`
/// owes to `account`, less what `account` owes to `other`.
pub open spec fn net_balance(book: Seq<ExpenseView>, account: Text, other: Text) -> int
    decreases book.len(),
{
    if book.len() == 0 {
        0
    } else {
        net_balance(book.drop_last(), account, other) + loan_delta(book.last(), account, other)
    }
}

/// Whether a balance fits the 128 bits in which a summary gives it.
pub open spec fn fits_balance(b: int) -> bool {
    i128::MIN <= b <= i128::MAX
}

// ---------------------------------------------------------------------
// The ledger
// ---------------------------------------------------------------------

impl LedgerView {
    /// The ledger with nothing in it.
    pub open spec fn empty() -> LedgerView {
        LedgerView { trips: Seq::empty(), index: Map::empty(), books: Seq::empty() }
    }

    /// The number of the trip with the id `trip_id`, if there is such a
    /// trip.
    pub open spec fn trip_number(self, trip_id: Text) -> Option<nat> {
        if is_decimal(trip_id) && 1 <= decimal_value(trip_id) <= self.trips.len() {
            Some(decimal_value(trip_id))
        } else {
            None
        }
    }

    /// The trip with the number `k`.
    pub open spec fn trip(self, k: nat) -> TripView {
        self.trips[k - 1]
    }

    /// The book of trip `k`, if an expense was ever recorded for it.
    pub open spec fn book(self, k: nat) -> Option<Seq<ExpenseView>> {
        self.books[k - 1]
    }

    /// The expenses of trip `k`.
    pub open spec fn entries(self, k: nat) -> Seq<ExpenseView> {
        match self.book(k) {
            Some(b) => b,
            None => Seq::empty(),
        }
    }

    /// Whether the index notes trip `k` for `account`.
    pub open spec fn enrolled(self, account: Text, k: nat) -> bool {
        noted(self.index, account, k)
    }

    /// Whether trip `k` exists and lists `account` as a member.
    pub open spec fn listed(self, account: Text, k: nat) -> bool {
        1 <= k <= self.trips.len() && self.trips[k - 1].members.contains(account)
    }

    /// Whether an expense may stand in the book of trip `k`: it has a
    /// positive number, and lender and ower are two members of the trip.
    pub open spec fn admits(self, k: nat, e: ExpenseView) -> bool {
        &&& e.number >= 1
        &&& e.ower != e.lender
        &&& self.trip(k).members.contains(e.ower)
        &&& self.trip(k).members.contains(e.lender)
    }

    /// When a ledger is well formed.
    ///
    /// - Every trip has a book slot.
    /// - The index notes a trip for an account exactly if the trip lists
    ///   the account as a member.
    /// - An entry of the index is not empty and notes no trip twice.
    /// - A book is ascending, and the trip admits each of its expenses.
    pub open spec fn wf(self) -> bool {
        &&& self.books.len() == self.trips.len()
        &&& forall|a: Text, k: nat|
            #![trigger self.enrolled(a, k)]
            #![trigger self.listed(a, k)]
            self.enrolled(a, k) == self.listed(a, k)
        &&& tidy(self.index)
        &&& forall|k: nat|
            1 <= k <= self.trips.len() ==> ascending(#[trigger] self.entries(k))
        &&& forall|k: nat, i: int|
            1 <= k <= self.trips.len() && 0 <= i < self.entries(k).len() ==> self.admits(
                k,
                #[trigger] self.entries(k)[i],
            )
    }

    /// What the membership test of `account` in trip `k` fails on, made on
    /// behalf of `party`.
    pub open spec fn membership_rejection(self, account: Text, k: nat, party: Party) -> Option<
        LedgerError,
    > {
        if !self.index.dom().contains(account) {
            Some(LedgerError::InNoTrips(party))
        } else if !self.index[account].contains(k) {
            Some(LedgerError::NotTripMember(party))
        } else {
            None
        }
    }

    /// What the tests on the parties of a loan in trip `k` fail on: caller,
    /// lender and ower are tested for membership in this order, then lender
    /// and ower must differ.
    pub open spec fn parties_rejection(
        self,
        k: nat,
        caller: Text,
        ower: Text,
        lender: Text,
    ) -> Option<LedgerError> {
        if self.membership_rejection(caller, k, Party::Caller) is Some {
            self.membership_rejection(caller, k, Party::Caller)
        } else if self.membership_rejection(lender, k, Party::Lender) is Some {
            self.membership_rejection(lender, k, Party::Lender)
        } else if self.membership_rejection(ower, k, Party::Ower) is Some {
            self.membership_rejection(ower, k, Party::Ower)
        } else if lender == ower {
            Some(LedgerError::SelfLoan)
        } else {
            None
        }
    }

    // -- creating a trip ------------------------------------------------

    /// Why a trip with this name is not created.
    pub open spec fn add_trip_rejection(name: Option<Text>) -> Option<LedgerError> {
        match name {
            Some(n) => if n.len() == 0 {
                Some(LedgerError::TripTitleRequired)
            } else {
                None
            },
            None => Some(LedgerError::TripTitleRequired),
        }
    }

    /// The ledger with one more trip.
    pub open spec fn with_trip(self, name: Text, members: Seq<Text>) -> LedgerView {
        LedgerView {
            trips: self.trips.push(TripView { name, members }),
            index: enroll_all(self.index, members, self.trips.len() + 1),
            books: self.books.push(None),
        }
    }

    // -- adding members -------------------------------------------------

    /// Why `caller` may not add `added` to the trip.
    pub open spec fn add_members_rejection(
        self,
        caller: Text,
        trip_id: Text,
        added: Option<Seq<Text>>,
    ) -> Option<LedgerError> {
        match self.trip_number(trip_id) {
            None => Some(LedgerError::TripNotFound),
            Some(k) => if self.membership_rejection(caller, k, Party::Caller) is Some {
                self.membership_rejection(caller, k, Party::Caller)
            } else {
                match added {
                    Some(list) => if list.len() == 0 {
                        Some(LedgerError::NoMembersProvided)
                    } else {
                        None
                    },
                    None => Some(LedgerError::NoMembersProvided),
                }
            },
        }
    }

    /// The ledger after `added` joined trip `k`.
    pub open spec fn with_members(self, k: nat, added: Seq<Text>) -> LedgerView {
        let merged = merge_members(self.trip(k).members, added);
        LedgerView {
            trips: self.trips.update(k - 1, TripView { name: self.trip(k).name, members: merged }),
            index: enroll_all(self.index, merged, k),
            books: self.books,
        }
    }

    // -- recording an expense ---------------------------------------------

    /// The number that the next expense of trip `k` gets: one more than the
    /// trip has expenses now.
    pub open spec fn next_number(self, k: nat) -> nat {
        self.entries(k).len() + 1
    }

    /// Why `caller` may not record this expense.
    pub open spec fn add_expense_rejection(
        self,
        caller: Text,
        trip_id: Text,
        name: Option<Text>,
        ower: Text,
        lender: Text,
    ) -> Option<LedgerError> {
        if name is None {
            Some(LedgerError::ExpenseTitleRequired)
        } else {
            match self.trip_number(trip_id) {
                None => Some(LedgerError::TripNotFound),
                Some(k) => if self.parties_rejection(k, caller, ower, lender) is Some {
                    self.parties_rejection(k, caller, ower, lender)
                } else if book_has(self.entries(k), self.next_number(k)) {
                    Some(LedgerError::ExpenseIdTaken)
                } else {
                    None
                },
            }
        }
    }

    /// The ledger with `e` in the book of trip `k`, at its place in the
    /// ascending order.
    pub open spec fn with_expense(self, k: nat, e: ExpenseView) -> LedgerView {
        LedgerView {
            trips: self.trips,
            index: self.index,
            books: self.books.update(
                k - 1,
                Some(self.entries(k).insert(rank(self.entries(k), e.number), e)),
            ),
        }
    }

    // -- changing and deleting an expense -----------------------------------

    /// Why `caller` may not change the expense to a loan from `lender` to
    /// `ower`. The lender that is compared with the caller is the one that
    /// the ledger holds before the change.
    pub open spec fn update_expense_rejection(
        self,
        caller: Text,
        trip_id: Text,
        expense_id: Text,
        ower: Text,
        lender: Text,
    ) -> Option<LedgerError> {
        match self.trip_number(trip_id) {
            None => Some(LedgerError::TripNotFound),
            Some(k) => if self.parties_rejection(k, caller, ower, lender) is Some {
                self.parties_rejection(k, caller, ower, lender)
            } else {
                match self.book(k) {
                    None => Some(LedgerError::NoExpenses),
                    Some(b) => match expense_place(b, expense_id) {
                        None => Some(LedgerError::ExpenseNotFound),
                        Some(i) => if b[i].lender != caller {
                            Some(LedgerError::EditByNonLender)
                        } else {
                            None
                        },
                    },
                }
            },
        }
    }

    /// The ledger with the expense at place `i` of trip `k` replaced by
    /// `e`.
    pub open spec fn with_expense_replaced(self, k: nat, i: int, e: ExpenseView) -> LedgerView {
        LedgerView {
            trips: self.trips,
            index: self.index,
            books: self.books.update(k - 1, Some(self.entries(k).update(i, e))),
        }
    }

    /// Why `caller` may not delete the expense.
    pub open spec fn delete_expense_rejection(
        self,
        caller: Text,
        trip_id: Text,
        expense_id: Text,
    ) -> Option<LedgerError> {
        match self.trip_number(trip_id) {
            None => Some(LedgerError::TripNotFound),
            Some(k) => if self.membership_rejection(caller, k, Party::Caller) is Some {
                self.membership_rejection(caller, k, Party::Caller)
            } else {
                match self.book(k) {
                    None => Some(LedgerError::NoExpenses),
                    Some(b) => match expense_place(b, expense_id) {
                        None => Some(LedgerError::ExpenseNotFound),
                        Some(i) => if b[i].lender != caller {
                            Some(LedgerError::DeleteByNonLender)
                        } else {
                            None
                        },
                    },
                }
            },
        }
    }

    /// The ledger without the expense at place `i` of trip `k`. The book
    /// stays, even when it is empty then.
    pub open spec fn without_expense(self, k: nat, i: int) -> LedgerView {
        LedgerView {
            trips: self.trips,
            index: self.index,
            books: self.books.update(k - 1, Some(self.entries(k).remove(i))),
        }
    }

    // -- reading ------------------------------------------------------------

    /// Why the expenses of the trip cannot be listed: there is no such
    /// trip, or it has no expense, be it that none was ever recorded or
    /// that all were deleted.
    pub open spec fn list_rejection(self, trip_id: Text) -> Option<LedgerError> {
        match self.trip_number(trip_id) {
            None => Some(LedgerError::TripNotFound),
            Some(k) => if self.entries(k).len() == 0 {
                Some(LedgerError::NoExpenses)
            } else {
                None
            },
        }
    }

    /// Why the expense cannot be shown.
    pub open spec fn get_expense_rejection(self, trip_id: Text, expense_id: Text) -> Option<
        LedgerError,
    > {
        match self.trip_number(trip_id) {
            None => Some(LedgerError::TripNotFound),
            Some(k) => match self.book(k) {
                None => Some(LedgerError::NoExpenses),
                Some(b) => if expense_place(b, expense_id) is None {
                    Some(LedgerError::ExpenseNotFound)
                } else {
                    None
                },
            },
        }
    }

    /// Why no summary of the trip is made for `account`. The tests come in
    /// this order: the trip exists; the account is a member of it; the trip
    /// has an expense; the trip has two members or more; every balance
    /// fits.
    pub open spec fn summary_rejection(self, trip_id: Text, account: Text) -> Option<LedgerError> {
        match self.trip_number(trip_id) {
            None => Some(LedgerError::TripNotFound),
            Some(k) => if self.membership_rejection(account, k, Party::Account) is Some {
                self.membership_rejection(account, k, Party::Account)
            } else if self.entries(k).len() == 0 {
                Some(LedgerError::NoExpenses)
            } else if self.trip(k).members.len() < 2 {
                Some(LedgerError::NoCounterpart)
            } else if exists|other: Text| #[trigger]
                counterparts(self.trip(k).members, account).contains(other) && !fits_balance(
                    net_balance(self.entries(k), account, other),
                ) {
                Some(LedgerError::BalanceOverflow)
            } else {
                None
            },
        }
    }

    /// The summary of trip `k` for `account`.
    pub open spec fn summary(self, k: nat, trip_id: Text, account: Text) -> SummaryView {
        let others = counterparts(self.trip(k).members, account);
        SummaryView {
            trip_id,
            trip_name: self.trip(k).name,
            accounts: others,
            balances: Seq::new(
                others.len(),
                |j: int| net_balance(self.entries(k), account, others[j]),
            ),
        }
    }
}

} // verus!
