//! The ledger itself.

use vstd::prelude::*;
use crate::archive::LedgerData;
use crate::balance::net_of;
use crate::book::{ExpenseBook, ExpenseRecord};
use crate::decimal::{decimal, decimal_string, decimals, parse_decimal, rising};
use crate::error::{LedgerError, Party};
use crate::laws::{lemma_listing_rises, lemma_membership_is_listing};
use crate::membership::{numbers, MembershipIndex};
use crate::model::{
    ascending, book_numbers, counterparts, expense_place, fits_balance, founding_members, merge_members,
    net_balance, opened, revised, ExpenseView, LedgerView, TripView,
};
use crate::records::{
    balances, text_of, texts_of, Expense, ExpenseStats, TripMetadata, TripRecord,
};
use crate::text::{contains_text, copy_texts, texts, Text};
use crate::upkeep::{
    lemma_with_expense_replaced_wf, lemma_with_expense_wf, lemma_with_members_wf,
    lemma_with_trip_wf, lemma_without_expense_wf,
};

verus! {

/// The ledger: the trips, the membership index and the books of expenses.
pub struct ExpenseTracker {
    trips: Vec<TripRecord>,
    index: MembershipIndex,
    books: Vec<Option<ExpenseBook>>,
}

/// A book slot as the model sees it.
spec fn slot_view(slot: Option<ExpenseBook>) -> Option<Seq<ExpenseView>> {
    match slot {
        Some(b) => Some(b@),
        None => None,
    }
}

impl View for ExpenseTracker {
    type V = LedgerView;

    closed spec fn view(&self) -> LedgerView {
        LedgerView {
            trips: Seq::new(self.trips@.len(), |i: int| self.trips@[i]@),
            index: self.index@,
            books: Seq::new(self.books@.len(), |i: int| slot_view(self.books@[i])),
        }
    }
}

/// `members`, and after them the accounts of `added` that are not among
/// them yet.
fn merged_members(members: &Vec<String>, added: &Vec<String>) -> (merged: Vec<String>)
    ensures
        texts(merged@) == merge_members(texts(members@), texts(added@)),
{
    let ghost all = texts(added@);
    let mut merged = copy_texts(members);
    let mut j: usize = 0;
    assert(all.take(0) =~= Seq::<Text>::empty());
    while j < added.len()
        invariant
            0 <= j <= added@.len(),
            all == texts(added@),
            texts(merged@) == merge_members(texts(members@), all.take(j as int)),
        decreases added@.len() - j,
    {
        proof {
            assert(all.take(j + 1).drop_last() =~= all.take(j as int));
            assert(all.take(j + 1).last() == added@[j as int]@);
        }
        if !contains_text(&merged, &added[j]) {
            let ghost so_far = texts(merged@);
            merged.push(added[j].clone());
            assert(texts(merged@) =~= so_far.push(added@[j as int]@));
        }
        j = j + 1;
    }
    assert(all.take(j as int) =~= all);
    merged
}

/// The members other than `account`, each once.
fn others_of(members: &Vec<String>, account: &String) -> (others: Vec<String>)
    ensures
        texts(others@) == counterparts(texts(members@), account@),
{
    let ghost all = texts(members@);
    let mut others: Vec<String> = Vec::new();
    let mut j: usize = 0;
    assert(all.take(0) =~= Seq::<Text>::empty());
    assert(texts(others@) =~= Seq::<Text>::empty());
    while j < members.len()
        invariant
            0 <= j <= members@.len(),
            all == texts(members@),
            texts(others@) == counterparts(all.take(j as int), account@),
        decreases members@.len() - j,
    {
        proof {
            assert(all.take(j + 1).drop_last() =~= all.take(j as int));
            assert(all.take(j + 1).last() == members@[j as int]@);
        }
        if members[j] != *account && !contains_text(&others, &members[j]) {
            let ghost so_far = texts(others@);
            others.push(members[j].clone());
            assert(texts(others@) =~= so_far.push(members@[j as int]@));
        }
        j = j + 1;
    }
    assert(all.take(j as int) =~= all);
    others
}

/// The decimal writings of `v`.
fn decimal_strings(v: &Vec<u128>) -> (ids: Vec<String>)
    ensures
        texts(ids@) == decimals(numbers(v@)),
{
    let mut ids: Vec<String> = Vec::new();
    let mut i: usize = 0;
    while i < v.len()
        invariant
            0 <= i <= v@.len(),
            ids@.len() == i,
            forall|j: int| 0 <= j < i ==> ids@[j]@ == decimal(v@[j] as nat),
        decreases v@.len() - i,
    {
        ids.push(decimal_string(v[i]));
        i = i + 1;
    }
    assert(texts(ids@) =~= decimals(numbers(v@)));
    ids
}

impl ExpenseTracker {
    /// What holds of the stores beyond what the model shows.
    pub closed spec fn sound(&self) -> bool {
        self.index.wf()
    }

    /// When a ledger is well formed: its model is, and its stores are
    /// sound.
    pub open spec fn wf(&self) -> bool {
        self@.wf() && self.sound()
    }

    /// A ledger with nothing in it.
    pub fn new() -> (ledger: ExpenseTracker)
        ensures
            ledger.wf(),
            ledger@ == LedgerView::empty(),
    {
        let ledger = ExpenseTracker {
            trips: Vec::new(),
            index: MembershipIndex::new(),
            books: Vec::new(),
        };
        assert(ledger@ =~~= LedgerView::empty());
        ledger
    }

    /// The ledger that `data` shows, where `data` is valid.
    pub fn restore(data: LedgerData) -> (r: Option<ExpenseTracker>)
        ensures
            match r {
                Some(ledger) => data.valid() && ledger.wf() && ledger@ == data@,
                None => !data.valid(),
            },
    {
        if !data.check() {
            return None;
        }
        let ghost shown = data@;
        let LedgerData { trips, index, books } = data;
        let mut records = books;
        let ghost given = records@;
        let mut books: Vec<Option<ExpenseBook>> = Vec::new();
        let mut i: usize = 0;
        while i < records.len()
            invariant
                0 <= i <= records@.len(),
                records@.len() == given.len(),
                books@.len() == i,
                forall|m: int| i <= m < given.len() ==> records@[m] == given[m],
                forall|m: int|
                    0 <= m < i ==> slot_view(#[trigger] books@[m]) == crate::archive::slot_view(
                        given[m],
                    ),
            decreases records@.len() - i,
        {
            let slot = records[i].take();
            books.push(
                match slot {
                    Some(r) => Some(ExpenseBook::from_records(r)),
                    None => None,
                },
            );
            i = i + 1;
        }
        let ledger = ExpenseTracker { trips, index: MembershipIndex::from_entries(index), books };
        assert(ledger@ =~~= shown);
        Some(ledger)
    }

    /// All that the ledger holds, as plain data.
    pub fn into_data(self) -> (data: LedgerData)
        requires
            self.wf(),
        ensures
            data.valid(),
            data@ == self@,
    {
        let ghost shown = self@;
        let ExpenseTracker { trips, index, books } = self;
        let mut slots = books;
        let ghost given = slots@;
        let mut books: Vec<Option<Vec<ExpenseRecord>>> = Vec::new();
        let mut i: usize = 0;
        while i < slots.len()
            invariant
                0 <= i <= slots@.len(),
                slots@.len() == given.len(),
                books@.len() == i,
                forall|m: int| i <= m < given.len() ==> slots@[m] == given[m],
                forall|m: int|
                    0 <= m < i ==> crate::archive::slot_view(#[trigger] books@[m]) == slot_view(
                        given[m],
                    ),
            decreases slots@.len() - i,
        {
            let slot = slots[i].take();
            books.push(
                match slot {
                    Some(b) => Some(b.into_records()),
                    None => None,
                },
            );
            i = i + 1;
        }
        let data = LedgerData { trips, index: index.into_entries(), books };
        assert(data@ =~~= shown);
        data
    }

    /// How many trips there are.
    pub fn trip_count(&self) -> (n: usize)
        ensures
            n == self@.trips.len(),
    {
        self.trips.len()
    }

    /// How many trips have a book of expenses.
    pub fn book_count(&self) -> (n: usize)
        ensures
            n == opened(self@.books),
    {
        let ghost all = self@.books;
        let mut n: usize = 0;
        let mut i: usize = 0;
        assert(all.take(0) =~= Seq::<Option<Seq<ExpenseView>>>::empty());
        while i < self.books.len()
            invariant
                0 <= i <= self.books@.len(),
                all == self@.books,
                all.len() == self.books@.len(),
                n <= i,
                n == opened(all.take(i as int)),
            decreases self.books@.len() - i,
        {
            proof {
                assert(all.take(i + 1).drop_last() =~= all.take(i as int));
                assert(all.take(i + 1).last() == slot_view(self.books@[i as int]));
            }
            if self.books[i].is_some() {
                n = n + 1;
            }
            i = i + 1;
        }
        assert(all.take(i as int) =~= all);
        n
    }

    /// The place of the trip with the id `trip_id`.
    fn locate(&self, trip_id: &String) -> (place: Option<usize>)
        ensures
            match place {
                Some(i) => i < self.trips@.len() && self@.trip_number(trip_id@) == Some(
                    (i + 1) as nat,
                ),
                None => self@.trip_number(trip_id@) is None,
            },
    {
        let count: usize = self.trips.len();
        assert(self@.trips.len() == count);
        match parse_decimal(trip_id.as_str()) {
            Some(v) => {
                if 1 <= v && v <= count as u128 {
                    Some((v - 1) as usize)
                } else {
                    None
                }
            },
            None => None,
        }
    }

    /// Tests that `account` is a member of the trip with the number
    /// `number`.
    fn check_member(&self, account: &String, number: u128, party: Party) -> (r: Option<
        LedgerError,
    >)
        requires
            self.wf(),
        ensures
            r == self@.membership_rejection(account@, number as nat, party),
    {
        match self.index.holds(account, number) {
            None => Some(LedgerError::InNoTrips(party)),
            Some(false) => Some(LedgerError::NotTripMember(party)),
            Some(true) => None,
        }
    }

    /// Tests the parties of a loan in the trip with the number `number`.
    fn check_parties(&self, number: u128, caller: &String, ower: &String, lender: &String) -> (r:
        Option<LedgerError>)
        requires
            self.wf(),
        ensures
            r == self@.parties_rejection(number as nat, caller@, ower@, lender@),
    {
        if let Some(e) = self.check_member(caller, number, Party::Caller) {
            return Some(e);
        }
        if let Some(e) = self.check_member(lender, number, Party::Lender) {
            return Some(e);
        }
        if let Some(e) = self.check_member(ower, number, Party::Ower) {
            return Some(e);
        }
        if *lender == *ower {
            return Some(LedgerError::SelfLoan);
        }
        None
    }

    /// Creates a trip. Its name is the one in `trip_metadata`; its members
    /// are those in `trip_metadata`, and the caller; an id in
    /// `trip_metadata` is not looked at. The result shows the trip as it
    /// was stored.
    pub fn add_trip(&mut self, caller: String, trip_metadata: TripMetadata) -> (r: Result<
        TripMetadata,
        LedgerError,
    >)
        requires
            old(self).wf(),
        ensures
            final(self).wf(),
            match r {
                Ok(trip) => {
                    &&& LedgerView::add_trip_rejection(text_of(trip_metadata.trip_name)) is None
                    &&& final(self)@ == old(self)@.with_trip(
                        text_of(trip_metadata.trip_name)->0,
                        founding_members(caller@, texts_of(trip_metadata.trip_members)),
                    )
                    &&& trip.shows(
                        decimal(old(self)@.trips.len() + 1),
                        text_of(trip_metadata.trip_name)->0,
                        founding_members(caller@, texts_of(trip_metadata.trip_members)),
                    )
                },
                Err(e) => {
                    &&& LedgerView::add_trip_rejection(text_of(trip_metadata.trip_name)) == Some(e)
                    &&& final(self)@ == old(self)@
                },
            },
    {
        let ghost before = self@;
        let ghost given = texts_of(trip_metadata.trip_members);
        let name = match trip_metadata.trip_name {
            Some(n) => n,
            None => {
                return Err(LedgerError::TripTitleRequired);
            },
        };
        if name.as_str().is_empty() {
            return Err(LedgerError::TripTitleRequired);
        }
        let members = match trip_metadata.trip_members {
            Some(list) => {
                let mut list = list;
                if !contains_text(&list, &caller) {
                    let ghost old_list = texts(list@);
                    list.push(caller);
                    assert(texts(list@) =~= old_list.push(caller@));
                }
                list
            },
            None => {
                let mut list: Vec<String> = Vec::new();
                list.push(caller);
                assert(texts(list@) =~= seq![caller@]);
                list
            },
        };
        assert(texts(members@) == founding_members(caller@, given));
        self.trips.push(TripRecord { name: name.clone(), members: copy_texts(&members) });
        self.books.push(None);
        let number: u128 = self.trips.len() as u128;
        self.index.enroll_members(&members, number);
        proof {
            lemma_with_trip_wf(before, name@, texts(members@));
            assert(self@ =~~= before.with_trip(name@, texts(members@)));
        }
        Ok(
            TripMetadata {
                trip_id: Some(decimal_string(number)),
                trip_name: Some(name),
                trip_members: Some(members),
            },
        )
    }

    /// Adds `new_members` to a trip that the caller is a member of.
    /// Accounts that are members already are passed over. The result shows
    /// the trip with all its members.
    pub fn add_trip_members(
        &mut self,
        caller: String,
        trip_id: String,
        new_members: Option<Vec<String>>,
    ) -> (r: Result<TripMetadata, LedgerError>)
        requires
            old(self).wf(),
        ensures
            final(self).wf(),
            match r {
                Ok(trip) => {
                    &&& old(self)@.add_members_rejection(caller@, trip_id@, texts_of(new_members))
                        is None
                    &&& old(self)@.trip_number(trip_id@) matches Some(k)
                    &&& final(self)@ == old(self)@.with_members(k, texts_of(new_members)->0)
                    &&& trip.shows(
                        trip_id@,
                        old(self)@.trip(k).name,
                        merge_members(old(self)@.trip(k).members, texts_of(new_members)->0),
                    )
                },
                Err(e) => {
                    &&& old(self)@.add_members_rejection(caller@, trip_id@, texts_of(new_members))
                        == Some(e)
                    &&& final(self)@ == old(self)@
                },
            },
    {
        let ghost before = self@;
        let i = match self.locate(&trip_id) {
            Some(i) => i,
            None => {
                return Err(LedgerError::TripNotFound);
            },
        };
        let number: u128 = i as u128 + 1;
        match self.index.holds(&caller, number) {
            None => {
                return Err(LedgerError::InNoTrips(Party::Caller));
            },
            Some(false) => {
                return Err(LedgerError::NotTripMember(Party::Caller));
            },
            Some(true) => {},
        }
        let added = match new_members {
            Some(list) => list,
            None => {
                return Err(LedgerError::NoMembersProvided);
            },
        };
        if added.len() == 0 {
            return Err(LedgerError::NoMembersProvided);
        }
        let merged = merged_members(&self.trips[i].members, &added);
        let name = self.trips[i].name.clone();
        self.trips[i].members = copy_texts(&merged);
        self.index.enroll_members(&merged, number);
        proof {
            lemma_with_members_wf(before, number as nat, texts(added@));
            assert(self@ =~~= before.with_members(number as nat, texts(added@)));
        }
        Ok(TripMetadata { trip_id: Some(trip_id), trip_name: Some(name), trip_members: Some(merged) })
    }

    /// Records that `ower_id` owes `loan_amount` to `lender_id`. The
    /// caller, the ower and the lender are members of the trip. The
    /// expense gets the number that follows the count of the trip's
    /// expenses. The result shows the expense as it was stored.
    pub fn add_trip_expense(
        &mut self,
        caller: String,
        trip_id: String,
        expense_name: Option<String>,
        ower_id: String,
        lender_id: String,
        loan_amount: u128,
    ) -> (r: Result<Expense, LedgerError>)
        requires
            old(self).wf(),
        ensures
            final(self).wf(),
            match r {
                Ok(expense) => {
                    &&& old(self)@.add_expense_rejection(
                        caller@,
                        trip_id@,
                        text_of(expense_name),
                        ower_id@,
                        lender_id@,
                    ) is None
                    &&& old(self)@.trip_number(trip_id@) matches Some(k)
                    &&& final(self)@ == old(self)@.with_expense(
                        k,
                        ExpenseView {
                            number: old(self)@.next_number(k),
                            name: text_of(expense_name)->0,
                            ower: ower_id@,
                            lender: lender_id@,
                            amount: loan_amount as nat,
                        },
                    )
                    &&& expense.shows(
                        decimal(old(self)@.next_number(k)),
                        text_of(expense_name)->0,
                        ower_id@,
                        lender_id@,
                        loan_amount as nat,
                    )
                },
                Err(e) => {
                    &&& old(self)@.add_expense_rejection(
                        caller@,
                        trip_id@,
                        text_of(expense_name),
                        ower_id@,
                        lender_id@,
                    ) == Some(e)
                    &&& final(self)@ == old(self)@
                },
            },
    {
        let ghost before = self@;
        let name = match expense_name {
            Some(n) => n,
            None => {
                return Err(LedgerError::ExpenseTitleRequired);
            },
        };
        let i = match self.locate(&trip_id) {
            Some(i) => i,
            None => {
                return Err(LedgerError::TripNotFound);
            },
        };
        let trip: u128 = i as u128 + 1;
        if let Some(e) = self.check_parties(trip, &caller, &ower_id, &lender_id) {
            return Err(e);
        }
        let ghost k = trip as nat;
        assert(before.entries(k) == match self.books@[i as int] {
            Some(b) => b@,
            None => Seq::<ExpenseView>::empty(),
        });
        assert(ascending(before.entries(k)));
        let (number, taken): (u128, bool) = match &self.books[i] {
            Some(b) => {
                let n: u128 = b.len() as u128 + 1;
                (n, b.place_of(n).is_some())
            },
            None => (1, false),
        };
        if taken {
            return Err(LedgerError::ExpenseIdTaken);
        }
        let record = ExpenseRecord {
            number,
            name: name.clone(),
            ower: ower_id.clone(),
            lender: lender_id.clone(),
            amount: loan_amount,
        };
        let ghost e = record@;
        match &mut self.books[i] {
            Some(b) => {
                b.insert(record);
            },
            None => {
                let mut b = ExpenseBook::new();
                b.insert(record);
                self.books[i] = Some(b);
            },
        }
        proof {
            lemma_membership_is_listing(before, ower_id@, k, Party::Ower);
            lemma_membership_is_listing(before, lender_id@, k, Party::Lender);
            lemma_with_expense_wf(before, k, e);
            assert(self@ =~~= before.with_expense(k, e));
        }
        Ok(
            Expense {
                expense_id: Some(decimal_string(number)),
                expense_name: Some(name),
                ower_id,
                lender_id,
                loan_amount,
            },
        )
    }

    /// Makes an expense a loan of `loan_amount` from `lender_id` to
    /// `ower_id`. Only the account that the ledger holds as the lender of
    /// the expense may do so. The expense keeps its name where
    /// `expense_name` is `None`. The result shows the expense as it is
    /// stored now.
    pub fn update_trip_expense(
        &mut self,
        caller: String,
        trip_id: String,
        expense_id: String,
        expense_name: Option<String>,
        ower_id: String,
        lender_id: String,
        loan_amount: u128,
    ) -> (r: Result<Expense, LedgerError>)
        requires
            old(self).wf(),
        ensures
            final(self).wf(),
            match r {
                Ok(expense) => {
                    &&& old(self)@.update_expense_rejection(
                        caller@,
                        trip_id@,
                        expense_id@,
                        ower_id@,
                        lender_id@,
                    ) is None
                    &&& old(self)@.trip_number(trip_id@) matches Some(k)
                    &&& expense_place(old(self)@.entries(k), expense_id@) matches Some(p)
                    &&& final(self)@ == old(self)@.with_expense_replaced(
                        k,
                        p,
                        revised(
                            old(self)@.entries(k)[p],
                            text_of(expense_name),
                            ower_id@,
                            lender_id@,
                            loan_amount as nat,
                        ),
                    )
                    &&& expense.shows(
                        expense_id@,
                        final(self)@.entries(k)[p].name,
                        ower_id@,
                        lender_id@,
                        loan_amount as nat,
                    )
                },
                Err(e) => {
                    &&& old(self)@.update_expense_rejection(
                        caller@,
                        trip_id@,
                        expense_id@,
                        ower_id@,
                        lender_id@,
                    ) == Some(e)
                    &&& final(self)@ == old(self)@
                },
            },
    {
        let ghost before = self@;
        let i = match self.locate(&trip_id) {
            Some(i) => i,
            None => {
                return Err(LedgerError::TripNotFound);
            },
        };
        let trip: u128 = i as u128 + 1;
        if let Some(e) = self.check_parties(trip, &caller, &ower_id, &lender_id) {
            return Err(e);
        }
        let ghost k = trip as nat;
        assert(before.book(k) == slot_view(self.books@[i as int]));
        assert(ascending(before.entries(k)));
        let (p, name): (usize, String) = match &self.books[i] {
            None => {
                return Err(LedgerError::NoExpenses);
            },
            Some(b) => match b.find(&expense_id) {
                None => {
                    return Err(LedgerError::ExpenseNotFound);
                },
                Some(p) => {
                    let held = b.record(p);
                    if held.lender != caller {
                        return Err(LedgerError::EditByNonLender);
                    }
                    let name = match expense_name {
                        Some(n) => n,
                        None => held.name.clone(),
                    };
                    (p, name)
                },
            },
        };
        let ghost e = revised(
            before.entries(k)[p as int],
            text_of(expense_name),
            ower_id@,
            lender_id@,
            loan_amount as nat,
        );
        match &mut self.books[i] {
            Some(b) => {
                b.replace(p, name.clone(), ower_id.clone(), lender_id.clone(), loan_amount);
            },
            None => {},
        }
        proof {
            lemma_membership_is_listing(before, ower_id@, k, Party::Ower);
            lemma_membership_is_listing(before, lender_id@, k, Party::Lender);
            assert(before.admits(k, before.entries(k)[p as int]));
            lemma_with_expense_replaced_wf(before, k, p as int, e);
            assert(self@ =~~= before.with_expense_replaced(k, p as int, e));
        }
        Ok(
            Expense {
                expense_id: Some(expense_id),
                expense_name: Some(name),
                ower_id,
                lender_id,
                loan_amount,
            },
        )
    }

    /// Deletes an expense. Only the account that the ledger holds as its
    /// lender may do so.
    pub fn delete_trip_expense(&mut self, caller: String, trip_id: String, expense_id: String) -> (r:
        Result<bool, LedgerError>)
        requires
            old(self).wf(),
        ensures
            final(self).wf(),
            match r {
                Ok(done) => {
                    &&& done
                    &&& old(self)@.delete_expense_rejection(caller@, trip_id@, expense_id@) is None
                    &&& old(self)@.trip_number(trip_id@) matches Some(k)
                    &&& expense_place(old(self)@.entries(k), expense_id@) matches Some(p)
                    &&& final(self)@ == old(self)@.without_expense(k, p)
                },
                Err(e) => {
                    &&& old(self)@.delete_expense_rejection(caller@, trip_id@, expense_id@) == Some(
                        e,
                    )
                    &&& final(self)@ == old(self)@
                },
            },
    {
        let ghost before = self@;
        let i = match self.locate(&trip_id) {
            Some(i) => i,
            None => {
                return Err(LedgerError::TripNotFound);
            },
        };
        let trip: u128 = i as u128 + 1;
        if let Some(e) = self.check_member(&caller, trip, Party::Caller) {
            return Err(e);
        }
        let ghost k = trip as nat;
        assert(before.book(k) == slot_view(self.books@[i as int]));
        assert(ascending(before.entries(k)));
        let p = match &self.books[i] {
            None => {
                return Err(LedgerError::NoExpenses);
            },
            Some(b) => match b.find(&expense_id) {
                None => {
                    return Err(LedgerError::ExpenseNotFound);
                },
                Some(p) => {
                    if b.record(p).lender != caller {
                        return Err(LedgerError::DeleteByNonLender);
                    }
                    p
                },
            },
        };
        match &mut self.books[i] {
            Some(b) => {
                b.remove(p);
            },
            None => {},
        }
        proof {
            lemma_without_expense_wf(before, k, p as int);
            assert(self@ =~~= before.without_expense(k, p as int));
        }
        Ok(true)
    }

    /// Shows an expense.
    pub fn view_trip_expense_by_expense_id(&self, trip_id: String, expense_id: String) -> (r:
        Result<Expense, LedgerError>)
        requires
            self.wf(),
        ensures
            match r {
                Ok(expense) => {
                    &&& self@.get_expense_rejection(trip_id@, expense_id@) is None
                    &&& self@.trip_number(trip_id@) matches Some(k)
                    &&& expense_place(self@.entries(k), expense_id@) matches Some(p)
                    &&& expense.shows(
                        expense_id@,
                        self@.entries(k)[p].name,
                        self@.entries(k)[p].ower,
                        self@.entries(k)[p].lender,
                        self@.entries(k)[p].amount,
                    )
                },
                Err(e) => self@.get_expense_rejection(trip_id@, expense_id@) == Some(e),
            },
    {
        let i = match self.locate(&trip_id) {
            Some(i) => i,
            None => {
                return Err(LedgerError::TripNotFound);
            },
        };
        let ghost k = (i + 1) as nat;
        assert(self@.book(k) == slot_view(self.books@[i as int]));
        assert(ascending(self@.entries(k)));
        match &self.books[i] {
            None => Err(LedgerError::NoExpenses),
            Some(b) => match b.find(&expense_id) {
                None => Err(LedgerError::ExpenseNotFound),
                Some(p) => {
                    let record = b.record(p);
                    Ok(
                        Expense {
                            expense_id: Some(expense_id),
                            expense_name: Some(record.name.clone()),
                            ower_id: record.ower.clone(),
                            lender_id: record.lender.clone(),
                            loan_amount: record.amount,
                        },
                    )
                },
            },
        }
    }

    /// Lists the ids of the expenses of a trip, in ascending order of the
    /// numbers that they write.
    pub fn view_trip_expense_ids_by_trip_id(&self, trip_id: String) -> (r: Result<
        Vec<String>,
        LedgerError,
    >)
        requires
            self.wf(),
        ensures
            match r {
                Ok(ids) => {
                    &&& self@.list_rejection(trip_id@) is None
                    &&& self@.trip_number(trip_id@) matches Some(k)
                    &&& texts(ids@) == decimals(book_numbers(self@.entries(k)))
                    &&& rising(texts(ids@))
                },
                Err(e) => self@.list_rejection(trip_id@) == Some(e),
            },
    {
        let i = match self.locate(&trip_id) {
            Some(i) => i,
            None => {
                return Err(LedgerError::TripNotFound);
            },
        };
        let ghost k = (i + 1) as nat;
        assert(self@.book(k) == slot_view(self.books@[i as int]));
        assert(ascending(self@.entries(k)));
        match &self.books[i] {
            None => Err(LedgerError::NoExpenses),
            Some(b) => {
                let n: usize = b.len();
                if n == 0 {
                    return Err(LedgerError::NoExpenses);
                }
                let mut ids: Vec<String> = Vec::new();
                let mut j: usize = 0;
                while j < n
                    invariant
                        n == b@.len(),
                        0 <= j <= n,
                        ids@.len() == j,
                        forall|m: int| 0 <= m < j ==> ids@[m]@ == decimal(b@[m].number),
                    decreases n - j,
                {
                    ids.push(decimal_string(b.record(j).number));
                    j = j + 1;
                }
                assert(texts(ids@) =~= decimals(book_numbers(b@)));
                proof {
                    lemma_listing_rises(b@);
                }
                Ok(ids)
            },
        }
    }

    /// Sums up a trip for one of its members: for each other member, what
    /// that member owes to `account_id`, less what `account_id` owes to
    /// it. The other members stand in the order of the trip's member list.
    pub fn get_expense_summary_by_trip_id_account_id(
        &self,
        trip_id: String,
        account_id: String,
    ) -> (r: Result<ExpenseStats, LedgerError>)
        requires
            self.wf(),
        ensures
            match r {
                Ok(stats) => {
                    &&& self@.summary_rejection(trip_id@, account_id@) is None
                    &&& self@.trip_number(trip_id@) matches Some(k)
                    &&& stats.shows(self@.summary(k, trip_id@, account_id@))
                },
                Err(e) => self@.summary_rejection(trip_id@, account_id@) == Some(e),
            },
    {
        let i = match self.locate(&trip_id) {
            Some(i) => i,
            None => {
                return Err(LedgerError::TripNotFound);
            },
        };
        let trip: u128 = i as u128 + 1;
        if let Some(e) = self.check_member(&account_id, trip, Party::Account) {
            return Err(e);
        }
        let ghost k = trip as nat;
        assert(self@.book(k) == slot_view(self.books@[i as int]));
        let book = match &self.books[i] {
            None => {
                return Err(LedgerError::NoExpenses);
            },
            Some(b) => b,
        };
        if book.len() == 0 {
            return Err(LedgerError::NoExpenses);
        }
        let record = &self.trips[i];
        assert(self@.trip(k) == record@);
        if record.members.len() < 2 {
            return Err(LedgerError::NoCounterpart);
        }
        let others = others_of(&record.members, &account_id);
        let ghost names = texts(others@);
        let mut amounts: Vec<i128> = Vec::new();
        let mut j: usize = 0;
        while j < others.len()
            invariant
                0 <= j <= others@.len(),
                names == texts(others@),
                names == counterparts(self@.trip(k).members, account_id@),
                self@.trip_number(trip_id@) == Some(k),
                self@.membership_rejection(account_id@, k, Party::Account) is None,
                self@.entries(k) == book@,
                book@.len() > 0,
                self@.trip(k).members.len() >= 2,
                amounts@.len() == j,
                forall|m: int|
                    0 <= m < j ==> amounts@[m] as int == net_balance(
                        book@,
                        account_id@,
                        #[trigger] names[m],
                    ),
            decreases others@.len() - j,
        {
            match net_of(book, &account_id, &others[j]) {
                Some(b) => {
                    amounts.push(b);
                },
                None => {
                    assert(names.contains(names[j as int]));
                    return Err(LedgerError::BalanceOverflow);
                },
            }
            j = j + 1;
        }
        proof {
            assert forall|other: Text| #[trigger] names.contains(other) implies fits_balance(
                net_balance(book@, account_id@, other),
            ) by {
                let m = choose|m: int| 0 <= m < names.len() && names[m] == other;
                assert(amounts@[m] as int == net_balance(book@, account_id@, names[m]));
            }
            assert(balances(amounts@) =~= self@.summary(
                k,
                trip_id@,
                account_id@,
            ).balances);
        }
        Ok(
            ExpenseStats {
                trip_id: Some(trip_id),
                trip_name: Some(record.name.clone()),
                expense_acc_key: others,
                expense_amt_value: amounts,
            },
        )
    }

    /// Lists the ids of the trips that `account_id` is a member of, in the
    /// order in which it joined them.
    pub fn view_trip_id_by_account_id(&self, account_id: String) -> (r: Result<
        Vec<String>,
        LedgerError,
    >)
        requires
            self.wf(),
        ensures
            match r {
                Ok(ids) => {
                    &&& self@.index.dom().contains(account_id@)
                    &&& texts(ids@) == decimals(self@.index[account_id@])
                },
                Err(e) => {
                    &&& e == LedgerError::InNoTrips(Party::Account)
                    &&& !self@.index.dom().contains(account_id@)
                },
            },
    {
        match self.index.trips_of(&account_id) {
            Some(v) => Ok(decimal_strings(v)),
            None => Err(LedgerError::InNoTrips(Party::Account)),
        }
    }

    /// Shows the trip with the id `trip_id`.
    pub fn view_trip_metadata_by_trip_id(&self, trip_id: String) -> (r: Result<
        TripMetadata,
        LedgerError,
    >)
        requires
            self.wf(),
        ensures
            match r {
                Ok(trip) => {
                    &&& self@.trip_number(trip_id@) matches Some(k)
                    &&& trip.shows(trip_id@, self@.trip(k).name, self@.trip(k).members)
                },
                Err(e) => e == LedgerError::TripNotFound && self@.trip_number(trip_id@) is None,
            },
    {
        match self.locate(&trip_id) {
            Some(i) => {
                let record = &self.trips[i];
                Ok(
                    TripMetadata {
                        trip_id: Some(trip_id),
                        trip_name: Some(record.name.clone()),
                        trip_members: Some(copy_texts(&record.members)),
                    },
                )
            },
            None => Err(LedgerError::TripNotFound),
        }
    }
}

} // verus!
