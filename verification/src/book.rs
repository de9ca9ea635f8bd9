//! The expenses of one trip, kept in ascending order of their numbers.

use vstd::prelude::*;
use crate::decimal::parse_decimal;
use crate::model::{
    ascending, book_has, book_place, expense_place, rank, revised, ExpenseView,
};

verus! {

/// One expense as the ledger holds it.
pub struct ExpenseRecord {
    pub number: u128,
    pub name: String,
    pub ower: String,
    pub lender: String,
    pub amount: u128,
}

impl View for ExpenseRecord {
    type V = ExpenseView;

    open spec fn view(&self) -> ExpenseView {
        ExpenseView {
            number: self.number as nat,
            name: self.name@,
            ower: self.ower@,
            lender: self.lender@,
            amount: self.amount as nat,
        }
    }
}

/// The expenses of one trip.
pub struct ExpenseBook {
    entries: Vec<ExpenseRecord>,
}

/// The expenses of a list of records, in order.
pub open spec fn records_view(records: Seq<ExpenseRecord>) -> Seq<ExpenseView> {
    Seq::new(records.len(), |i: int| records[i]@)
}

impl View for ExpenseBook {
    type V = Seq<ExpenseView>;

    closed spec fn view(&self) -> Seq<ExpenseView> {
        records_view(self.entries@)
    }
}

/// In an ascending book an expense stands where `book_place` says.
pub proof fn lemma_place(book: Seq<ExpenseView>, i: int)
    requires
        ascending(book),
        0 <= i < book.len(),
    ensures
        book_has(book, book[i].number),
        book_place(book, book[i].number) == i,
{
    let n = book[i].number;
    assert(book_has(book, n));
    let j = book_place(book, n);
    assert(0 <= j < book.len() && book[j].number == n);
    if j < i {
        assert(book[j].number < book[i].number);
    }
    if i < j {
        assert(book[i].number < book[j].number);
    }
}

/// Where the numbers below `n` end, `rank` points.
pub proof fn lemma_rank(book: Seq<ExpenseView>, n: nat, p: int)
    requires
        0 <= p <= book.len(),
        forall|i: int| 0 <= i < p ==> book[i].number < n,
        p < book.len() ==> book[p].number >= n,
    ensures
        rank(book, n) == p,
    decreases p,
{
    if p > 0 {
        let rest = book.drop_first();
        assert forall|i: int| 0 <= i < p - 1 implies rest[i].number < n by {
            assert(rest[i] == book[i + 1]);
        }
        if p - 1 < rest.len() {
            assert(rest[p - 1] == book[p]);
        }
        lemma_rank(rest, n, p - 1);
        assert(book.first() == book[0]);
    } else if book.len() > 0 {
        assert(book.first() == book[0]);
    }
}

/// An ascending book stays ascending when a number that it lacks is put at
/// its rank.
pub proof fn lemma_insert_ascending(book: Seq<ExpenseView>, e: ExpenseView, p: int)
    requires
        ascending(book),
        !book_has(book, e.number),
        0 <= p <= book.len(),
        forall|i: int| 0 <= i < p ==> book[i].number < e.number,
        p < book.len() ==> book[p].number >= e.number,
    ensures
        ascending(book.insert(p, e)),
{
    let after = book.insert(p, e);
    assert forall|i: int, j: int| 0 <= i < j < after.len() implies after[i].number
        < after[j].number by {
        if p < book.len() {
            assert(book[p].number != e.number);
        }
        if i < p && j < p {
            assert(after[i] == book[i] && after[j] == book[j]);
        } else if i < p && j == p {
            assert(after[i] == book[i]);
        } else if i < p && j > p {
            assert(after[i] == book[i] && after[j] == book[j - 1]);
            if j - 1 > p {
                assert(book[p].number < book[j - 1].number);
            }
        } else if i == p {
            assert(after[j] == book[j - 1]);
            if j - 1 > p {
                assert(book[p].number < book[j - 1].number);
            }
        } else {
            assert(after[i] == book[i - 1] && after[j] == book[j - 1]);
        }
    }
}

impl ExpenseBook {
    /// A book without expenses.
    pub fn new() -> (book: ExpenseBook)
        ensures
            book@ == Seq::<ExpenseView>::empty(),
    {
        let book = ExpenseBook { entries: Vec::new() };
        assert(book@ =~= Seq::<ExpenseView>::empty());
        book
    }

    /// The book that holds `records`.
    pub fn from_records(records: Vec<ExpenseRecord>) -> (book: ExpenseBook)
        ensures
            book@ == records_view(records@),
    {
        ExpenseBook { entries: records }
    }

    /// The records of the book.
    pub fn into_records(self) -> (records: Vec<ExpenseRecord>)
        ensures
            records_view(records@) == self@,
    {
        self.entries
    }

    /// How many expenses the book holds.
    pub fn len(&self) -> (n: usize)
        ensures
            n == self@.len(),
    {
        self.entries.len()
    }

    /// The expense at place `i`.
    pub fn record(&self, i: usize) -> (r: &ExpenseRecord)
        requires
            i < self@.len(),
        ensures
            r@ == self@[i as int],
    {
        &self.entries[i]
    }

    /// Where the numbers below `number` end.
    fn first_not_below(&self, number: u128) -> (p: usize)
        ensures
            p <= self@.len(),
            forall|i: int| 0 <= i < p ==> self@[i].number < number,
            p < self@.len() ==> self@[p as int].number >= number,
    {
        let mut p: usize = 0;
        while p < self.entries.len() && self.entries[p].number < number
            invariant
                0 <= p <= self.entries@.len(),
                self@.len() == self.entries@.len(),
                forall|i: int| 0 <= i < p ==> self@[i].number < number,
            decreases self.entries@.len() - p,
        {
            p = p + 1;
        }
        p
    }

    /// Where the expense with the number `number` stands.
    pub fn place_of(&self, number: u128) -> (place: Option<usize>)
        requires
            ascending(self@),
        ensures
            match place {
                Some(i) => i < self@.len() && self@[i as int].number == number && book_has(
                    self@,
                    number as nat,
                ) && book_place(self@, number as nat) == i,
                None => !book_has(self@, number as nat),
            },
    {
        let p = self.first_not_below(number);
        if p < self.entries.len() && self.entries[p].number == number {
            proof {
                lemma_place(self@, p as int);
            }
            Some(p)
        } else {
            proof {
                if book_has(self@, number as nat) {
                    let j = book_place(self@, number as nat);
                    if j > p {
                        assert(self@[p as int].number < self@[j].number);
                    }
                }
            }
            None
        }
    }

    /// Where the expense with the id `expense_id` stands.
    pub fn find(&self, expense_id: &String) -> (place: Option<usize>)
        requires
            ascending(self@),
        ensures
            match place {
                Some(i) => i < self@.len() && expense_place(self@, expense_id@) == Some(i as int),
                None => expense_place(self@, expense_id@) is None,
            },
    {
        match parse_decimal(expense_id.as_str()) {
            Some(v) => self.place_of(v),
            None => {
                proof {
                    let n = crate::decimal::decimal_value(expense_id@);
                    if book_has(self@, n) {
                        let j = book_place(self@, n);
                        assert(self@[j].number == self.entries@[j].number as nat);
                    }
                }
                None
            },
        }
    }

    /// Puts `record` at its place in the ascending order.
    pub fn insert(&mut self, record: ExpenseRecord)
        requires
            ascending(old(self)@),
            !book_has(old(self)@, record.number as nat),
        ensures
            final(self)@ == old(self)@.insert(rank(old(self)@, record.number as nat), record@),
            ascending(final(self)@),
    {
        let ghost before = self@;
        let ghost e = record@;
        let p = self.first_not_below(record.number);
        proof {
            lemma_rank(before, e.number, p as int);
            lemma_insert_ascending(before, e, p as int);
        }
        self.entries.insert(p, record);
        assert(self@ =~= before.insert(p as int, e));
    }

    /// Makes the expense at place `i` a loan of `amount` from `lender` to
    /// `ower` under the name `name`. The expense keeps its number.
    pub fn replace(&mut self, i: usize, name: String, ower: String, lender: String, amount: u128)
        requires
            i < old(self)@.len(),
        ensures
            final(self)@ == old(self)@.update(
                i as int,
                revised(old(self)@[i as int], Some(name@), ower@, lender@, amount as nat),
            ),
    {
        let ghost before = self@;
        let number: u128 = self.entries[i].number;
        let record = ExpenseRecord { number, name, ower, lender, amount };
        let ghost e = record@;
        self.entries[i] = record;
        assert(self@ =~= before.update(i as int, e));
    }

    /// Takes the expense at place `i` out of the book.
    pub fn remove(&mut self, i: usize)
        requires
            i < old(self)@.len(),
        ensures
            final(self)@ == old(self)@.remove(i as int),
    {
        let ghost before = self@;
        let _ = self.entries.remove(i);
        assert(self@ =~= before.remove(i as int));
    }
}

} // verus!
