//! The ledger as plain data, to store it and to load it again. Data that
//! comes from outside is examined before a ledger is made of it.

use vstd::prelude::*;
use crate::book::{records_view, ExpenseRecord};
use crate::membership::{
    contains_number, distinct_accounts, find_entry, has_entry, index_of, lemma_index_entry,
    numbers, IndexEntry,
};
use crate::model::{ascending, noted, tidy, ExpenseView, LedgerView};
use crate::records::TripRecord;
use crate::text::{contains_text, texts, Text};

verus! {

/// All that a ledger holds.
pub struct LedgerData {
    /// The trips, in the order of their ids.
    pub trips: Vec<TripRecord>,
    /// For each account the numbers of its trips.
    pub index: Vec<IndexEntry>,
    /// For each trip its expenses, where any were ever recorded.
    pub books: Vec<Option<Vec<ExpenseRecord>>>,
}

/// A book slot as the model sees it.
pub open spec fn slot_view(slot: Option<Vec<ExpenseRecord>>) -> Option<Seq<ExpenseView>> {
    match slot {
        Some(records) => Some(records_view(records@)),
        None => None,
    }
}

impl View for LedgerData {
    type V = LedgerView;

    open spec fn view(&self) -> LedgerView {
        LedgerView {
            trips: Seq::new(self.trips@.len(), |i: int| self.trips@[i]@),
            index: index_of(self.index@),
            books: Seq::new(self.books@.len(), |i: int| slot_view(self.books@[i])),
        }
    }
}

/// Whether trip number `j` of entry `i` exists and lists the account of
/// the entry.
pub open spec fn entry_listed(data: LedgerData, i: int, j: int) -> bool {
    let n = data.index@[i].trips@[j];
    1 <= n <= data.trips@.len() && texts(data.trips@[n - 1].members@).contains(
        data.index@[i].account@,
    )
}

/// Whether the index notes trip `k + 1` for its member `j`.
pub open spec fn member_noted(data: LedgerData, k: int, j: int) -> bool {
    noted(index_of(data.index@), data.trips@[k].members@[j]@, (k + 1) as nat)
}

/// Whether record `j` of the book of trip `k + 1` may stand there: its
/// number is positive and larger than the one before it, and lender and
/// ower are two members of the trip.
pub open spec fn record_fits(data: LedgerData, k: int, j: int) -> bool {
    let records = data.books@[k]->0@;
    let members = texts(data.trips@[k].members@);
    &&& records[j].number >= 1
    &&& j > 0 ==> records[j - 1].number < records[j].number
    &&& records[j].ower@ != records[j].lender@
    &&& members.contains(records[j].ower@)
    &&& members.contains(records[j].lender@)
}

/// Whether every entry of the index notes a trip, and none twice.
pub open spec fn entries_tidy(data: LedgerData) -> bool {
    forall|i: int|
        0 <= i < data.index@.len() ==> (#[trigger] data.index@[i]).trips@.len() > 0 && numbers(
            data.index@[i].trips@,
        ).no_duplicates()
}

/// Whether the index notes only trips that list the account.
pub open spec fn entries_listed(data: LedgerData) -> bool {
    forall|i: int, j: int|
        0 <= i < data.index@.len() && 0 <= j < data.index@[i].trips@.len() ==> #[trigger] entry_listed(
            data,
            i,
            j,
        )
}

/// Whether the index notes each trip for each of its members.
pub open spec fn members_noted(data: LedgerData) -> bool {
    forall|k: int, j: int|
        0 <= k < data.trips@.len() && 0 <= j < data.trips@[k].members@.len()
            ==> #[trigger] member_noted(data, k, j)
}

/// Whether every record of every book may stand where it does.
pub open spec fn records_fit(data: LedgerData) -> bool {
    forall|k: int, j: int|
        0 <= k < data.books@.len() && data.books@[k] is Some && 0 <= j < data.books@[k]->0@.len()
            ==> #[trigger] record_fits(data, k, j)
}

impl LedgerData {
    /// Whether a ledger can be made of the data: no account has two
    /// entries in the index, and the ledger that the data shows is well
    /// formed.
    pub open spec fn valid(&self) -> bool {
        distinct_accounts(self.index@) && self@.wf()
    }

    /// What `check` examines, one condition after the other.
    pub open spec fn examined(&self) -> bool {
        &&& self.books@.len() == self.trips@.len()
        &&& distinct_accounts(self.index@)
        &&& entries_tidy(*self)
        &&& entries_listed(*self)
        &&& members_noted(*self)
        &&& records_fit(*self)
    }

    /// The conditions that `check` examines are those of a valid ledger.
    pub proof fn lemma_examined_is_valid(&self)
        ensures
            self.examined() == self.valid(),
    {
        if self.examined() {
            self.lemma_examined_then_valid();
        }
        if self.valid() {
            self.lemma_valid_then_examined();
        }
    }

    proof fn lemma_examined_then_valid(&self)
        requires
            self.examined(),
        ensures
            self.valid(),
    {
        let v = self@;
        let entries = self.index@;
        assert forall|a: Text, k: nat|
            #![trigger v.enrolled(a, k)]
            #![trigger v.listed(a, k)]
            v.enrolled(a, k) == v.listed(a, k) by {
            if v.enrolled(a, k) {
                let i = crate::membership::entry_of(entries, a);
                let ns = numbers(entries[i].trips@);
                let j = choose|j: int| 0 <= j < ns.len() && ns[j] == k;
                assert(entry_listed(*self, i, j));
            }
            if v.listed(a, k) {
                let members = texts(self.trips@[k - 1].members@);
                assert(v.trips[k - 1].members == members);
                let j = choose|j: int| 0 <= j < members.len() && members[j] == a;
                assert(member_noted(*self, k - 1, j));
            }
        }
        assert forall|a: Text| #[trigger] v.index.dom().contains(a) implies v.index[a].len() > 0
            && v.index[a].no_duplicates() by {
            let i = crate::membership::entry_of(entries, a);
            assert(entries[i].trips@.len() > 0);
        }
        assert forall|k: nat| 1 <= k <= v.trips.len() implies ascending(
            #[trigger] v.entries(k),
        ) by {
            let book = v.entries(k);
            if self.books@[k - 1] is Some {
                let records = self.books@[k - 1]->0@;
                assert(book == records_view(records));
                assert forall|j: int| 0 < j < book.len() implies book[j - 1].number < (
                #[trigger] book[j]).number by {
                    assert(record_fits(*self, k - 1, j));
                }
                lemma_steps_ascend(book);
            }
        }
        assert forall|k: nat, j: int|
            1 <= k <= v.trips.len() && 0 <= j < v.entries(k).len() implies v.admits(
            k,
            #[trigger] v.entries(k)[j],
        ) by {
            assert(record_fits(*self, k - 1, j));
        }
    }

    proof fn lemma_valid_then_examined(&self)
        requires
            self.valid(),
        ensures
            self.examined(),
    {
        let v = self@;
        let entries = self.index@;
        assert forall|i: int| 0 <= i < entries.len() implies (#[trigger] entries[i]).trips@.len()
            > 0 && numbers(entries[i].trips@).no_duplicates() by {
            lemma_index_entry(entries, i);
            assert(v.index.dom().contains(entries[i].account@));
        }
        assert forall|i: int, j: int|
            0 <= i < entries.len() && 0 <= j < entries[i].trips@.len() implies #[trigger] entry_listed(
            *self,
            i,
            j,
        ) by {
            lemma_index_entry(entries, i);
            let a = entries[i].account@;
            let n = entries[i].trips@[j] as nat;
            assert(numbers(entries[i].trips@)[j] == n);
            assert(v.enrolled(a, n));
            assert(v.listed(a, n));
        }
        assert forall|k: int, j: int|
            0 <= k < self.trips@.len() && 0 <= j < self.trips@[k].members@.len()
                implies #[trigger] member_noted(*self, k, j) by {
            let a = self.trips@[k].members@[j]@;
            assert(texts(self.trips@[k].members@)[j] == a);
            assert(v.listed(a, (k + 1) as nat));
            assert(v.enrolled(a, (k + 1) as nat));
        }
        assert forall|k: int, j: int|
            0 <= k < self.books@.len() && self.books@[k] is Some && 0 <= j
                < self.books@[k]->0@.len() implies #[trigger] record_fits(*self, k, j) by {
            let t = (k + 1) as nat;
            let book = v.entries(t);
            assert(book == records_view(self.books@[k]->0@));
            assert(ascending(v.entries(t)));
            assert(v.admits(t, v.entries(t)[j]));
            if j > 0 {
                assert(book[j - 1].number < book[j].number);
            }
        }
    }

    /// Examines the data.
    pub fn check(&self) -> (ok: bool)
        ensures
            ok == self.valid(),
    {
        proof {
            self.lemma_examined_is_valid();
        }
        self.books.len() == self.trips.len() && accounts_differ(&self.index) && self.tidy_entries()
            && self.listed_entries() && self.noted_members() && self.fitting_records()
    }

    fn tidy_entries(&self) -> (ok: bool)
        ensures
            ok == entries_tidy(*self),
    {
        let mut i: usize = 0;
        while i < self.index.len()
            invariant
                0 <= i <= self.index@.len(),
                forall|m: int|
                    0 <= m < i ==> (#[trigger] self.index@[m]).trips@.len() > 0 && numbers(
                        self.index@[m].trips@,
                    ).no_duplicates(),
            decreases self.index@.len() - i,
        {
            if self.index[i].trips.len() == 0 || !no_repeats(&self.index[i].trips) {
                return false;
            }
            i = i + 1;
        }
        true
    }

    fn listed_entries(&self) -> (ok: bool)
        ensures
            ok == entries_listed(*self),
    {
        let mut i: usize = 0;
        while i < self.index.len()
            invariant
                0 <= i <= self.index@.len(),
                forall|m: int, j: int|
                    0 <= m < i && 0 <= j < self.index@[m].trips@.len() ==> #[trigger] entry_listed(
                        *self,
                        m,
                        j,
                    ),
            decreases self.index@.len() - i,
        {
            let entry = &self.index[i];
            let mut j: usize = 0;
            while j < entry.trips.len()
                invariant
                    0 <= i < self.index@.len(),
                    *entry == self.index@[i as int],
                    0 <= j <= entry.trips@.len(),
                    forall|m: int| 0 <= m < j ==> #[trigger] entry_listed(*self, i as int, m),
                decreases entry.trips@.len() - j,
            {
                let n: u128 = entry.trips[j];
                if n < 1 || n > self.trips.len() as u128 {
                    assert(!entry_listed(*self, i as int, j as int));
                    return false;
                }
                if !contains_text(&self.trips[(n - 1) as usize].members, &entry.account) {
                    assert(!entry_listed(*self, i as int, j as int));
                    return false;
                }
                j = j + 1;
            }
            i = i + 1;
        }
        true
    }

    fn noted_members(&self) -> (ok: bool)
        requires
            distinct_accounts(self.index@),
        ensures
            ok == members_noted(*self),
    {
        let mut k: usize = 0;
        while k < self.trips.len()
            invariant
                distinct_accounts(self.index@),
                0 <= k <= self.trips@.len(),
                forall|m: int, j: int|
                    0 <= m < k && 0 <= j < self.trips@[m].members@.len()
                        ==> #[trigger] member_noted(*self, m, j),
            decreases self.trips@.len() - k,
        {
            let members = &self.trips[k].members;
            let number: u128 = k as u128 + 1;
            let mut j: usize = 0;
            while j < members.len()
                invariant
                    distinct_accounts(self.index@),
                    0 <= k < self.trips@.len(),
                    number == k + 1,
                    *members == self.trips@[k as int].members,
                    0 <= j <= members@.len(),
                    forall|m: int| 0 <= m < j ==> #[trigger] member_noted(*self, k as int, m),
                decreases members@.len() - j,
            {
                let found = match find_entry(&self.index, &members[j]) {
                    Some(i) => {
                        proof {
                            lemma_index_entry(self.index@, i as int);
                        }
                        contains_number(&self.index[i].trips, number)
                    },
                    None => false,
                };
                if !found {
                    assert(!member_noted(*self, k as int, j as int));
                    return false;
                }
                j = j + 1;
            }
            k = k + 1;
        }
        true
    }

    fn fitting_records(&self) -> (ok: bool)
        requires
            self.books@.len() == self.trips@.len(),
        ensures
            ok == records_fit(*self),
    {
        let mut k: usize = 0;
        while k < self.books.len()
            invariant
                self.books@.len() == self.trips@.len(),
                0 <= k <= self.books@.len(),
                forall|m: int, j: int|
                    0 <= m < k && self.books@[m] is Some && 0 <= j < self.books@[m]->0@.len()
                        ==> #[trigger] record_fits(*self, m, j),
            decreases self.books@.len() - k,
        {
            if let Some(records) = &self.books[k] {
                let members = &self.trips[k].members;
                let mut j: usize = 0;
                while j < records.len()
                    invariant
                        0 <= k < self.books@.len(),
                        self.books@.len() == self.trips@.len(),
                        self.books@[k as int] == Some(*records),
                        *members == self.trips@[k as int].members,
                        0 <= j <= records@.len(),
                        forall|m: int| 0 <= m < j ==> #[trigger] record_fits(*self, k as int, m),
                    decreases records@.len() - j,
                {
                    let r = &records[j];
                    let fits = r.number >= 1 && (j == 0 || records[j - 1].number < r.number)
                        && r.ower != r.lender && contains_text(members, &r.ower) && contains_text(
                        members,
                        &r.lender,
                    );
                    if !fits {
                        assert(!record_fits(*self, k as int, j as int));
                        return false;
                    }
                    j = j + 1;
                }
            }
            k = k + 1;
        }
        true
    }
}

/// A book whose numbers rise from each record to the next is ascending.
proof fn lemma_steps_ascend(book: Seq<ExpenseView>)
    requires
        forall|m: int| 0 < m < book.len() ==> book[m - 1].number < (#[trigger] book[m]).number,
    ensures
        ascending(book),
{
    assert forall|a: int, b: int| 0 <= a < b < book.len() implies book[a].number
        < book[b].number by {
        lemma_rises_between(book, a, b);
    }
}

proof fn lemma_rises_between(book: Seq<ExpenseView>, a: int, b: int)
    requires
        forall|m: int| 0 < m < book.len() ==> book[m - 1].number < (#[trigger] book[m]).number,
        0 <= a < b < book.len(),
    ensures
        book[a].number < book[b].number,
    decreases b - a,
{
    if a + 1 < b {
        lemma_rises_between(book, a, b - 1);
    }
    assert(book[b - 1].number < book[b].number);
}

/// Whether no account has two of the entries.
fn accounts_differ(entries: &Vec<IndexEntry>) -> (ok: bool)
    ensures
        ok == distinct_accounts(entries@),
{
    let mut j: usize = 0;
    while j < entries.len()
        invariant
            0 <= j <= entries@.len(),
            forall|a: int, b: int| 0 <= a < b < j ==> entries@[a].account@ != entries@[b].account@,
        decreases entries@.len() - j,
    {
        let mut i: usize = 0;
        while i < j
            invariant
                0 <= i <= j < entries@.len(),
                forall|a: int| 0 <= a < i ==> entries@[a].account@ != entries@[j as int].account@,
            decreases j - i,
        {
            if entries[i].account == entries[j].account {
                return false;
            }
            i = i + 1;
        }
        j = j + 1;
    }
    true
}

/// Whether no number stands twice in `v`.
fn no_repeats(v: &Vec<u128>) -> (ok: bool)
    ensures
        ok == numbers(v@).no_duplicates(),
{
    let mut j: usize = 0;
    while j < v.len()
        invariant
            0 <= j <= v@.len(),
            forall|a: int, b: int| 0 <= a < b < j ==> v@[a] != v@[b],
        decreases v@.len() - j,
    {
        let mut i: usize = 0;
        while i < j
            invariant
                0 <= i <= j < v@.len(),
                forall|a: int| 0 <= a < i ==> v@[a] != v@[j as int],
            decreases j - i,
        {
            if v[i] == v[j] {
                assert(numbers(v@)[i as int] == numbers(v@)[j as int]);
                return false;
            }
            i = i + 1;
        }
        j = j + 1;
    }
    assert forall|a: int, b: int|
        0 <= a < numbers(v@).len() && 0 <= b < numbers(v@).len() && a != b implies numbers(v@)[a]
        != numbers(v@)[b] by {
        if a < b {
            assert(v@[a] != v@[b]);
        } else {
            assert(v@[b] != v@[a]);
        }
    }
    true
}

} // verus!
