//! The membership index: for each account, the trips it is a member of.

use vstd::prelude::*;
use crate::model::{enroll_all, enroll_one};
use crate::text::{texts, Text};

verus! {

/// The numbers of a list, as contracts see them.
pub open spec fn numbers(v: Seq<u128>) -> Seq<nat> {
    Seq::new(v.len(), |i: int| v[i] as nat)
}

/// One account and the numbers of its trips, in the order in which it
/// joined them.
pub struct IndexEntry {
    pub account: String,
    pub trips: Vec<u128>,
}

/// The index. No account has two entries.
pub struct MembershipIndex {
    entries: Vec<IndexEntry>,
}

/// Whether one of the entries is that of `account`.
pub open spec fn has_entry(entries: Seq<IndexEntry>, account: Text) -> bool {
    exists|i: int| 0 <= i < entries.len() && entries[i].account@ == account
}

/// The place of the entry of `account`: of its first entry, should it
/// have several.
pub open spec fn entry_of(entries: Seq<IndexEntry>, account: Text) -> int {
    choose|i: int| 0 <= i < entries.len() && entries[i].account@ == account
}

/// Whether no account has two of the entries.
pub open spec fn distinct_accounts(entries: Seq<IndexEntry>) -> bool {
    forall|i: int, j: int|
        0 <= i < j < entries.len() ==> entries[i].account@ != entries[j].account@
}

/// The index that a list of entries stands for.
pub open spec fn index_of(entries: Seq<IndexEntry>) -> Map<Text, Seq<nat>> {
    Map::new(
        |a: Text| has_entry(entries, a),
        |a: Text| numbers(entries[entry_of(entries, a)].trips@),
    )
}

/// Where no account has two entries, each entry is the one that the index
/// shows for its account.
pub proof fn lemma_index_entry(entries: Seq<IndexEntry>, i: int)
    requires
        distinct_accounts(entries),
        0 <= i < entries.len(),
    ensures
        index_of(entries).dom().contains(entries[i].account@),
        index_of(entries)[entries[i].account@] == numbers(entries[i].trips@),
{
    let a = entries[i].account@;
    assert(has_entry(entries, a));
    let j = entry_of(entries, a);
    assert(0 <= j < entries.len() && entries[j].account@ == a);
    assert(i == j);
}

/// Whether `n` is among `v`.
pub fn contains_number(v: &Vec<u128>, n: u128) -> (found: bool)
    ensures
        found == numbers(v@).contains(n as nat),
{
    let mut i: usize = 0;
    while i < v.len()
        invariant
            0 <= i <= v.len(),
            forall|j: int| 0 <= j < i ==> numbers(v@)[j] != n as nat,
        decreases v.len() - i,
    {
        if v[i] == n {
            assert(numbers(v@)[i as int] == n as nat);
            return true;
        }
        i = i + 1;
    }
    false
}

/// The place of the first entry of `account`.
pub fn find_entry(entries: &Vec<IndexEntry>, account: &String) -> (place: Option<usize>)
    ensures
        match place {
            Some(i) => i < entries@.len() && entries@[i as int].account@ == account@,
            None => !has_entry(entries@, account@),
        },
{
    let mut i: usize = 0;
    while i < entries.len()
        invariant
            0 <= i <= entries@.len(),
            forall|j: int| 0 <= j < i ==> entries@[j].account@ != account@,
        decreases entries@.len() - i,
    {
        if entries[i].account == *account {
            return Some(i);
        }
        i = i + 1;
    }
    None
}

impl View for MembershipIndex {
    type V = Map<Text, Seq<nat>>;

    closed spec fn view(&self) -> Map<Text, Seq<nat>> {
        index_of(self.entries@)
    }
}

impl MembershipIndex {
    /// No account has two entries.
    pub closed spec fn wf(&self) -> bool {
        distinct_accounts(self.entries@)
    }

    /// The entry at place `i` is the one that the view shows for its
    /// account.
    proof fn lemma_entry(&self, i: int)
        requires
            self.wf(),
            0 <= i < self.entries@.len(),
        ensures
            self@.dom().contains(self.entries@[i].account@),
            self@[self.entries@[i].account@] == numbers(self.entries@[i].trips@),
    {
        lemma_index_entry(self.entries@, i);
    }

    /// The index that `entries` stands for.
    pub fn from_entries(entries: Vec<IndexEntry>) -> (index: MembershipIndex)
        requires
            distinct_accounts(entries@),
        ensures
            index.wf(),
            index@ == index_of(entries@),
    {
        MembershipIndex { entries }
    }

    /// The entries of the index.
    pub fn into_entries(self) -> (entries: Vec<IndexEntry>)
        requires
            self.wf(),
        ensures
            distinct_accounts(entries@),
            index_of(entries@) == self@,
    {
        self.entries
    }

    /// An index without entries.
    pub fn new() -> (index: MembershipIndex)
        ensures
            index.wf(),
            index@ == Map::<Text, Seq<nat>>::empty(),
    {
        let index = MembershipIndex { entries: Vec::new() };
        assert(index@ =~= Map::<Text, Seq<nat>>::empty());
        index
    }

    /// The place of the entry of `account`.
    fn find(&self, account: &String) -> (place: Option<usize>)
        requires
            self.wf(),
        ensures
            match place {
                Some(i) => i < self.entries@.len() && self.entries@[i as int].account@
                    == account@ && self@.dom().contains(account@) && self@[account@] == numbers(
                    self.entries@[i as int].trips@,
                ),
                None => !self@.dom().contains(account@),
            },
    {
        let place = find_entry(&self.entries, account);
        proof {
            if let Some(i) = place {
                self.lemma_entry(i as int);
            }
        }
        place
    }

    /// Whether the index notes trip `number` for `account`; `None` where
    /// the account has no entry.
    pub fn holds(&self, account: &String, number: u128) -> (r: Option<bool>)
        requires
            self.wf(),
        ensures
            match r {
                Some(b) => self@.dom().contains(account@) && b == self@[account@].contains(
                    number as nat,
                ),
                None => !self@.dom().contains(account@),
            },
    {
        match self.find(account) {
            Some(i) => Some(contains_number(&self.entries[i].trips, number)),
            None => None,
        }
    }

    /// The numbers of the trips of `account`, in the order in which it
    /// joined them; `None` where the account has no entry.
    pub fn trips_of(&self, account: &String) -> (r: Option<&Vec<u128>>)
        requires
            self.wf(),
        ensures
            match r {
                Some(v) => self@.dom().contains(account@) && numbers(v@) == self@[account@],
                None => !self@.dom().contains(account@),
            },
    {
        match self.find(account) {
            Some(i) => Some(&self.entries[i].trips),
            None => None,
        }
    }

    /// Notes trip `number` for `account`, unless it is noted already.
    pub fn enroll(&mut self, account: &String, number: u128)
        requires
            old(self).wf(),
        ensures
            final(self).wf(),
            final(self)@ == enroll_one(old(self)@, account@, number as nat),
    {
        let ghost before = *self;
        match self.find(account) {
            Some(i) => {
                if !contains_number(&self.entries[i].trips, number) {
                    self.entries[i].trips.push(number);
                    proof {
                        let after = *self;
                        assert(after.entries@.len() == before.entries@.len());
                        assert forall|j: int| 0 <= j < after.entries@.len() implies
                            after.entries@[j].account@ == before.entries@[j].account@ by {}
                        assert(after.wf());
                        assert(numbers(after.entries@[i as int].trips@) =~= numbers(
                            before.entries@[i as int].trips@,
                        ).push(number as nat));
                        assert forall|a: Text| #[trigger]
                            after@.dom().contains(a) == enroll_one(
                                before@,
                                account@,
                                number as nat,
                            ).dom().contains(a) by {
                            if has_entry(after.entries@, a) {
                                let j = entry_of(after.entries@, a);
                                assert(before.entries@[j].account@ == a);
                            }
                            if has_entry(before.entries@, a) {
                                let j = entry_of(before.entries@, a);
                                assert(after.entries@[j].account@ == a);
                            }
                        }
                        assert forall|a: Text| #[trigger]
                            after@.dom().contains(a) implies after@[a] == enroll_one(
                                before@,
                                account@,
                                number as nat,
                            )[a] by {
                            let j = entry_of(after.entries@, a);
                            after.lemma_entry(j);
                            before.lemma_entry(j);
                        }
                        assert(after@ =~= enroll_one(before@, account@, number as nat));
                    }
                }
            },
            None => {
                let mut trips: Vec<u128> = Vec::new();
                trips.push(number);
                self.entries.push(IndexEntry { account: account.clone(), trips });
                proof {
                    let after = *self;
                    let last = before.entries@.len() as int;
                    assert(after.entries@[last].account@ == account@);
                    assert forall|j: int| 0 <= j < last implies after.entries@[j]
                        == before.entries@[j] by {}
                    assert forall|j: int| 0 <= j < last implies before.entries@[j].account@
                        != account@ by {
                        if before.entries@[j].account@ == account@ {
                            assert(has_entry(before.entries@, account@));
                        }
                    }
                    assert(after.wf());
                    assert(numbers(after.entries@[last].trips@) =~= seq![number as nat]);
                    assert forall|a: Text| #[trigger]
                        after@.dom().contains(a) == enroll_one(
                            before@,
                            account@,
                            number as nat,
                        ).dom().contains(a) by {
                        if has_entry(after.entries@, a) {
                            let j = entry_of(after.entries@, a);
                            if j < last {
                                assert(before.entries@[j].account@ == a);
                            }
                        }
                        if has_entry(before.entries@, a) {
                            let j = entry_of(before.entries@, a);
                            assert(after.entries@[j].account@ == a);
                        }
                    }
                    assert forall|a: Text| #[trigger]
                        after@.dom().contains(a) implies after@[a] == enroll_one(
                            before@,
                            account@,
                            number as nat,
                        )[a] by {
                        let j = entry_of(after.entries@, a);
                        after.lemma_entry(j);
                        if j < last {
                            before.lemma_entry(j);
                        }
                    }
                    assert(after@ =~= enroll_one(before@, account@, number as nat));
                }
            },
        }
    }

    /// Notes trip `number` for each of `members` in turn.
    pub fn enroll_members(&mut self, members: &Vec<String>, number: u128)
        requires
            old(self).wf(),
        ensures
            final(self).wf(),
            final(self)@ == enroll_all(old(self)@, texts(members@), number as nat),
    {
        let ghost before = self@;
        let ghost all = texts(members@);
        let mut i: usize = 0;
        assert(all.take(0) =~= Seq::<Text>::empty());
        while i < members.len()
            invariant
                0 <= i <= members@.len(),
                all == texts(members@),
                self.wf(),
                self@ == enroll_all(before, all.take(i as int), number as nat),
            decreases members@.len() - i,
        {
            self.enroll(&members[i], number);
            proof {
                assert(all.take(i + 1).drop_last() =~= all.take(i as int));
                assert(all.take(i + 1).last() == members@[i as int]@);
            }
            i = i + 1;
        }
        assert(all.take(i as int) =~= all);
    }
}

} // verus!
