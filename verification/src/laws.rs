//! What follows from the definitions of the operations, stated for every
//! ledger and proved.

use vstd::prelude::*;
use crate::decimal::{
    decimal, decimals, lemma_decimal_reads_back, lemma_decimal_writes_back, rising,
};
use crate::error::{ErrorKind, LedgerError, Party};
use crate::model::{
    ascending, book_has, book_numbers, book_place, enroll_all, enroll_one, expense_place,
    founding_members, merge_members, rank, revised, ExpenseView, LedgerView,
};
use crate::text::Text;
use crate::upkeep::{lemma_merge_contains, lemma_push_contains, lemma_rank_splits};

verus! {

// ---------------------------------------------------------------------
// Members
// ---------------------------------------------------------------------

/// A trip that is created without a list of members has the caller as its
/// only member.
pub proof fn lemma_founder_alone(caller: Text)
    ensures
        founding_members(caller, None) == seq![caller],
{
}

/// A trip that is created with one other account as its member has that
/// account and then the caller as its members.
pub proof fn lemma_founder_comes_last(caller: Text, other: Text)
    requires
        caller != other,
    ensures
        founding_members(caller, Some(seq![other])) == seq![other, caller],
{
    let list = seq![other];
    if list.contains(caller) {
        let i = choose|i: int| 0 <= i < list.len() && list[i] == caller;
        assert(list[i] == other);
    }
    assert(list.push(caller) =~= seq![other, caller]);
}

/// The caller is a member of the trip it creates, whatever list it gives,
/// and the list it gives stands first and unchanged.
pub proof fn lemma_founder_is_member(caller: Text, given: Option<Seq<Text>>)
    ensures
        founding_members(caller, given).contains(caller),
        given matches Some(list) ==> list.is_prefix_of(founding_members(caller, given)),
{
    match given {
        Some(list) => {
            lemma_push_contains(list, caller, caller);
        },
        None => {
            assert(seq![caller][0] == caller);
        },
    }
}

/// A trip whose creator gives a list without duplicates has a member list
/// without duplicates.
pub proof fn lemma_founders_are_distinct(caller: Text, given: Option<Seq<Text>>)
    requires
        given matches Some(list) ==> list.no_duplicates(),
    ensures
        founding_members(caller, given).no_duplicates(),
{
    if let Some(list) = given {
        if !list.contains(caller) {
            let all = list.push(caller);
            assert forall|i: int, j: int| 0 <= i < all.len() && 0 <= j < all.len() && i
                != j implies all[i] != all[j] by {
                if i < list.len() && j < list.len() {
                } else if i < list.len() {
                    assert(list[i] != caller);
                } else {
                    assert(list[j] != caller);
                }
            }
        }
    }
}

/// Members are only ever added: the member list of before stands first
/// and unchanged in the member list of after.
pub proof fn lemma_members_only_grow(members: Seq<Text>, added: Seq<Text>)
    ensures
        members.is_prefix_of(merge_members(members, added)),
    decreases added.len(),
{
    if added.len() > 0 {
        lemma_members_only_grow(members, added.drop_last());
    }
}

/// The index only grows: an account keeps the trips that are noted for
/// it, in their order, when a trip is noted for some accounts.
pub proof fn lemma_index_only_grows(index: Map<Text, Seq<nat>>, members: Seq<Text>, k: nat)
    ensures
        forall|a: Text| #[trigger]
            index.dom().contains(a) ==> enroll_all(index, members, k).dom().contains(a)
                && index[a].is_prefix_of(enroll_all(index, members, k)[a]),
    decreases members.len(),
{
    if members.len() > 0 {
        let mid = enroll_all(index, members.drop_last(), k);
        lemma_index_only_grows(index, members.drop_last(), k);
        let after = enroll_one(mid, members.last(), k);
        assert forall|a: Text| #[trigger] index.dom().contains(a) implies after.dom().contains(a)
            && index[a].is_prefix_of(after[a]) by {
            assert(mid.dom().contains(a) && index[a].is_prefix_of(mid[a]));
            assert(mid[a].is_prefix_of(after[a]));
        }
    }
}

/// In a well-formed ledger the membership test, which goes by the index,
/// passes exactly for the accounts that the trip lists as members.
pub proof fn lemma_membership_is_listing(v: LedgerView, account: Text, k: nat, party: Party)
    requires
        v.wf(),
        1 <= k <= v.trips.len(),
    ensures
        v.membership_rejection(account, k, party) is None <==> v.trip(k).members.contains(
            account,
        ),
{
    assert(v.enrolled(account, k) == v.listed(account, k));
}

/// Adding accounts to a list without duplicates leaves it without
/// duplicates, whichever accounts are added and however often.
pub proof fn lemma_merge_keeps_distinct(members: Seq<Text>, added: Seq<Text>)
    requires
        members.no_duplicates(),
    ensures
        merge_members(members, added).no_duplicates(),
    decreases added.len(),
{
    if added.len() > 0 {
        let head = merge_members(members, added.drop_last());
        lemma_merge_keeps_distinct(members, added.drop_last());
        if !head.contains(added.last()) {
            let all = head.push(added.last());
            assert forall|i: int, j: int| 0 <= i < all.len() && 0 <= j < all.len() && i
                != j implies all[i] != all[j] by {
                if i < head.len() && j < head.len() {
                } else if i < head.len() {
                    assert(head[i] != added.last());
                } else {
                    assert(head[j] != added.last());
                }
            }
        }
    }
}

/// Adding accounts that are all members already changes nothing.
pub proof fn lemma_merge_of_members(members: Seq<Text>, added: Seq<Text>)
    requires
        forall|i: int| 0 <= i < added.len() ==> members.contains(#[trigger] added[i]),
    ensures
        merge_members(members, added) == members,
    decreases added.len(),
{
    if added.len() > 0 {
        let head = added.drop_last();
        assert forall|i: int| 0 <= i < head.len() implies members.contains(
            #[trigger] head[i],
        ) by {
            assert(head[i] == added[i]);
        }
        lemma_merge_of_members(members, head);
        assert(members.contains(added[added.len() - 1]));
    }
}

/// Adding members to a trip twice, with lists that overlap or are the
/// same, gives a member list without duplicates where the trip had one
/// before; and adding the same list a second time changes no member list.
pub proof fn lemma_add_members_twice(v: LedgerView, k: nat, first: Seq<Text>, second: Seq<Text>)
    requires
        1 <= k <= v.trips.len(),
        v.trip(k).members.no_duplicates(),
    ensures
        v.with_members(k, first).trip(k).members.no_duplicates(),
        v.with_members(k, first).with_members(k, second).trip(k).members.no_duplicates(),
        v.with_members(k, first).with_members(k, first).trips == v.with_members(k, first).trips,
{
    let once = v.with_members(k, first);
    let merged = merge_members(v.trip(k).members, first);
    lemma_merge_keeps_distinct(v.trip(k).members, first);
    assert(once.trip(k).members == merged);
    lemma_merge_keeps_distinct(merged, second);
    assert forall|i: int| 0 <= i < first.len() implies merged.contains(#[trigger] first[i]) by {
        lemma_merge_contains(v.trip(k).members, first, first[i]);
        assert(first.contains(first[i]));
    }
    lemma_merge_of_members(merged, first);
    assert(once.with_members(k, first).trips =~= once.trips);
}

// ---------------------------------------------------------------------
// Ids
// ---------------------------------------------------------------------

/// The `k`-th trip is found under the decimal writing of `k`, and under
/// no other id.
pub proof fn lemma_trip_id(v: LedgerView, k: nat, trip_id: Text)
    requires
        1 <= k <= v.trips.len(),
    ensures
        v.trip_number(decimal(k)) == Some(k),
        v.trip_number(trip_id) == Some(k) ==> trip_id == decimal(k),
{
    lemma_decimal_reads_back(k);
    if v.trip_number(trip_id) == Some(k) {
        lemma_decimal_writes_back(trip_id);
    }
}

/// An expense of an ascending book is found under the decimal writing of
/// its number, and under no other id.
pub proof fn lemma_expense_id(book: Seq<ExpenseView>, i: int, expense_id: Text)
    requires
        ascending(book),
        0 <= i < book.len(),
    ensures
        expense_place(book, decimal(book[i].number)) == Some(i),
        expense_place(book, expense_id) == Some(i) ==> expense_id == decimal(book[i].number),
{
    lemma_decimal_reads_back(book[i].number);
    crate::book::lemma_place(book, i);
    if expense_place(book, expense_id) == Some(i) {
        lemma_decimal_writes_back(expense_id);
    }
}

/// Whether the expenses of a book carry the numbers 1, 2, 3 and so on
/// without a gap, as they do while no expense but the last was deleted.
pub open spec fn gapless(book: Seq<ExpenseView>) -> bool {
    forall|i: int| 0 <= i < book.len() ==> (#[trigger] book[i]).number == i + 1
}

/// While the book of a trip is gapless, the next expense gets the number
/// after the last, is never refused because that number is in use, goes
/// to the end of the book, and leaves the book gapless. So expenses that
/// are recorded one after the other get the ids 1, 2, 3 and so on.
pub proof fn lemma_ids_count_up(v: LedgerView, k: nat, e: ExpenseView)
    requires
        v.wf(),
        1 <= k <= v.trips.len(),
        gapless(v.entries(k)),
        e.number == v.next_number(k),
    ensures
        !book_has(v.entries(k), v.next_number(k)),
        v.with_expense(k, e).entries(k) == v.entries(k).push(e),
        gapless(v.with_expense(k, e).entries(k)),
        v.with_expense(k, e).next_number(k) == v.next_number(k) + 1,
{
    let book = v.entries(k);
    if book_has(book, e.number) {
        let i = book_place(book, e.number);
        assert(book[i].number == i + 1);
    }
    lemma_rank_splits(book, e.number);
    let p = rank(book, e.number);
    if p < book.len() {
        assert(book[p].number == p + 1);
    }
    assert(p == book.len());
    assert(book.insert(p, e) =~= book.push(e));
    assert(v.with_expense(k, e).entries(k) == book.push(e));
}

/// Where the last expense of a gapless book is deleted, the book stays
/// gapless, and the next expense gets the number of the deleted one: an
/// id can come again.
pub proof fn lemma_last_id_comes_again(v: LedgerView, k: nat)
    requires
        v.wf(),
        1 <= k <= v.trips.len(),
        gapless(v.entries(k)),
        v.entries(k).len() > 0,
    ensures
        gapless(v.without_expense(k, v.entries(k).len() - 1).entries(k)),
        v.without_expense(k, v.entries(k).len() - 1).next_number(k) == v.entries(k).last().number,
{
    let book = v.entries(k);
    let after = v.without_expense(k, book.len() - 1).entries(k);
    assert(after =~= book.drop_last());
    assert forall|i: int| 0 <= i < after.len() implies (#[trigger] after[i]).number == i + 1 by {
        assert(after[i] == book[i]);
    }
}

/// A trip for which no expense was recorded yet has a gapless book: its
/// first expense gets the id 1.
pub proof fn lemma_fresh_trip_is_gapless(v: LedgerView, k: nat)
    requires
        v.book(k) is None,
    ensures
        gapless(v.entries(k)),
        v.next_number(k) == 1,
{
}

/// The ids of the expenses of a trip are listed in rising order of the
/// numbers that they write, and none twice.
pub proof fn lemma_listing_rises(book: Seq<ExpenseView>)
    requires
        ascending(book),
    ensures
        rising(decimals(book_numbers(book))),
        decimals(book_numbers(book)).no_duplicates(),
{
    let ids = decimals(book_numbers(book));
    assert forall|i: int, j: int| 0 <= i < j < ids.len() implies crate::decimal::decimal_value(
        #[trigger] ids[i],
    ) < crate::decimal::decimal_value(#[trigger] ids[j]) by {
        lemma_decimal_reads_back(book[i].number);
        lemma_decimal_reads_back(book[j].number);
    }
    assert forall|i: int, j: int| 0 <= i < ids.len() && 0 <= j < ids.len() && i != j implies ids[i]
        != ids[j] by {
        lemma_decimal_reads_back(book[i].number);
        lemma_decimal_reads_back(book[j].number);
        if i < j {
            assert(book[i].number < book[j].number);
        } else {
            assert(book[j].number < book[i].number);
        }
    }
}

/// After an expense was deleted, the listing of the trip's expenses does
/// not hold its id, holds the other ids as before, and still rises.
pub proof fn lemma_deleted_id_is_gone(v: LedgerView, k: nat, p: int)
    requires
        v.wf(),
        1 <= k <= v.trips.len(),
        0 <= p < v.entries(k).len(),
    ensures
        !decimals(book_numbers(v.without_expense(k, p).entries(k))).contains(
            decimal(v.entries(k)[p].number),
        ),
        decimals(book_numbers(v.without_expense(k, p).entries(k))) == decimals(
            book_numbers(v.entries(k)),
        ).remove(p),
        rising(decimals(book_numbers(v.without_expense(k, p).entries(k)))),
{
    let before = v.entries(k);
    let after = v.without_expense(k, p).entries(k);
    assert(after == before.remove(p));
    assert(ascending(before));
    let ids = decimals(book_numbers(after));
    assert(ids =~= decimals(book_numbers(before)).remove(p));
    crate::upkeep::lemma_without_expense_wf(v, k, p);
    assert(ascending(v.without_expense(k, p).entries(k)));
    lemma_listing_rises(after);
    if ids.contains(decimal(before[p].number)) {
        let i = choose|i: int| 0 <= i < ids.len() && ids[i] == decimal(before[p].number);
        let i0 = if i < p {
            i
        } else {
            i + 1
        };
        assert(after[i] == before[i0]);
        crate::decimal::lemma_decimal_injective(before[i0].number, before[p].number);
        if i0 < p {
            assert(before[i0].number < before[p].number);
        } else {
            assert(before[p].number < before[i0].number);
        }
    }
}

// ---------------------------------------------------------------------
// Who may change an expense
// ---------------------------------------------------------------------

/// The tests on the parties of a loan refuse a request as unauthorized,
/// unless it is for a loan of an account to itself.
pub proof fn lemma_parties_refusal(
    v: LedgerView,
    k: nat,
    caller: Text,
    ower: Text,
    lender: Text,
)
    requires
        lender != ower,
    ensures
        v.parties_rejection(k, caller, ower, lender) matches Some(e) ==> e.kind_of()
            == ErrorKind::Unauthorized,
{
}

/// A change to an expense by an account that is not its lender is
/// refused, and as unauthorized unless the request is for a loan of an
/// account to itself; a change by its lender is not refused where the
/// request is in order otherwise.
pub proof fn lemma_only_lender_edits(
    v: LedgerView,
    caller: Text,
    trip_id: Text,
    expense_id: Text,
    ower: Text,
    lender: Text,
)
    requires
        v.trip_number(trip_id) matches Some(k) && v.book(k) is Some && expense_place(
            v.entries(k),
            expense_id,
        ) is Some,
    ensures
        ({
            let k = v.trip_number(trip_id)->0;
            let held = v.entries(k)[expense_place(v.entries(k), expense_id)->0];
            let refusal = v.update_expense_rejection(caller, trip_id, expense_id, ower, lender);
            &&& held.lender != caller ==> refusal is Some
            &&& held.lender != caller && lender != ower ==> refusal->0.kind_of()
                == ErrorKind::Unauthorized
            &&& held.lender != caller && v.parties_rejection(k, caller, ower, lender) is None
                ==> refusal == Some(LedgerError::EditByNonLender)
            &&& held.lender == caller && v.parties_rejection(k, caller, ower, lender) is None
                ==> refusal is None
        }),
{
    let k = v.trip_number(trip_id)->0;
    if lender != ower {
        lemma_parties_refusal(v, k, caller, ower, lender);
    }
}

/// Once the lender of an expense has made another account its lender, a
/// further change by the old lender is refused, and as unauthorized
/// unless the request is for a loan of an account to itself.
pub proof fn lemma_old_lender_is_locked_out(
    v: LedgerView,
    caller: Text,
    trip_id: Text,
    expense_id: Text,
    name: Option<Text>,
    ower: Text,
    lender: Text,
    amount: nat,
    next_ower: Text,
    next_lender: Text,
)
    requires
        v.wf(),
        v.update_expense_rejection(caller, trip_id, expense_id, ower, lender) is None,
        lender != caller,
    ensures
        ({
            let k = v.trip_number(trip_id)->0;
            let p = expense_place(v.entries(k), expense_id)->0;
            let after = v.with_expense_replaced(
                k,
                p,
                revised(v.entries(k)[p], name, ower, lender, amount),
            );
            let refusal = after.update_expense_rejection(
                caller,
                trip_id,
                expense_id,
                next_ower,
                next_lender,
            );
            &&& refusal is Some
            &&& next_lender != next_ower ==> refusal->0.kind_of() == ErrorKind::Unauthorized
            &&& after.parties_rejection(k, caller, next_ower, next_lender) is None ==> refusal
                == Some(LedgerError::EditByNonLender)
        }),
{
    let k = v.trip_number(trip_id)->0;
    let book = v.entries(k);
    let p = expense_place(book, expense_id)->0;
    let n = crate::decimal::decimal_value(expense_id);
    assert(0 <= p < book.len() && book[p].number == n);
    let e = revised(book[p], name, ower, lender, amount);
    let after = v.with_expense_replaced(k, p, e);
    let changed = after.entries(k);
    assert(changed == book.update(p, e));
    assert(changed[p].number == n);
    assert(book_has(changed, n));
    let q = book_place(changed, n);
    assert(ascending(book));
    if q != p {
        assert(changed[q] == book[q]);
        if q < p {
            assert(book[q].number < book[p].number);
        } else {
            assert(book[p].number < book[q].number);
        }
    }
    assert(expense_place(changed, expense_id) == Some(p));
    assert(changed[p].lender == lender);
    if next_lender != next_ower {
        lemma_parties_refusal(after, k, caller, next_ower, next_lender);
    }
}

// ---------------------------------------------------------------------
// Summaries
// ---------------------------------------------------------------------

/// A summary of a trip without expenses is refused as not found, for any
/// member of the trip.
pub proof fn lemma_summary_needs_expenses(v: LedgerView, trip_id: Text, account: Text)
    requires
        v.trip_number(trip_id) matches Some(k) && v.membership_rejection(
            account,
            k,
            Party::Account,
        ) is None && v.entries(k).len() == 0,
    ensures
        v.summary_rejection(trip_id, account) == Some(LedgerError::NoExpenses),
        LedgerError::NoExpenses.kind_of() == ErrorKind::NotFound,
{
}

/// In a well-formed ledger a trip with an expense has two members or
/// more: lender and ower are two of them. So a trip with one member has
/// no expenses, a summary of it is refused for that reason, and no summary
/// is ever refused for want of a counterpart.
pub proof fn lemma_lonely_trip_has_no_expenses(v: LedgerView, trip_id: Text, account: Text)
    requires
        v.wf(),
    ensures
        v.summary_rejection(trip_id, account) != Some(LedgerError::NoCounterpart),
        v.trip_number(trip_id) matches Some(k) ==> (v.trip(k).members.len() < 2 ==> v.entries(
            k,
        ).len() == 0),
        v.trip_number(trip_id) matches Some(k) ==> (v.trip(k).members.len() < 2
            && v.membership_rejection(account, k, Party::Account) is None ==> v.summary_rejection(
            trip_id,
            account,
        ) == Some(LedgerError::NoExpenses)),
{
    if v.trip_number(trip_id) is Some {
        let k = v.trip_number(trip_id)->0;
        if v.entries(k).len() > 0 {
            let e = v.entries(k)[0];
            assert(v.admits(k, e));
            let members = v.trip(k).members;
            let i = choose|i: int| 0 <= i < members.len() && members[i] == e.ower;
            let j = choose|j: int| 0 <= j < members.len() && members[j] == e.lender;
            assert(i != j);
        }
    }
}

} // verus!
