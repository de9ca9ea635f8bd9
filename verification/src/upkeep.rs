//! Every operation keeps a well-formed ledger well formed.

use vstd::prelude::*;
use crate::model::{
    ascending, book_has, enroll_all, enroll_one, merge_members, noted, rank, tidy, ExpenseView,
    LedgerView,
};
use crate::text::Text;

verus! {

/// A list with one more element holds what it held, and that element.
pub proof fn lemma_push_contains<A>(s: Seq<A>, x: A, y: A)
    ensures
        s.push(x).contains(y) == (s.contains(y) || y == x),
{
    if s.contains(y) {
        let i = choose|i: int| 0 <= i < s.len() && s[i] == y;
        assert(s.push(x)[i] == y);
    }
    if y == x {
        assert(s.push(x)[s.len() as int] == y);
    }
    if s.push(x).contains(y) {
        let i = choose|i: int| 0 <= i < s.push(x).len() && s.push(x)[i] == y;
        if i < s.len() {
            assert(s[i] == y);
        }
    }
}

/// What noting one trip for one account does to the index.
pub proof fn lemma_enroll_one(index: Map<Text, Seq<nat>>, account: Text, k: nat)
    ensures
        forall|b: Text, n: nat| #[trigger]
            noted(enroll_one(index, account, k), b, n) == (noted(index, b, n) || (b == account
                && n == k)),
        forall|b: Text| #[trigger]
            enroll_one(index, account, k).dom().contains(b) == (index.dom().contains(b) || b
                == account),
        tidy(index) ==> tidy(enroll_one(index, account, k)),
{
    let after = enroll_one(index, account, k);
    assert forall|b: Text, n: nat| #[trigger]
        noted(after, b, n) == (noted(index, b, n) || (b == account && n == k)) by {
        if !index.dom().contains(account) {
            lemma_push_contains(Seq::<nat>::empty(), k, n);
            assert(seq![k] =~= Seq::<nat>::empty().push(k));
        } else if !index[account].contains(k) {
            lemma_push_contains(index[account], k, n);
        }
    }
    if tidy(index) {
        assert forall|a: Text| #[trigger] after.dom().contains(a) implies after[a].len() > 0
            && after[a].no_duplicates() by {
            if a == account {
                if !index.dom().contains(account) {
                } else if !index[account].contains(k) {
                    let s = index[account];
                    assert forall|i: int, j: int|
                        0 <= i < s.push(k).len() && 0 <= j < s.push(k).len() && i != j implies s.push(
                        k,
                    )[i] != s.push(k)[j] by {
                        if i < s.len() && j < s.len() {
                        } else if i < s.len() {
                            assert(s[i] != k);
                        } else {
                            assert(s[j] != k);
                        }
                    }
                }
            } else {
                assert(index.dom().contains(a));
            }
        }
    }
}

/// What noting one trip for a list of accounts does to the index.
pub proof fn lemma_enroll_all(index: Map<Text, Seq<nat>>, members: Seq<Text>, k: nat)
    ensures
        forall|b: Text, n: nat| #[trigger]
            noted(enroll_all(index, members, k), b, n) == (noted(index, b, n) || (n == k
                && members.contains(b))),
        forall|b: Text| #[trigger]
            enroll_all(index, members, k).dom().contains(b) == (index.dom().contains(b)
                || members.contains(b)),
        tidy(index) ==> tidy(enroll_all(index, members, k)),
    decreases members.len(),
{
    if members.len() > 0 {
        let head = members.drop_last();
        let mid = enroll_all(index, head, k);
        lemma_enroll_all(index, head, k);
        lemma_enroll_one(mid, members.last(), k);
        assert(members =~= head.push(members.last()));
        assert forall|b: Text| members.contains(b) == (head.contains(b) || b
            == members.last()) by {
            lemma_push_contains(head, members.last(), b);
        }
        assert forall|b: Text, n: nat| #[trigger]
            noted(enroll_all(index, members, k), b, n) == (noted(index, b, n) || (n == k
                && members.contains(b))) by {
            assert(noted(enroll_one(mid, members.last(), k), b, n) == (noted(mid, b, n) || (b
                == members.last() && n == k)));
            assert(noted(mid, b, n) == (noted(index, b, n) || (n == k && head.contains(b))));
        }
        assert forall|b: Text| #[trigger]
            enroll_all(index, members, k).dom().contains(b) == (index.dom().contains(b)
                || members.contains(b)) by {
            assert(enroll_one(mid, members.last(), k).dom().contains(b) == (mid.dom().contains(b)
                || b == members.last()));
            assert(mid.dom().contains(b) == (index.dom().contains(b) || head.contains(b)));
        }
    } else {
        assert forall|b: Text| !members.contains(b) by {}
    }
}

/// Merging adds accounts and drops none.
pub proof fn lemma_merge_contains(members: Seq<Text>, added: Seq<Text>, x: Text)
    ensures
        merge_members(members, added).contains(x) == (members.contains(x) || added.contains(x)),
    decreases added.len(),
{
    if added.len() > 0 {
        let head = added.drop_last();
        lemma_merge_contains(members, head, x);
        lemma_push_contains(merge_members(members, head), added.last(), x);
        lemma_push_contains(head, added.last(), x);
        assert(added =~= head.push(added.last()));
    } else {
        assert(!added.contains(x));
    }
}

/// A new trip keeps the ledger well formed.
pub proof fn lemma_with_trip_wf(v: LedgerView, name: Text, members: Seq<Text>)
    requires
        v.wf(),
    ensures
        v.with_trip(name, members).wf(),
{
    let w = v.with_trip(name, members);
    let last = (v.trips.len() + 1) as nat;
    lemma_enroll_all(v.index, members, last);
    assert forall|a: Text, k: nat|
        #![trigger w.enrolled(a, k)]
        #![trigger w.listed(a, k)]
        w.enrolled(a, k) == w.listed(a, k) by {
        assert(noted(w.index, a, k) == (noted(v.index, a, k) || (k == last && members.contains(
            a,
        ))));
        assert(v.enrolled(a, k) == v.listed(a, k));
        if 1 <= k <= v.trips.len() {
            assert(w.trips[k - 1] == v.trips[k - 1]);
        }
    }
    assert forall|k: nat| 1 <= k <= w.trips.len() implies ascending(#[trigger] w.entries(k)) by {
        if k <= v.trips.len() {
            assert(w.entries(k) == v.entries(k));
        }
    }
    assert forall|k: nat, i: int|
        1 <= k <= w.trips.len() && 0 <= i < w.entries(k).len() implies w.admits(
        k,
        #[trigger] w.entries(k)[i],
    ) by {
        assert(k <= v.trips.len());
        assert(w.entries(k) == v.entries(k));
        assert(w.trip(k) == v.trip(k));
        assert(v.admits(k, v.entries(k)[i]));
    }
}

/// New members keep the ledger well formed.
pub proof fn lemma_with_members_wf(v: LedgerView, t: nat, added: Seq<Text>)
    requires
        v.wf(),
        1 <= t <= v.trips.len(),
    ensures
        v.with_members(t, added).wf(),
{
    let w = v.with_members(t, added);
    let merged = merge_members(v.trip(t).members, added);
    lemma_enroll_all(v.index, merged, t);
    assert forall|a: Text, k: nat|
        #![trigger w.enrolled(a, k)]
        #![trigger w.listed(a, k)]
        w.enrolled(a, k) == w.listed(a, k) by {
        assert(noted(w.index, a, k) == (noted(v.index, a, k) || (k == t && merged.contains(a))));
        assert(v.enrolled(a, k) == v.listed(a, k));
        lemma_merge_contains(v.trip(t).members, added, a);
        if 1 <= k <= v.trips.len() && k != t {
            assert(w.trips[k - 1] == v.trips[k - 1]);
        }
    }
    assert forall|k: nat| 1 <= k <= w.trips.len() implies ascending(#[trigger] w.entries(k)) by {
        assert(w.entries(k) == v.entries(k));
    }
    assert forall|k: nat, i: int|
        1 <= k <= w.trips.len() && 0 <= i < w.entries(k).len() implies w.admits(
        k,
        #[trigger] w.entries(k)[i],
    ) by {
        assert(w.entries(k) == v.entries(k));
        let e = v.entries(k)[i];
        assert(v.admits(k, e));
        if k == t {
            lemma_merge_contains(v.trip(t).members, added, e.ower);
            lemma_merge_contains(v.trip(t).members, added, e.lender);
        } else {
            assert(w.trip(k) == v.trip(k));
        }
    }
}

/// A change to the book of one trip keeps the ledger well formed, where
/// the new book is ascending and the trip admits its expenses.
pub proof fn lemma_with_book_wf(v: LedgerView, t: nat, book: Seq<ExpenseView>)
    requires
        v.wf(),
        1 <= t <= v.trips.len(),
        ascending(book),
        forall|i: int| 0 <= i < book.len() ==> v.admits(t, #[trigger] book[i]),
    ensures
        (LedgerView { trips: v.trips, index: v.index, books: v.books.update(t - 1, Some(book)) }).wf(),
{
    let w = LedgerView { trips: v.trips, index: v.index, books: v.books.update(t - 1, Some(book)) };
    assert forall|a: Text, k: nat|
        #![trigger w.enrolled(a, k)]
        #![trigger w.listed(a, k)]
        w.enrolled(a, k) == w.listed(a, k) by {
        assert(v.enrolled(a, k) == v.listed(a, k));
    }
    assert forall|k: nat| 1 <= k <= w.trips.len() implies ascending(#[trigger] w.entries(k)) by {
        if k != t {
            assert(w.entries(k) == v.entries(k));
        }
    }
    assert forall|k: nat, i: int|
        1 <= k <= w.trips.len() && 0 <= i < w.entries(k).len() implies w.admits(
        k,
        #[trigger] w.entries(k)[i],
    ) by {
        if k != t {
            assert(w.entries(k) == v.entries(k));
            assert(v.admits(k, v.entries(k)[i]));
        } else {
            assert(w.entries(k) == book);
            assert(v.admits(t, book[i]));
        }
    }
}

/// A new expense keeps the ledger well formed.
pub proof fn lemma_with_expense_wf(v: LedgerView, t: nat, e: ExpenseView)
    requires
        v.wf(),
        1 <= t <= v.trips.len(),
        v.admits(t, e),
        !book_has(v.entries(t), e.number),
    ensures
        v.with_expense(t, e).wf(),
{
    let old_book = v.entries(t);
    let p = rank(old_book, e.number);
    lemma_rank_splits(old_book, e.number);
    crate::book::lemma_insert_ascending(old_book, e, p);
    let book = old_book.insert(p, e);
    assert forall|i: int| 0 <= i < book.len() implies v.admits(t, #[trigger] book[i]) by {
        if i < p {
            assert(book[i] == old_book[i]);
            assert(v.admits(t, v.entries(t)[i]));
        } else if i > p {
            assert(book[i] == old_book[i - 1]);
            assert(v.admits(t, v.entries(t)[i - 1]));
        }
    }
    lemma_with_book_wf(v, t, book);
}

/// The rank lies within the book, with the smaller numbers before it and
/// no smaller number at it.
pub proof fn lemma_rank_splits(book: Seq<ExpenseView>, n: nat)
    ensures
        0 <= rank(book, n) <= book.len(),
        forall|i: int| 0 <= i < rank(book, n) ==> book[i].number < n,
        rank(book, n) < book.len() ==> book[rank(book, n)].number >= n,
    decreases book.len(),
{
    if book.len() == 0 || book.first().number >= n {
    } else {
        let rest = book.drop_first();
        lemma_rank_splits(rest, n);
        assert forall|i: int| 0 <= i < rank(book, n) implies book[i].number < n by {
            if i > 0 {
                assert(book[i] == rest[i - 1]);
            }
        }
        if rank(book, n) < book.len() {
            assert(book[rank(book, n)] == rest[rank(rest, n)]);
        }
    }
}

/// A changed expense keeps the ledger well formed, where it keeps its
/// number.
pub proof fn lemma_with_expense_replaced_wf(v: LedgerView, t: nat, i: int, e: ExpenseView)
    requires
        v.wf(),
        1 <= t <= v.trips.len(),
        0 <= i < v.entries(t).len(),
        e.number == v.entries(t)[i].number,
        v.admits(t, e),
    ensures
        v.with_expense_replaced(t, i, e).wf(),
{
    let old_book = v.entries(t);
    let book = old_book.update(i, e);
    assert(ascending(old_book));
    assert forall|a: int, b: int| 0 <= a < b < book.len() implies book[a].number
        < book[b].number by {
        assert(old_book[a].number < old_book[b].number);
    }
    assert forall|j: int| 0 <= j < book.len() implies v.admits(t, #[trigger] book[j]) by {
        if j != i {
            assert(v.admits(t, v.entries(t)[j]));
        }
    }
    lemma_with_book_wf(v, t, book);
}

/// A deleted expense keeps the ledger well formed.
pub proof fn lemma_without_expense_wf(v: LedgerView, t: nat, i: int)
    requires
        v.wf(),
        1 <= t <= v.trips.len(),
        0 <= i < v.entries(t).len(),
    ensures
        v.without_expense(t, i).wf(),
{
    let old_book = v.entries(t);
    let book = old_book.remove(i);
    assert(ascending(old_book));
    assert forall|a: int, b: int| 0 <= a < b < book.len() implies book[a].number
        < book[b].number by {
        let a0 = if a < i { a } else { a + 1 };
        let b0 = if b < i { b } else { b + 1 };
        assert(book[a] == old_book[a0] && book[b] == old_book[b0]);
        assert(old_book[a0].number < old_book[b0].number);
    }
    assert forall|j: int| 0 <= j < book.len() implies v.admits(t, #[trigger] book[j]) by {
        let j0 = if j < i { j } else { j + 1 };
        assert(book[j] == old_book[j0]);
        assert(v.admits(t, v.entries(t)[j0]));
    }
    lemma_with_book_wf(v, t, book);
}

} // verus!
