//! The records that callers hand to the ledger and get back from it.

use vstd::prelude::*;
use crate::model::{SummaryView, TripView};
use crate::text::{texts, Text};

verus! {

/// A trip as callers see it. A caller that creates a trip fills in the
/// name, and the members if it likes; the ledger fills in all three.
#[derive(Debug, Clone, PartialEq, Eq)]
pub struct TripMetadata {
    pub trip_id: Option<String>,
    pub trip_name: Option<String>,
    pub trip_members: Option<Vec<String>>,
}

/// An expense as callers see it: `ower_id` owes `loan_amount` to
/// `lender_id`.
#[derive(Debug, Clone, PartialEq, Eq)]
pub struct Expense {
    pub expense_id: Option<String>,
    pub expense_name: Option<String>,
    pub ower_id: String,
    pub lender_id: String,
    pub loan_amount: u128,
}

/// A summary as callers see it: `expense_amt_value[i]` is the net balance
/// of the account against `expense_acc_key[i]`.
#[derive(Debug, Clone, PartialEq, Eq)]
pub struct ExpenseStats {
    pub trip_id: Option<String>,
    pub trip_name: Option<String>,
    pub expense_acc_key: Vec<String>,
    pub expense_amt_value: Vec<i128>,
}

/// One trip as the ledger holds it: its name and, in the order in which
/// they joined, its members.
pub struct TripRecord {
    pub name: String,
    pub members: Vec<String>,
}

impl View for TripRecord {
    type V = TripView;

    open spec fn view(&self) -> TripView {
        TripView { name: self.name@, members: texts(self.members@) }
    }
}

/// The text of a string that may be missing.
pub open spec fn text_of(s: Option<String>) -> Option<Text> {
    match s {
        Some(t) => Some(t@),
        None => None,
    }
}

/// The texts of a list that may be missing.
pub open spec fn texts_of(v: Option<Vec<String>>) -> Option<Seq<Text>> {
    match v {
        Some(list) => Some(texts(list@)),
        None => None,
    }
}

/// The balances of a list, as contracts see them.
pub open spec fn balances(v: Seq<i128>) -> Seq<int> {
    Seq::new(v.len(), |i: int| v[i] as int)
}

impl TripMetadata {
    /// Whether this is the trip with the id `trip_id`, the name `name` and
    /// the members `members`.
    pub open spec fn shows(self, trip_id: Text, name: Text, members: Seq<Text>) -> bool {
        &&& text_of(self.trip_id) == Some(trip_id)
        &&& text_of(self.trip_name) == Some(name)
        &&& texts_of(self.trip_members) == Some(members)
    }
}

impl Expense {
    /// Whether this is the expense with these five values.
    pub open spec fn shows(
        self,
        expense_id: Text,
        name: Text,
        ower: Text,
        lender: Text,
        amount: nat,
    ) -> bool {
        &&& text_of(self.expense_id) == Some(expense_id)
        &&& text_of(self.expense_name) == Some(name)
        &&& self.ower_id@ == ower
        &&& self.lender_id@ == lender
        &&& self.loan_amount == amount
    }
}

impl ExpenseStats {
    /// Whether this is the summary `s`.
    pub open spec fn shows(self, s: SummaryView) -> bool {
        &&& text_of(self.trip_id) == Some(s.trip_id)
        &&& text_of(self.trip_name) == Some(s.trip_name)
        &&& texts(self.expense_acc_key@) == s.accounts
        &&& balances(self.expense_amt_value@) == s.balances
    }
}

} // verus!
