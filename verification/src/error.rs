//! Why the ledger refuses a call.

use vstd::prelude::*;

verus! {

/// The four classes of refusal.
#[derive(Clone, Copy, Debug, PartialEq, Eq, Structural)]
pub enum ErrorKind {
    /// A required field is missing or empty, a loan names one account
    /// twice, or a list of new members is empty.
    InvalidInput,
    /// The trip, the expense, the account's memberships or the trip's
    /// expenses are not there.
    NotFound,
    /// The account may not do this: it is no member of the trip, or not the
    /// lender of the expense.
    Unauthorized,
    /// The ledger is in no state to do this.
    InvalidState,
}

/// The account of a call that a membership test failed on.
#[derive(Clone, Copy, Debug, PartialEq, Eq, Structural)]
pub enum Party {
    /// The account that makes the call.
    Caller,
    /// The account that is owed.
    Lender,
    /// The account that owes.
    Ower,
    /// The account that a summary is asked for.
    Account,
}

/// A refused call. Each value names the one condition that failed.
#[derive(Clone, Copy, Debug, PartialEq, Eq, Structural)]
pub enum LedgerError {
    /// A trip needs a name that is not empty.
    TripTitleRequired,
    /// An expense needs a name when it is recorded.
    ExpenseTitleRequired,
    /// No account was given to add to the trip.
    NoMembersProvided,
    /// Lender and ower are the same account.
    SelfLoan,
    /// No trip has this id.
    TripNotFound,
    /// The trip has no expenses.
    NoExpenses,
    /// The trip has no expense with this id.
    ExpenseNotFound,
    /// The account was never added to any trip.
    InNoTrips(Party),
    /// The account is a member of some trip, but not of this one.
    NotTripMember(Party),
    /// Only the lender of an expense may change it.
    EditByNonLender,
    /// Only the lender of an expense may delete it.
    DeleteByNonLender,
    /// The trip has nobody but the account itself.
    NoCounterpart,
    /// The id that the next expense of the trip would get is still in use.
    ExpenseIdTaken,
    /// A net balance does not fit into 128 bits.
    BalanceOverflow,
}

impl LedgerError {
    /// The class of this refusal. An account that is in no trip at all is
    /// `NotFound` where a summary was asked for it, and `Unauthorized` where
    /// it is a party to a call that changes the ledger.
    pub open spec fn kind_of(self) -> ErrorKind {
        match self {
            LedgerError::TripTitleRequired => ErrorKind::InvalidInput,
            LedgerError::ExpenseTitleRequired => ErrorKind::InvalidInput,
            LedgerError::NoMembersProvided => ErrorKind::InvalidInput,
            LedgerError::SelfLoan => ErrorKind::InvalidInput,
            LedgerError::TripNotFound => ErrorKind::NotFound,
            LedgerError::NoExpenses => ErrorKind::NotFound,
            LedgerError::ExpenseNotFound => ErrorKind::NotFound,
            LedgerError::InNoTrips(Party::Account) => ErrorKind::NotFound,
            LedgerError::InNoTrips(_) => ErrorKind::Unauthorized,
            LedgerError::NotTripMember(_) => ErrorKind::Unauthorized,
            LedgerError::EditByNonLender => ErrorKind::Unauthorized,
            LedgerError::DeleteByNonLender => ErrorKind::Unauthorized,
            LedgerError::NoCounterpart => ErrorKind::InvalidState,
            LedgerError::ExpenseIdTaken => ErrorKind::InvalidState,
            LedgerError::BalanceOverflow => ErrorKind::InvalidState,
        }
    }

    /// The class of this refusal.
    pub fn kind(&self) -> (k: ErrorKind)
        ensures
            k == self.kind_of(),
    {
        match self {
            LedgerError::TripTitleRequired => ErrorKind::InvalidInput,
            LedgerError::ExpenseTitleRequired => ErrorKind::InvalidInput,
            LedgerError::NoMembersProvided => ErrorKind::InvalidInput,
            LedgerError::SelfLoan => ErrorKind::InvalidInput,
            LedgerError::TripNotFound => ErrorKind::NotFound,
            LedgerError::NoExpenses => ErrorKind::NotFound,
            LedgerError::ExpenseNotFound => ErrorKind::NotFound,
            LedgerError::InNoTrips(Party::Account) => ErrorKind::NotFound,
            LedgerError::InNoTrips(_) => ErrorKind::Unauthorized,
            LedgerError::NotTripMember(_) => ErrorKind::Unauthorized,
            LedgerError::EditByNonLender => ErrorKind::Unauthorized,
            LedgerError::DeleteByNonLender => ErrorKind::Unauthorized,
            LedgerError::NoCounterpart => ErrorKind::InvalidState,
            LedgerError::ExpenseIdTaken => ErrorKind::InvalidState,
            LedgerError::BalanceOverflow => ErrorKind::InvalidState,
        }
    }

    /// The words of [`LedgerError::message`].
    pub open spec fn message_text(self) -> Seq<char> {
        match self {
            LedgerError::TripTitleRequired => "trip title is required"@,
            LedgerError::ExpenseTitleRequired => "expense title is required"@,
            LedgerError::NoMembersProvided => "no member ids provided by caller"@,
            LedgerError::SelfLoan => "lender and ower cannot be same"@,
            LedgerError::TripNotFound => "trip_id doesn't exist"@,
            LedgerError::NoExpenses => "trip doesn't have any expenses"@,
            LedgerError::ExpenseNotFound => "expense_id doesn't exist in trip"@,
            LedgerError::InNoTrips(Party::Caller) => "caller id is added in no trips"@,
            LedgerError::InNoTrips(Party::Lender) => "lender id is added in no trips"@,
            LedgerError::InNoTrips(Party::Ower) => "ower id is added in no trips"@,
            LedgerError::InNoTrips(Party::Account) => "account id is added in no trips"@,
            LedgerError::NotTripMember(Party::Caller) => "caller id not an existing trip member"@,
            LedgerError::NotTripMember(Party::Lender) => "lender not an existing trip member"@,
            LedgerError::NotTripMember(Party::Ower) => "ower not an existing trip member"@,
            LedgerError::NotTripMember(Party::Account) => "account id not an existing trip member"@,
            LedgerError::EditByNonLender => "cannot edit expense since caller is not current lender"@,
            LedgerError::DeleteByNonLender => "cannot delete expense since caller is not lender"@,
            LedgerError::NoCounterpart => "no other account present in trip"@,
            LedgerError::ExpenseIdTaken => "expense_id already exists"@,
            LedgerError::BalanceOverflow => "net balance exceeds 128 bits"@,
        }
    }

    /// A sentence that names the condition that failed.
    pub fn message(&self) -> (m: &'static str)
        ensures
            m@ == self.message_text(),
    {
        match self {
            LedgerError::TripTitleRequired => "trip title is required",
            LedgerError::ExpenseTitleRequired => "expense title is required",
            LedgerError::NoMembersProvided => "no member ids provided by caller",
            LedgerError::SelfLoan => "lender and ower cannot be same",
            LedgerError::TripNotFound => "trip_id doesn't exist",
            LedgerError::NoExpenses => "trip doesn't have any expenses",
            LedgerError::ExpenseNotFound => "expense_id doesn't exist in trip",
            LedgerError::InNoTrips(Party::Caller) => "caller id is added in no trips",
            LedgerError::InNoTrips(Party::Lender) => "lender id is added in no trips",
            LedgerError::InNoTrips(Party::Ower) => "ower id is added in no trips",
            LedgerError::InNoTrips(Party::Account) => "account id is added in no trips",
            LedgerError::NotTripMember(Party::Caller) => "caller id not an existing trip member",
            LedgerError::NotTripMember(Party::Lender) => "lender not an existing trip member",
            LedgerError::NotTripMember(Party::Ower) => "ower not an existing trip member",
            LedgerError::NotTripMember(Party::Account) => "account id not an existing trip member",
            LedgerError::EditByNonLender => "cannot edit expense since caller is not current lender",
            LedgerError::DeleteByNonLender => "cannot delete expense since caller is not lender",
            LedgerError::NoCounterpart => "no other account present in trip",
            LedgerError::ExpenseIdTaken => "expense_id already exists",
            LedgerError::BalanceOverflow => "net balance exceeds 128 bits",
        }
    }
}

} // verus!
