//! What is due back to a caller that paid in advance for the bytes that its
//! call added to the ledger.

use vstd::prelude::*;

verus! {

/// How a deposit is settled.
#[derive(Clone, Copy, Debug, PartialEq, Eq, Structural)]
pub enum Settlement {
    /// This much is paid back.
    Refund(u128),
    /// The deposit covers the cost, and what is left of it is not worth a
    /// payment.
    Keep,
    /// The deposit does not cover the cost.
    Short,
}

/// The cost of `storage_used` bytes at `byte_cost` each.
pub open spec fn storage_cost(storage_used: u64, byte_cost: u128) -> int {
    byte_cost as int * storage_used as int
}

/// How a deposit of `attached_deposit` is settled against that cost: it
/// is short where it is less than the cost; else what is left of it is
/// paid back, unless that is 1 or nothing.
pub open spec fn settlement(storage_used: u64, byte_cost: u128, attached_deposit: u128) -> Settlement {
    let cost = storage_cost(storage_used, byte_cost);
    if cost > attached_deposit {
        Settlement::Short
    } else if attached_deposit - cost > 1 {
        Settlement::Refund((attached_deposit - cost) as u128)
    } else {
        Settlement::Keep
    }
}

/// Settles a deposit against the cost of the bytes that a call used.
pub fn refund_deposit(storage_used: u64, byte_cost: u128, attached_deposit: u128) -> (s:
    Settlement)
    ensures
        s == settlement(storage_used, byte_cost, attached_deposit),
{
    match byte_cost.checked_mul(storage_used as u128) {
        Some(cost) => {
            if cost > attached_deposit {
                Settlement::Short
            } else if attached_deposit - cost > 1 {
                Settlement::Refund(attached_deposit - cost)
            } else {
                Settlement::Keep
            }
        },
        None => Settlement::Short,
    }
}

} // verus!
