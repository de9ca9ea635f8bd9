//! Net balances. The amounts of a book are summed without loss, however
//! many and however large they are; only the balance itself has to fit the
//! 128 bits in which it is given.

use vstd::prelude::*;
use crate::book::ExpenseBook;
use crate::model::{fits_balance, loan_delta, net_balance};

verus! {

/// Two to the power of 128.
pub open spec fn two_128() -> int {
    0x1_0000_0000_0000_0000_0000_0000_0000_0000int
}

/// A sum of amounts: `high` times two to the power of 128, plus `low`.
pub struct Wide {
    high: usize,
    low: u128,
}

impl Wide {
    /// The sum.
    pub closed spec fn value(&self) -> int {
        self.high as int * two_128() + self.low as int
    }

    /// How often `low` has run over.
    pub closed spec fn carries(&self) -> int {
        self.high as int
    }

    /// The empty sum.
    pub fn zero() -> (w: Wide)
        ensures
            w.value() == 0,
            w.carries() == 0,
    {
        Wide { high: 0, low: 0 }
    }

    /// Adds one amount.
    pub fn add(&mut self, amount: u128)
        requires
            old(self).carries() < usize::MAX,
        ensures
            final(self).value() == old(self).value() + amount,
            old(self).carries() <= final(self).carries() <= old(self).carries() + 1,
    {
        let room: u128 = u128::MAX - self.low;
        if amount <= room {
            self.low = self.low + amount;
        } else {
            self.low = amount - room - 1;
            self.high = self.high + 1;
        }
    }

    /// `self` less `other`, where that fits a balance.
    pub fn less(&self, other: &Wide) -> (r: Option<i128>)
        ensures
            match r {
                Some(b) => b == self.value() - other.value(),
                None => !fits_balance(self.value() - other.value()),
            },
    {
        let top: u128 = 0x8000_0000_0000_0000_0000_0000_0000_0000;
        if self.high == other.high {
            if self.low >= other.low {
                let d: u128 = self.low - other.low;
                if d < top {
                    Some(d as i128)
                } else {
                    None
                }
            } else {
                let d: u128 = other.low - self.low;
                if d < top {
                    Some(-(d as i128))
                } else if d == top {
                    Some(i128::MIN)
                } else {
                    None
                }
            }
        } else if self.high > other.high {
            if self.high - other.high == 1 && other.low > self.low && other.low - self.low > top {
                let d: u128 = other.low - self.low;
                Some((u128::MAX - d + 1) as i128)
            } else {
                None
            }
        } else {
            if other.high - self.high == 1 && self.low >= other.low && self.low - other.low >= top {
                let d: u128 = self.low - other.low;
                let m: u128 = u128::MAX - d + 1;
                if m == top {
                    Some(i128::MIN)
                } else {
                    Some(-(m as i128))
                }
            } else {
                None
            }
        }
    }
}

/// The net balance of `account` against `other` over `book`, where it fits.
pub fn net_of(book: &ExpenseBook, account: &String, other: &String) -> (r: Option<i128>)
    ensures
        match r {
            Some(b) => b == net_balance(book@, account@, other@),
            None => !fits_balance(net_balance(book@, account@, other@)),
        },
{
    let mut lent = Wide::zero();
    let mut owed = Wide::zero();
    let n: usize = book.len();
    let mut i: usize = 0;
    while i < n
        invariant
            n == book@.len(),
            0 <= i <= n,
            lent.carries() <= i,
            owed.carries() <= i,
            lent.value() - owed.value() == net_balance(book@.take(i as int), account@, other@),
        decreases n - i,
    {
        let e = book.record(i);
        proof {
            assert(book@.take(i + 1).drop_last() =~= book@.take(i as int));
            assert(book@.take(i + 1).last() == e@);
        }
        if e.lender == *account && e.ower == *other {
            lent.add(e.amount);
        } else if e.ower == *account && e.lender == *other {
            owed.add(e.amount);
        }
        i = i + 1;
    }
    assert(book@.take(n as int) =~= book@);
    lent.less(&owed)
}

} // verus!
