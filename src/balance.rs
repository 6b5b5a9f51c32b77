use vstd::prelude::*;

verus! {

/// The largest total, in cents, that a new budget may have: one million.
pub const MAX_TOTAL_CENTS: i64 = 100_000_000;

/// A balance computed from a budget's transactions.
#[derive(Debug, Clone, Copy, PartialEq, Eq, Structural)]
pub struct Balance {
    /// The total minus the sum of the transactions, in cents.
    pub remaining: i128,
    /// Whether the remaining amount is under a tenth of the total.
    pub low_balance: bool,
}

/// The low-balance rule: the remaining amount is under ten percent of the total.
pub open spec fn is_low(total_amount: int, remaining: int) -> bool {
    10 * remaining < total_amount
}

/// Decides the low-balance rule for a total and a remaining amount.
pub fn low_balance(total_amount: i64, remaining: i128) -> (r: bool)
    ensures
        r == is_low(total_amount as int, remaining as int),
{
    if remaining > i64::MAX as i128 {
        false
    } else if remaining < i64::MIN as i128 {
        true
    } else {
        10 * remaining < total_amount as i128
    }
}

/// The balance of a total after `spent` cents went out.
pub open spec fn balance_of(total_amount: int, spent: int) -> Balance {
    Balance {
        remaining: (total_amount - spent) as i128,
        low_balance: is_low(total_amount, total_amount - spent),
    }
}

} // verus!
