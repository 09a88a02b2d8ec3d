//! Debt settlement arithmetic: applying a payment to a debt and deriving
//! the debt's status, exactly as the payment command records it.  Amounts
//! are in minor currency units.

use vstd::prelude::*;

verus! {

/// How far a debt is settled.
#[derive(Clone, Copy, PartialEq, Eq, Structural, Debug)]
pub enum DebtStatus {
    /// Nothing paid yet.
    Pending,
    /// Something paid, but less than the full amount.
    Partial,
    /// Paid in full (or over).
    Paid,
}

/// The status of a debt of `amount` of which `amount_paid` is settled.
pub open spec fn debt_status(amount: u64, amount_paid: u64) -> DebtStatus {
    if amount_paid >= amount {
        DebtStatus::Paid
    } else if amount_paid > 0 {
        DebtStatus::Partial
    } else {
        DebtStatus::Pending
    }
}

/// The status a stored paid total implies.
pub fn status_of(amount: u64, amount_paid: u64) -> (s: DebtStatus)
    ensures
        s == debt_status(amount, amount_paid),
{
    if amount_paid >= amount {
        DebtStatus::Paid
    } else if amount_paid > 0 {
        DebtStatus::Partial
    } else {
        DebtStatus::Pending
    }
}

/// Applies one payment to a debt: the new paid total, and the status the
/// debt then carries.
pub fn apply_debt_payment(amount: u64, amount_paid: u64, payment: u64) -> (r: (u64, DebtStatus))
    requires
        amount_paid + payment <= u64::MAX,
    ensures
        r.0 == amount_paid + payment,
        r.1 == debt_status(amount, (amount_paid + payment) as u64),
{
    let new_paid = amount_paid + payment;
    (new_paid, status_of(amount, new_paid))
}

} // verus!
