//! Fixed-point amount conversion and transfer-port validation for the
//! stablecoin.
//!
//! Amounts are carried as integers with seven decimal places; the display
//! form drops the fractional digits. The validators here are the checks the
//! host's transfer port makes before it asks the token to move anything: the
//! port reads the balances, hands them in as plain values, and refuses the
//! transfer exactly when these functions say so.

use vstd::prelude::*;

use crate::error::Error;

verus! {

/// One whole display unit, in contract units (seven decimal places).
pub const AMOUNT_SCALE: i128 = 10_000_000;

/// Truncating division by the scale, as the executable conversion performs it.
pub open spec fn spec_to_display(amount: int) -> int {
    if amount >= 0 {
        amount / (AMOUNT_SCALE as int)
    } else {
        -((-amount) / (AMOUNT_SCALE as int))
    }
}

/// Convert a contract amount (7 decimals) to its display form.
pub fn to_display_amount(amount: i128) -> (r: i128)
    ensures
        r == spec_to_display(amount as int),
{
    amount / 10_000_000
}

/// Convert a display amount to a contract amount (7 decimals).
pub fn from_display_amount(amount: i128) -> (r: i128)
    requires
        i128::MIN <= amount * (AMOUNT_SCALE as int) <= i128::MAX,
    ensures
        r == amount * (AMOUNT_SCALE as int),
{
    amount * 10_000_000
}

/// Admissibility of a direct transfer: the amount must be positive and
/// covered by the sender's balance.
pub fn validate_transfer(amount: i128, from_balance: i128) -> (r: Result<(), Error>)
    ensures
        r == if amount <= 0 {
            Err::<(), Error>(Error::InvalidAmount)
        } else if from_balance < amount {
            Err::<(), Error>(Error::InsufficientBalance)
        } else {
            Ok::<(), Error>(())
        },
{
    if amount <= 0 {
        Err(Error::InvalidAmount)
    } else if from_balance < amount {
        Err(Error::InsufficientBalance)
    } else {
        Ok(())
    }
}

/// Admissibility of an allowance grant: the allowance must not be negative.
pub fn validate_approve(amount: i128) -> (r: Result<(), Error>)
    ensures
        r == if amount < 0 {
            Err::<(), Error>(Error::InvalidAmount)
        } else {
            Ok::<(), Error>(())
        },
{
    if amount < 0 {
        Err(Error::InvalidAmount)
    } else {
        Ok(())
    }
}

/// Admissibility of a delegated transfer: the amount must be positive,
/// within the spender's allowance and covered by the owner's balance.
pub fn validate_transfer_from(amount: i128, allowance: i128, from_balance: i128) -> (r: Result<
    (),
    Error,
>)
    ensures
        r == if amount <= 0 {
            Err::<(), Error>(Error::InvalidAmount)
        } else if allowance < amount {
            Err::<(), Error>(Error::Unauthorized)
        } else if from_balance < amount {
            Err::<(), Error>(Error::InsufficientBalance)
        } else {
            Ok::<(), Error>(())
        },
{
    if amount <= 0 {
        Err(Error::InvalidAmount)
    } else if allowance < amount {
        Err(Error::Unauthorized)
    } else if from_balance < amount {
        Err(Error::InsufficientBalance)
    } else {
        Ok(())
    }
}

/// Round trip: a display amount sent through the contract scale and back is
/// returned exactly, whenever the scaled value fits the amount type.
pub proof fn lemma_display_round_trip(amount: int)
    requires
        i128::MIN <= amount * (AMOUNT_SCALE as int) <= i128::MAX,
    ensures
        spec_to_display(amount * (AMOUNT_SCALE as int)) == amount,
{
    let s = AMOUNT_SCALE as int;
    if amount >= 0 {
        assert(amount * s >= 0) by (nonlinear_arith)
            requires
                amount >= 0,
                s > 0,
        ;
        assert((amount * s) / s == amount) by (nonlinear_arith)
            requires
                s > 0,
        ;
    } else {
        assert(amount * s < 0) by (nonlinear_arith)
            requires
                amount < 0,
                s > 0,
        ;
        assert(-(amount * s) == (-amount) * s) by (nonlinear_arith);
        assert(((-amount) * s) / s == -amount) by (nonlinear_arith)
            requires
                s > 0,
        ;
    }
}

} // verus!
