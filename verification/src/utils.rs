//! The deposit convention: what a caller attaches, what storage costs, and
//! what is refunded.

use crate::errors::Error;
use vstd::prelude::*;

verus! {

/// The smallest unit of the native token.
pub const ONE_YOCTO: u128 = 1;

/// Bytes of storage that the wrapped-native-token contract charges for an
/// account.
pub const STORAGE_DEPOSIT: u128 = 125;

/// Bytes of storage whose cost the engine keeps in native tokens when it
/// wraps the rest.
pub const EXTRA_NEAR_FOR_STORAGE: u128 = 1000;

/// Bytes of storage whose cost a wrap sets aside in all.
pub const EXTRA_NEAR: u128 = EXTRA_NEAR_FOR_STORAGE + STORAGE_DEPOSIT;

/// One whole native token, in its smallest units.
pub const ONE_NEAR: u128 = 1_000_000_000_000_000_000_000_000;

/// What is left of an attached deposit after `used_balance` and the cost of
/// `storage_used` bytes, or the reason why the deposit does not cover them.
pub open spec fn extra_storage_deposit(
    storage_byte_cost: nat,
    storage_used: nat,
    attached_deposit: nat,
    used_balance: nat,
) -> Result<nat, Error> {
    if attached_deposit < used_balance {
        Err(Error::NotEnoughAttachedBalance)
    } else if storage_byte_cost * storage_used > attached_deposit - used_balance {
        Err(Error::NotEnoughAttachedBalance)
    } else {
        Ok((attached_deposit - used_balance - storage_byte_cost * storage_used) as nat)
    }
}

/// The amount to send back, where there is more than dust to send.
pub open spec fn worth_refunding(refund: nat) -> Option<nat> {
    if refund > 1 {
        Some(refund)
    } else {
        None
    }
}

/// At least one unit of the native token is attached.
pub open spec fn assert_at_least_one_yocto_spec(attached_deposit: u128) -> Result<(), Error> {
    if attached_deposit >= ONE_YOCTO {
        Ok(())
    } else {
        Err(Error::NeedAtLeastOneYocto)
    }
}

/// Requires at least one unit of the native token to be attached.
pub fn assert_at_least_one_yocto(attached_deposit: u128) -> (r: Result<(), Error>)
    ensures
        r == assert_at_least_one_yocto_spec(attached_deposit),
{
    if attached_deposit >= ONE_YOCTO {
        Ok(())
    } else {
        Err(Error::NeedAtLeastOneYocto)
    }
}

/// Charges an operation against its attached deposit: `used_balance` and
/// the cost of the `storage_used` bytes it added. Returns the amount to
/// refund to the caller, `None` where no more than one unit is left, or
/// `NotEnoughAttachedBalance` where the deposit does not cover the charge.
pub fn refund_extra_storage_deposit(
    storage_byte_cost: u128,
    storage_used: u64,
    attached_deposit: u128,
    used_balance: u128,
) -> (r: Result<Option<u128>, Error>)
    ensures
        match r {
            Ok(refund) => match extra_storage_deposit(
                storage_byte_cost as nat,
                storage_used as nat,
                attached_deposit as nat,
                used_balance as nat,
            ) {
                Ok(left) => worth_refunding(left) == match refund {
                    Some(amount) => Some(amount as nat),
                    None => None,
                },
                Err(_) => false,
            },
            Err(e) => extra_storage_deposit(
                storage_byte_cost as nat,
                storage_used as nat,
                attached_deposit as nat,
                used_balance as nat,
            ) == Err::<nat, Error>(e),
        },
{
    if attached_deposit < used_balance {
        return Err(Error::NotEnoughAttachedBalance);
    }
    let available = attached_deposit - used_balance;
    let required_cost = match storage_byte_cost.checked_mul(storage_used as u128) {
        Some(cost) => cost,
        None => { return Err(Error::NotEnoughAttachedBalance); },
    };
    if required_cost > available {
        return Err(Error::NotEnoughAttachedBalance);
    }
    let refund = available - required_cost;
    if refund > 1 {
        Ok(Some(refund))
    } else {
        Ok(None)
    }
}

/// The amount to send to an account that released `storage_released` bytes
/// in a call with `attached_deposit` attached: the price of the bytes and
/// the deposit, or `None` where nothing was released or the amount leaves
/// 128 bits.
pub fn refund_released_storage(
    storage_byte_cost: u128,
    storage_released: u64,
    attached_deposit: u128,
) -> (r: Option<u128>)
    ensures
        r == (if storage_released > 0 && storage_byte_cost * storage_released + attached_deposit
            <= u128::MAX {
            Some((storage_byte_cost * storage_released + attached_deposit) as u128)
        } else {
            None
        }),
{
    if storage_released > 0 {
        match storage_byte_cost.checked_mul(storage_released as u128) {
            Some(price) => price.checked_add(attached_deposit),
            None => None,
        }
    } else {
        None
    }
}

} // verus!
