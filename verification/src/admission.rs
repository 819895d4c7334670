//! The two-phase admission to a sale: a deposit into a gated sale waits for
//! the permissions contract, and the native tokens that came with it are
//! held back until the answer has been dealt with.

use crate::contract::{Contract, ContractView};
use crate::errors::Error;
use crate::sale::{name_view, text_view};
use crate::treasury::TreasuryView;
use crate::utils::{
    assert_at_least_one_yocto, extra_storage_deposit, refund_extra_storage_deposit, worth_refunding,
};
use vstd::prelude::*;

verus! {

impl ContractView {
    /// The engine with `amount` more native tokens held back.
    pub open spec fn lock_deposit(self, amount: nat) -> ContractView {
        ContractView {
            treasury: TreasuryView {
                locked_attached_deposits: self.treasury.locked_attached_deposits + amount,
                ..self.treasury
            },
            ..self
        }
    }

    /// The engine with `amount` fewer native tokens held back.
    pub open spec fn unlock_deposit(self, amount: nat) -> ContractView {
        ContractView {
            treasury: TreasuryView {
                locked_attached_deposits: (self.treasury.locked_attached_deposits - amount) as nat,
                ..self.treasury
            },
            ..self
        }
    }

    /// The engine after a subscriber's deposit call, and the permissions
    /// contract to ask where the deposit has to wait: the attached native
    /// tokens are then held back and nothing else changes.
    pub open spec fn sale_deposit_in_token(
        self,
        account_id: Seq<char>,
        sale_id: nat,
        amount: nat,
        referral_id: Option<Seq<char>>,
        attached_deposit: nat,
        now: nat,
        block_height: nat,
    ) -> Result<(ContractView, Option<Seq<char>>), Error> {
        if attached_deposit == 0 {
            Err(Error::NeedAtLeastOneYocto)
        } else {
            match self.deposit_in_amount(
                sale_id,
                account_id,
                amount,
                referral_id,
                false,
                now,
                block_height,
            ) {
                Err(e) => Err(e),
                Ok((c, None)) => Ok((c, None)),
                Ok((c, Some(permissions_contract_id))) => if c.treasury.locked_attached_deposits
                    + attached_deposit > u128::MAX {
                    Err(Error::BalanceOverflow)
                } else {
                    Ok((c.lock_deposit(attached_deposit), Some(permissions_contract_id)))
                },
            }
        }
    }

    /// The engine after the permissions contract has answered: a deposit
    /// that was approved is carried out as one that has passed the check.
    pub open spec fn after_is_approved(
        self,
        is_approved: bool,
        sale_id: nat,
        account_id: Seq<char>,
        in_amount: nat,
        referral_id: Option<Seq<char>>,
        now: nat,
        block_height: nat,
    ) -> Result<ContractView, Error> {
        if !is_approved {
            Err(Error::NotApproved)
        } else {
            match self.deposit_in_amount(
                sale_id,
                account_id,
                in_amount,
                referral_id,
                true,
                now,
                block_height,
            ) {
                Err(e) => Err(e),
                Ok((c, _)) => Ok(c),
            }
        }
    }

    /// What is left of a held-back deposit after the storage that the
    /// admission used, or why it cannot be released: it does not cover the
    /// storage, or more is asked back than is held.
    pub open spec fn release_result(
        self,
        attached_deposit: nat,
        storage_byte_cost: nat,
        storage_used: nat,
    ) -> Result<nat, Error> {
        match extra_storage_deposit(storage_byte_cost, storage_used, attached_deposit, 0) {
            Err(e) => Err(e),
            Ok(left) => if attached_deposit > self.treasury.locked_attached_deposits {
                Err(Error::NotEnoughBalance)
            } else {
                Ok(left)
            },
        }
    }
}

impl Contract {
    /// Pledges `amount` in-tokens of the account `account_id` to the sale
    /// `sale_id` at `now`, with `attached_deposit` native tokens attached,
    /// of which there must be some, and registers the out-tokens of the sale
    /// on the account. Where the sale is gated and the account holds no
    /// subscription, the deposit waits: the attached tokens are held back,
    /// and the permissions contract to ask is returned. A refusal changes
    /// nothing.
    pub fn sale_deposit_in_token(
        &mut self,
        account_id: &String,
        sale_id: u64,
        amount: u128,
        referral_id: Option<&String>,
        attached_deposit: u128,
        now: u64,
        block_height: u64,
    ) -> (r: Result<Option<String>, Error>)
        requires
            old(self).wf(),
        ensures
            match r {
                Ok(permissions_contract_id) => old(self)@.sale_deposit_in_token(
                    account_id@,
                    sale_id as nat,
                    amount as nat,
                    name_view(referral_id),
                    attached_deposit as nat,
                    now as nat,
                    block_height as nat,
                ) == Ok::<(ContractView, Option<Seq<char>>), Error>(
                    (final(self)@, text_view(permissions_contract_id)),
                ),
                Err(e) => old(self)@.sale_deposit_in_token(
                    account_id@,
                    sale_id as nat,
                    amount as nat,
                    name_view(referral_id),
                    attached_deposit as nat,
                    now as nat,
                    block_height as nat,
                ) == Err::<(ContractView, Option<Seq<char>>), Error>(e) && final(self)@ == old(
                    self,
                )@,
            },
            final(self).wf(),
    {
        match assert_at_least_one_yocto(attached_deposit) {
            Err(e) => { return Err(e); },
            Ok(_) => {},
        }
        let mut work = self.duplicate();
        let asked = match work.deposit_in_place(
            sale_id,
            account_id,
            amount,
            referral_id,
            false,
            now,
            block_height,
        ) {
            Err(e) => { return Err(e); },
            Ok(asked) => asked,
        };
        if asked.is_some() {
            if attached_deposit > u128::MAX - work.treasury.locked_attached_deposits {
                return Err(Error::BalanceOverflow);
            }
            work.treasury.locked_attached_deposits = work.treasury.locked_attached_deposits
                + attached_deposit;
        }
        *self = work;
        Ok(asked)
    }

    /// Carries out a deposit that waited for the permissions contract, once
    /// the contract has answered `is_approved`. A refusal changes nothing.
    pub fn after_is_approved(
        &mut self,
        is_approved: bool,
        sale_id: u64,
        account_id: &String,
        in_amount: u128,
        referral_id: Option<&String>,
        now: u64,
        block_height: u64,
    ) -> (r: Result<(), Error>)
        requires
            old(self).wf(),
        ensures
            match r {
                Ok(_) => old(self)@.after_is_approved(
                    is_approved,
                    sale_id as nat,
                    account_id@,
                    in_amount as nat,
                    name_view(referral_id),
                    now as nat,
                    block_height as nat,
                ) == Ok::<ContractView, Error>(final(self)@),
                Err(e) => old(self)@.after_is_approved(
                    is_approved,
                    sale_id as nat,
                    account_id@,
                    in_amount as nat,
                    name_view(referral_id),
                    now as nat,
                    block_height as nat,
                ) == Err::<ContractView, Error>(e) && final(self)@ == old(self)@,
            },
            final(self).wf(),
    {
        if !is_approved {
            return Err(Error::NotApproved);
        }
        let mut work = self.duplicate();
        match work.deposit_in_place(
            sale_id,
            account_id,
            in_amount,
            referral_id,
            true,
            now,
            block_height,
        ) {
            Err(e) => Err(e),
            Ok(_) => {
                *self = work;
                Ok(())
            },
        }
    }

    /// Releases the `attached_deposit` native tokens that were held back for
    /// an admission that has now been carried out and has used
    /// `storage_used` bytes. Returns the amount to refund to the
    /// subscriber, `None` where no more than one unit is left. A refusal
    /// changes nothing.
    pub fn release_locked_deposit(
        &mut self,
        attached_deposit: u128,
        storage_byte_cost: u128,
        storage_used: u64,
    ) -> (r: Result<Option<u128>, Error>)
        requires
            old(self).wf(),
        ensures
            match r {
                Ok(refund) => match old(self)@.release_result(
                    attached_deposit as nat,
                    storage_byte_cost as nat,
                    storage_used as nat,
                ) {
                    Ok(left) => worth_refunding(left) == match refund {
                        Some(amount) => Some(amount as nat),
                        None => None,
                    } && final(self)@ == old(self)@.unlock_deposit(attached_deposit as nat),
                    Err(_) => false,
                },
                Err(e) => old(self)@.release_result(
                    attached_deposit as nat,
                    storage_byte_cost as nat,
                    storage_used as nat,
                ) == Err::<nat, Error>(e) && final(self)@ == old(self)@,
            },
            final(self).wf(),
    {
        let refund = match refund_extra_storage_deposit(
            storage_byte_cost,
            storage_used,
            attached_deposit,
            0,
        ) {
            Err(e) => { return Err(e); },
            Ok(refund) => refund,
        };
        if attached_deposit > self.treasury.locked_attached_deposits {
            return Err(Error::NotEnoughBalance);
        }
        self.treasury.locked_attached_deposits = self.treasury.locked_attached_deposits
            - attached_deposit;
        Ok(refund)
    }

    /// Deals with an admission that did not go through: where the callback
    /// chain failed (`promise_success` is false), the `attached_deposit`
    /// native tokens are released and returned as the amount to refund in
    /// full. Asking back more than is held is refused, and changes nothing.
    pub fn maybe_refund_deposit(&mut self, attached_deposit: u128, promise_success: bool) -> (r:
        Result<Option<u128>, Error>)
        requires
            old(self).wf(),
        ensures
            r == (if promise_success {
                Ok::<Option<u128>, Error>(None)
            } else if attached_deposit > old(self).treasury.locked_attached_deposits {
                Err::<Option<u128>, Error>(Error::NotEnoughBalance)
            } else {
                Ok::<Option<u128>, Error>(Some(attached_deposit))
            }),
            final(self)@ == (if !promise_success && r is Ok {
                old(self)@.unlock_deposit(attached_deposit as nat)
            } else {
                old(self)@
            }),
            final(self).wf(),
    {
        if promise_success {
            return Ok(None);
        }
        if attached_deposit > self.treasury.locked_attached_deposits {
            return Err(Error::NotEnoughBalance);
        }
        self.treasury.locked_attached_deposits = self.treasury.locked_attached_deposits
            - attached_deposit;
        Ok(Some(attached_deposit))
    }
}

} // verus!
